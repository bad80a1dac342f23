use treefold::cli::{help_text, parse_args, Mode};
use treefold::control::{handle_action, LoopStep};
use treefold::entry::{
    count_errors, directory_entry, entry_name, file_entry, kind_from_metadata, EntryKind, FsEntry, ScanError,
};
use treefold::geometry::{clip_rect, rect_within_bounds, rects_overlap, Rect};
use treefold::gui::{
    context_delete_label, context_open_label, init_state_from_scan, map_gui_key, open_target_path,
    resolve_default_root_path_from_env, update, GuiApp, GuiCommand, GuiKey, GuiKeyAction, Message,
};
use treefold::heatmap::heatmap_cells;
use treefold::input::{map_key, Action, KeyCode, KeyEvent, CONTROL, NONE, SHIFT};
use treefold::layout::{ensure_visible_offset, human_size, split_main};
use treefold::os_actions::{open_command, TargetOs};
use treefold::state::AppState;
use treefold::treemap::{aggregate_small_entries, build_treemap};
use treefold::ui::{format_treemap_label, list_item_label, status_line, treemap_fallback_message, truncate_label};

fn key(code: KeyCode, modifiers: u8) -> KeyEvent {
    KeyEvent::new(code, modifiers)
}

fn leaf(path: &str, size: u64) -> FsEntry {
    FsEntry {
        path: path.to_string(),
        name: path.to_string(),
        kind: EntryKind::File,
        size,
        children: vec![],
        errors: vec![],
    }
}

fn area_of(r: Rect) -> u32 {
    r.width as u32 * r.height as u32
}

#[test]
fn navigation_enter_and_parent() {
    let root = FsEntry {
        path: "root".into(),
        name: "root".into(),
        kind: EntryKind::Directory,
        size: 10,
        children: vec![FsEntry {
            path: "root/sub".into(),
            name: "sub".into(),
            kind: EntryKind::Directory,
            size: 10,
            children: vec![],
            errors: vec![],
        }],
        errors: vec![],
    };
    let mut st = AppState::new(root);
    st.enter_selected();
    assert!(std::path::Path::new(&st.current_dir).ends_with("sub"));
    st.go_parent();
    assert_eq!(st.current_dir, "root".to_string());
    st.go_parent();
    assert_eq!(st.current_dir, "root".to_string());
}

#[test]
fn selection_clamp_and_scroll() {
    let mut st = AppState::new(FsEntry {
        path: "r".into(),
        name: "r".into(),
        kind: EntryKind::Directory,
        size: 1,
        children: vec![FsEntry {
            path: "r/f".into(),
            name: "f".into(),
            kind: EntryKind::File,
            size: 1,
            children: vec![],
            errors: vec![],
        }],
        errors: vec![],
    });
    st.selected_index = 9;
    st.clamp_selection();
    assert_eq!(st.selected_index, 0);
    assert_eq!(ensure_visible_offset(9, 0, 5), 5);
}

#[test]
fn keybindings_map() {
    assert_eq!(map_key(key(KeyCode::Up, NONE)), Action::Up);
    assert_eq!(map_key(key(KeyCode::Char('k'), NONE)), Action::Up);
    assert_eq!(map_key(key(KeyCode::Down, NONE)), Action::Down);
    assert_eq!(map_key(key(KeyCode::Char('j'), NONE)), Action::Down);
    assert_eq!(map_key(key(KeyCode::PageUp, NONE)), Action::PageUp);
    assert_eq!(map_key(key(KeyCode::Char('u'), CONTROL)), Action::PageUp);
    assert_eq!(map_key(key(KeyCode::PageDown, NONE)), Action::PageDown);
    assert_eq!(map_key(key(KeyCode::Char('d'), CONTROL)), Action::PageDown);
    assert_eq!(map_key(key(KeyCode::Char('g'), NONE)), Action::Top);
    assert_eq!(map_key(key(KeyCode::Char('G'), SHIFT)), Action::Bottom);
    assert_eq!(map_key(key(KeyCode::Right, NONE)), Action::Enter);
    assert_eq!(map_key(key(KeyCode::Enter, NONE)), Action::Enter);
    assert_eq!(map_key(key(KeyCode::Char('l'), NONE)), Action::Enter);
    assert_eq!(map_key(key(KeyCode::Left, NONE)), Action::Back);
    assert_eq!(map_key(key(KeyCode::Esc, NONE)), Action::Back);
    assert_eq!(map_key(key(KeyCode::Char('h'), NONE)), Action::Back);
    assert_eq!(map_key(key(KeyCode::Char('r'), NONE)), Action::Refresh);
    assert_eq!(map_key(key(KeyCode::Char('q'), NONE)), Action::Quit);
    assert_eq!(map_key(key(KeyCode::Char('c'), CONTROL)), Action::Quit);
    assert_eq!(map_key(key(KeyCode::Char('x'), NONE)), Action::Nothing);
}

#[test]
fn layout_size_and_split() {
    let (left, right) = split_main(Rect::new(0, 0, 120, 20));
    assert!(left.width >= 39 && left.width <= 41);
    assert!(right.width >= 79 && right.width <= 81);
    assert_eq!(human_size(0), "0 B");
    assert_eq!(human_size(999), "999 B");
    assert_eq!(human_size(1024), "1.0 KiB");
    assert_eq!(human_size(1024 * 1024), "1.0 MiB");
}

#[test]
fn treemap_algorithm_properties() {
    let a = leaf("a", 10);
    let b = leaf("b", 10);
    let rects = build_treemap(Rect::new(0, 0, 40, 10), &[a.clone(), b.clone()]);
    assert_eq!(rects.len(), 2);
    let area0 = area_of(rects[0].rect);
    let area1 = area_of(rects[1].rect);
    assert!(area0.abs_diff(area1) <= 20);

    let c = FsEntry { size: 30, ..a.clone() };
    let d = FsEntry { size: 10, ..b.clone() };
    let rects2 = build_treemap(Rect::new(0, 0, 40, 10), &[c, d]);
    let area_big = area_of(rects2[0].rect);
    let area_small = area_of(rects2[1].rect);
    assert!(area_big > area_small);
}

#[test]
fn treemap_fit_bounds_overlap_and_utilization() {
    let area = Rect::new(3, 2, 60, 20);
    let entries = vec![leaf("a", 50), leaf("b", 30), leaf("c", 20)];
    let blocks = build_treemap(area, &entries);
    assert!(!blocks.is_empty());

    for b in &blocks {
        assert!(rect_within_bounds(b.rect, area));
    }

    for (i, a) in blocks.iter().enumerate() {
        for b in blocks.iter().skip(i + 1) {
            assert!(!rects_overlap(a.rect, b.rect));
        }
    }

    let sum_area: u32 = blocks.iter().map(|b| area_of(b.rect)).sum();
    let panel_area = area_of(area);
    assert!(sum_area <= panel_area);
    assert!(sum_area >= panel_area.saturating_sub(area.width as u32));
}

#[test]
fn treemap_tiny_rect_has_fallback_message() {
    let area = Rect::new(0, 0, 7, 3);
    let entries = vec![leaf("a", 10)];
    let blocks = build_treemap(area, &entries);
    let message = treemap_fallback_message(area, &entries, &blocks);
    assert_eq!(message, Some("Treemap too small for current terminal size"));
}

#[test]
fn treemap_recomputes_on_resize() {
    let entries = vec![leaf("a", 3), leaf("b", 2)];
    let small = build_treemap(Rect::new(0, 0, 20, 8), &entries);
    let large = build_treemap(Rect::new(0, 0, 80, 24), &entries);
    let small_area: u32 = small.iter().map(|b| area_of(b.rect)).sum();
    let large_area: u32 = large.iter().map(|b| area_of(b.rect)).sum();
    assert!(large_area > small_area);
}

#[test]
fn render_smoke_empty_and_selected() {
    let root = FsEntry {
        path: "root".into(),
        name: "root".into(),
        kind: EntryKind::Directory,
        size: 0,
        children: vec![],
        errors: vec![],
    };
    let state = AppState::new(root);
    let status = status_line(&state, count_errors(&state.root));
    assert!(status.contains("errors: 0"));
}

#[test]
fn treemap_label_formatting_handles_size_and_truncation() {
    let large = format_treemap_label("dependencies", 1024 * 1024, 40);
    assert!(large.contains("dependencies"));
    assert!(large.contains("1.0 MiB"));

    let medium = format_treemap_label("dependencies", 1024 * 1024, 16);
    assert!(medium.contains("1.0 MiB"));
    assert!(medium.contains('…'));

    let small = format_treemap_label("dependencies", 1024 * 1024, 6);
    assert!(!small.contains("MiB"));
    assert!(small.chars().count() <= 6);
}

#[test]
fn small_entries_are_aggregated_with_correct_size() {
    let area = Rect::new(0, 0, 20, 10);
    let entries = vec![leaf("big", 1_000), leaf("s1", 1), leaf("s2", 1)];

    let prepared = aggregate_small_entries(area, &entries);
    assert!(prepared.iter().any(|e| e.name == "big"));
    let aggregate = prepared
        .iter()
        .find(|e| e.name.starts_with("Small entries"))
        .expect("aggregate present");
    assert_eq!(aggregate.size, 2);
}

#[test]
fn treemap_shows_aggregate_block_when_threshold_triggers() {
    let area = Rect::new(0, 0, 40, 12);
    let mut entries = vec![leaf("big", 5_000)];
    for i in 0..30 {
        entries.push(leaf(&format!("s{i}"), 1));
    }
    let blocks = build_treemap(area, &entries);
    assert!(blocks.iter().any(|b| b.name.starts_with("Small entries")));
}

#[test]
fn treemap_many_tiny_files_no_panic() {
    let area = Rect::new(0, 0, 50, 20);
    let mut entries = Vec::new();
    for i in 0..500 {
        entries.push(leaf(&format!("tiny-{i}"), 1));
    }
    let _ = build_treemap(area, &entries);
}

#[test]
fn gui_heatmap_blocks_within_bounds_and_non_overlapping() {
    let mut dir = leaf("a", 50);
    dir.kind = EntryKind::Directory;
    let entries = vec![dir, leaf("b", 30), leaf("c", 20)];
    let blocks = heatmap_cells(800, 500, &entries);
    assert!(!blocks.is_empty());
    for b in &blocks {
        assert!(b.rect.x as u32 + b.rect.width as u32 <= 800);
        assert!(b.rect.y as u32 + b.rect.height as u32 <= 500);
    }
    for i in 0..blocks.len() {
        for j in i + 1..blocks.len() {
            assert!(!rects_overlap(blocks[i].rect, blocks[j].rect));
        }
    }
    assert!(blocks[0].is_dir);
    assert_eq!(blocks[0].index, 0);
}

#[test]
fn gui_key_mapping_parity() {
    assert_eq!(map_gui_key(GuiKey::ArrowUp), GuiKeyAction::Up);
    assert_eq!(map_gui_key(GuiKey::ArrowDown), GuiKeyAction::Down);
    assert_eq!(map_gui_key(GuiKey::Enter), GuiKeyAction::Enter);
    assert_eq!(map_gui_key(GuiKey::Escape), GuiKeyAction::Back);
    assert_eq!(map_gui_key(GuiKey::Other), GuiKeyAction::Nothing);
}

#[test]
fn cli_defaults_to_gui() {
    let parsed = parse_args(Vec::<String>::new()).expect("parse");
    assert_eq!(parsed.mode, Mode::Gui);
    assert!(parsed.path.is_none());
}

#[test]
fn cli_tui_short_and_long_flag() {
    let parsed_short = parse_args(vec!["-t".to_string()]).expect("parse short");
    assert_eq!(parsed_short.mode, Mode::Tui);
    let parsed_long = parse_args(vec!["--tui".to_string()]).expect("parse long");
    assert_eq!(parsed_long.mode, Mode::Tui);
}

#[test]
fn cli_path_parsing() {
    let parsed = parse_args(vec!["-t".to_string(), ".".to_string()]).expect("parse");
    assert_eq!(parsed.mode, Mode::Tui);
    assert_eq!(parsed.path.expect("path"), ".".to_string());
}

#[test]
fn cli_help_text_mentions_gui_default_and_tui_flag() {
    let help = help_text();
    assert!(help.contains("Default mode: GUI"));
    assert!(help.contains("--tui"));
}

#[test]
fn gui_context_labels_by_type() {
    assert_eq!(context_open_label(EntryKind::Directory), "Open this directory");
    assert_eq!(context_open_label(EntryKind::File), "View in parent");
    assert_eq!(context_delete_label(EntryKind::Directory), "Delete this folder");
    assert_eq!(context_delete_label(EntryKind::File), "Delete this file");
}

#[test]
fn gui_open_target_path_rules() {
    let file = "/tmp/a/b/c.txt";
    let dir = "/tmp/a/b";
    assert_eq!(open_target_path(EntryKind::File, file), "/tmp/a/b".to_string());
    assert_eq!(open_target_path(EntryKind::Directory, dir), dir.to_string());
}

#[test]
fn os_open_command_resolves() {
    let (cmd, args) = open_command(TargetOs::Other, ".");
    assert!(!cmd.is_empty());
    assert!(!args.is_empty());
}

#[test]
fn gui_default_root_prefers_home() {
    let p = resolve_default_root_path_from_env(
        Some("/tmp/home-test".to_string()),
        Some("/tmp/userprofile-test".to_string()),
        Some("/tmp/cwd-test".to_string()),
    );
    assert_eq!(p, "/tmp/home-test".to_string());
}

#[test]
fn gui_default_root_falls_back_to_userprofile_then_cwd() {
    let p1 = resolve_default_root_path_from_env(
        None,
        Some("/tmp/userprofile-test".to_string()),
        Some("/tmp/cwd-test".to_string()),
    );
    assert_eq!(p1, "/tmp/userprofile-test".to_string());

    let p2 = resolve_default_root_path_from_env(None, None, Some("/tmp/cwd-test".to_string()));
    assert_eq!(p2, "/tmp/cwd-test".to_string());
}

#[test]
fn gui_manual_invalid_path_returns_error() {
    let bad = "/definitely/not/a/real/treefold/path";
    let result = init_state_from_scan(Err(ScanError::NotFound(bad.to_string())));
    assert!(result.is_err());
}
