use treefold::cli::{parse_args, Mode, ParsedArgs};
use treefold::control::{handle_action, LoopStep};
use treefold::entry::{
    checked_count_errors, count_errors, directory_entry, directory_read_error, entry_name, entry_read_error,
    file_entry, kind_from_metadata, EntryKind, FsEntry, ScanError,
};
use treefold::geometry::{clip_rect, rect_within_bounds, rects_overlap, Rect};
use treefold::gui::{apply_gui_key, gui_title, open_target_path, update, GuiApp, GuiCommand, GuiKeyAction, Message};
use treefold::heatmap::{border_emphasis, heatmap_cells, BorderEmphasis};
use treefold::input::{map_key, Action, KeyCode, KeyEvent, ALT, CONTROL, NONE};
use treefold::layout::{ensure_visible_offset, human_size, split_main};
use treefold::order::listing_order;
use treefold::os_actions::{open_command, TargetOs};
use treefold::state::AppState;
use treefold::text::{chars_lex_lt, decimal_string};
use treefold::treemap::{aggregate_small_entries, build_treemap, total_size};
use treefold::ui::{
    block_title, format_treemap_label, gui_row_label, is_selected_block, list_item_label, status_line, treemap_fallback_message,
    treemap_view, truncate_label, usage_label, TreemapView,
};

fn file(path: &str, name: &str, size: u64) -> FsEntry {
    file_entry(path.to_string(), name.to_string(), size)
}

fn dir(path: &str, name: &str, children: Vec<FsEntry>) -> FsEntry {
    directory_entry(path.to_string(), name.to_string(), children, vec![])
}

fn args(list: &[&str]) -> Vec<String> {
    list.iter().map(|s| s.to_string()).collect()
}

/// root/
///   big/ (a: 40, b: 10)
///   note.txt (5)
fn sample_tree() -> FsEntry {
    let big = dir("root/big", "big", vec![file("root/big/b", "b", 10), file("root/big/a", "a", 40)]);
    dir("root", "root", vec![file("root/note.txt", "note.txt", 5), big])
}

#[test]
fn parse_args_rejects_unknown_option() {
    assert_eq!(parse_args(args(&["-x"])), Err("unknown option: -x".to_string()));
    assert_eq!(parse_args(args(&["--verbose", "a"])), Err("unknown option: --verbose".to_string()));
}

#[test]
fn parse_args_rejects_second_path() {
    assert_eq!(
        parse_args(args(&["a", "b"])),
        Err("multiple paths provided; expected at most one".to_string())
    );
}

#[test]
fn parse_args_reports_first_refused_argument() {
    assert_eq!(parse_args(args(&["-x", "a", "b"])), Err("unknown option: -x".to_string()));
    assert_eq!(
        parse_args(args(&["a", "b", "-x"])),
        Err("multiple paths provided; expected at most one".to_string())
    );
}

#[test]
fn parse_args_help_and_flags_in_any_order() {
    assert_eq!(
        parse_args(args(&["docs", "--help", "-t"])),
        Ok(ParsedArgs { mode: Mode::Tui, path: Some("docs".to_string()), help: true })
    );
    assert_eq!(
        parse_args(args(&["-h"])),
        Ok(ParsedArgs { mode: Mode::Gui, path: None, help: true })
    );
}

#[test]
fn scan_error_messages() {
    assert_eq!(ScanError::NotFound("/nope".to_string()).message(), "path does not exist: /nope");
    let e = ScanError::Metadata { path: "/x".to_string(), source: "permission denied".to_string() };
    assert_eq!(e.message(), "failed to read metadata for /x: permission denied");
    assert_eq!(entry_read_error("bad entry"), "failed to read directory entry: bad entry");
    assert_eq!(directory_read_error("/d", "denied"), "failed to read directory /d: denied");
}

#[test]
fn entry_name_takes_last_component() {
    assert_eq!(entry_name("/a/b/c.txt"), "c.txt");
    assert_eq!(entry_name("docs/"), "docs");
    assert_eq!(entry_name("/"), "/");
    assert_eq!(entry_name(".."), "..");
}

#[test]
fn selected_block_follows_the_selected_row() {
    let mut st = AppState::new(sample_tree());
    let blocks = build_treemap(Rect::new(0, 0, 40, 12), st.current_children());
    assert_eq!(blocks.len(), 2);
    assert!(is_selected_block(&st, &blocks[0]));
    assert!(!is_selected_block(&st, &blocks[1]));
    st.move_down();
    assert!(!is_selected_block(&st, &blocks[0]));
    assert!(is_selected_block(&st, &blocks[1]));
}

#[test]
fn open_target_of_a_file_is_its_parent() {
    assert_eq!(open_target_path(EntryKind::File, "/a/b"), "/a");
    assert_eq!(open_target_path(EntryKind::File, "/"), "/");
    assert_eq!(open_target_path(EntryKind::File, "file"), "");
    assert_eq!(open_target_path(EntryKind::Directory, "/a/b/"), "/a/b/");
}

#[test]
fn parent_of_a_trailing_slash_directory() {
    let root = dir("base/", "base", vec![dir("base/sub", "sub", vec![file("base/sub/f", "f", 1)])]);
    let mut st = AppState::new(root);
    st.enter_selected();
    assert_eq!(st.current_dir, "base/sub");
    st.go_parent();
    assert_eq!(st.current_dir, "base");
    assert_eq!(st.current_entry().map(|e| e.name.clone()), Some("base".to_string()));
}

#[test]
fn directory_entry_sorts_and_sums() {
    let d = dir(
        "r",
        "r",
        vec![file("r/b", "b", 1), file("r/c", "c", 5), file("r/a", "a", 5), file("r/z", "z", 0)],
    );
    assert_eq!(d.kind, EntryKind::Directory);
    assert_eq!(d.size, 11);
    let names: Vec<&str> = d.children.iter().map(|c| c.name.as_str()).collect();
    assert_eq!(names, vec!["a", "c", "b", "z"]);
}

#[test]
fn directory_entry_keeps_order_of_equal_keys() {
    let d = dir("r", "r", vec![file("r/1/x", "x", 3), file("r/2/x", "x", 3)]);
    assert_eq!(d.children[0].path, "r/1/x");
    assert_eq!(d.children[1].path, "r/2/x");
}

#[test]
fn listing_order_is_stable() {
    let keys = vec![(1u64, vec!['b']), (5, vec!['a']), (5, vec!['a']), (5, vec!['0'])];
    assert_eq!(listing_order(&keys), vec![3, 1, 2, 0]);
}

#[test]
fn error_counts_cover_the_tree() {
    let inner = directory_entry("r/d".to_string(), "d".to_string(), vec![], vec!["e1".to_string()]);
    let root = directory_entry(
        "r".to_string(),
        "r".to_string(),
        vec![inner, file("r/f", "f", 1)],
        vec!["e2".to_string(), "e3".to_string()],
    );
    assert_eq!(count_errors(&root), 3);
    assert_eq!(checked_count_errors(&root), Some(3));
    assert_eq!(count_errors(&file("f", "f", 1)), 0);
}

#[test]
fn kinds_from_metadata() {
    assert_eq!(kind_from_metadata(true, false), EntryKind::File);
    assert_eq!(kind_from_metadata(false, true), EntryKind::File);
    assert_eq!(kind_from_metadata(false, false), EntryKind::Directory);
}

#[test]
fn truncate_label_cases() {
    assert_eq!(truncate_label("hello", 10), "hello");
    assert_eq!(truncate_label("hello", 5), "hello");
    assert_eq!(truncate_label("hello", 4), "hel…");
    assert_eq!(truncate_label("hello", 1), "");
    assert_eq!(truncate_label("hello", 0), "");
    assert_eq!(truncate_label("héllo wörld", 6), "héllo…");
}

#[test]
fn treemap_label_exact_values() {
    assert_eq!(format_treemap_label("dependencies", 1024 * 1024, 40), "dependencies  1.0 MiB");
    assert_eq!(format_treemap_label("dependencies", 1024 * 1024, 16), "depend…  1.0 MiB");
    assert_eq!(format_treemap_label("dependencies", 1024 * 1024, 6), "depen…");
    assert_eq!(format_treemap_label("a", 10, 7), "a  10 B");
    for width in 0..30 {
        assert!(format_treemap_label("dependencies", 1024 * 1024, width).chars().count() <= width);
    }
}

#[test]
fn block_titles() {
    let blocks = build_treemap(Rect::new(0, 0, 30, 10), &[file("a", "alpha", 2048)]);
    assert_eq!(blocks.len(), 1);
    assert_eq!(block_title(&blocks[0]), "alpha  2.0 KiB");
    let thin = build_treemap(Rect::new(0, 0, 4, 10), &[file("a", "alpha", 2048)]);
    assert_eq!(block_title(&thin[0]), "");
}

#[test]
fn row_labels() {
    let d = dir("r/docs", "docs", vec![file("r/docs/x", "x", 2048)]);
    assert_eq!(list_item_label(&d), "[d] docs  2.0 KiB");
    let mut f = file("r/a", "a", 10);
    assert_eq!(list_item_label(&f), "[f] a  10 B");
    f.errors.push("oops".to_string());
    assert_eq!(list_item_label(&f), "[f] a  10 B !");
    assert_eq!(gui_row_label(&f), "[f] a  10 B");
    assert_eq!(usage_label(&f), "a (10 B)");
}

#[test]
fn status_line_exact() {
    let state = AppState::new(sample_tree());
    assert_eq!(
        status_line(&state, 3),
        "root | 55 B | errors: 3 | q quit | arrows/hjkl move | enter open | esc back | r refresh"
    );
}

#[test]
fn fallback_messages() {
    let area = Rect::new(0, 0, 40, 10);
    let zeros = vec![file("a", "a", 0), file("b", "b", 0)];
    let blocks = build_treemap(area, &zeros);
    assert!(blocks.is_empty());
    assert_eq!(treemap_fallback_message(area, &zeros, &blocks), Some("No non-zero entries"));
    let some = vec![file("a", "a", 3)];
    let blocks = build_treemap(area, &some);
    assert_eq!(treemap_fallback_message(area, &some, &blocks), None);
    assert_eq!(
        treemap_fallback_message(Rect::new(0, 0, 8, 3), &some, &blocks),
        Some("Treemap too small for current terminal size")
    );
}

#[test]
fn single_entry_fills_the_panel() {
    let area = Rect::new(2, 3, 17, 9);
    let blocks = build_treemap(area, &[file("only", "only", 5)]);
    assert_eq!(blocks.len(), 1);
    assert_eq!(blocks[0].rect, area);
    assert_eq!(blocks[0].name, "only");
    assert_eq!(blocks[0].size, 5);
}

#[test]
fn aggregation_keeps_the_total() {
    let area = Rect::new(0, 0, 20, 10);
    let entries = vec![file("big", "big", 1_000), file("s1", "s1", 1), file("s2", "s2", 3), file("z", "z", 0)];
    let items = aggregate_small_entries(area, &entries);
    let sum: u64 = items.iter().map(|i| i.size).sum();
    assert_eq!(Some(sum), total_size(&entries));
    // empty entries are not small: they stay, and the treemap leaves them out later
    assert_eq!(items.len(), 3);
    assert_eq!(items[0].name, "big");
    assert_eq!(items[1].name, "z");
    assert_eq!(items[2].name, "Small entries (2)");
    assert_eq!(items[2].path, "");
    assert_eq!(items[2].size, 4);
}

#[test]
fn no_small_entries_no_aggregate() {
    let area = Rect::new(0, 0, 20, 10);
    let entries = vec![file("a", "a", 60), file("b", "b", 40)];
    let items = aggregate_small_entries(area, &entries);
    let names: Vec<&str> = items.iter().map(|i| i.name.as_str()).collect();
    assert_eq!(names, vec!["a", "b"]);
}

#[test]
fn treemap_blocks_tile_the_panel() {
    let area = Rect::new(1, 1, 37, 13);
    let entries = vec![file("a", "a", 7), file("b", "b", 5), file("c", "c", 3), file("d", "d", 2)];
    let blocks = build_treemap(area, &entries);
    assert_eq!(blocks.len(), 4);
    let mut cells = 0u32;
    for (i, b) in blocks.iter().enumerate() {
        assert!(rect_within_bounds(b.rect, area));
        cells += b.rect.width as u32 * b.rect.height as u32;
        for other in blocks.iter().skip(i + 1) {
            assert!(!rects_overlap(b.rect, other.rect));
        }
    }
    assert_eq!(cells, 37 * 13);
    assert_eq!(total_size(&entries), Some(17));
}

#[test]
fn total_size_reports_overflow() {
    let entries = vec![file("a", "a", u64::MAX), file("b", "b", 1)];
    assert_eq!(total_size(&entries), None);
}

#[test]
fn navigation_laws_on_a_tree() {
    let mut st = AppState::new(sample_tree());
    assert_eq!(st.current_dir, "root");
    assert_eq!(st.selected_index, 0);
    // the largest child comes first
    assert_eq!(st.selected_child().map(|c| c.name.clone()), Some("big".to_string()));
    st.go_parent();
    assert_eq!(st.current_dir, "root");
    assert_eq!(st.selected_index, 0);

    st.move_down();
    assert_eq!(st.selected_index, 1);
    st.move_down();
    assert_eq!(st.selected_index, 1);
    st.enter_selected();
    assert_eq!(st.current_dir, "root");
    assert_eq!(st.selected_index, 1);

    st.move_top();
    st.enter_selected();
    assert_eq!(st.current_dir, "root/big");
    assert_eq!(st.selected_index, 0);
    assert_eq!(st.current_children().len(), 2);
    st.go_parent();
    assert_eq!(st.current_dir, "root");
    assert_eq!(st.selected_index, 0);
}

#[test]
fn paging_and_bounds() {
    let children: Vec<FsEntry> = (0..25).map(|i| file(&format!("r/{i}"), &format!("{i:02}"), 1)).collect();
    let mut st = AppState::new(dir("r", "r", children));
    st.move_page_down(10);
    assert_eq!(st.selected_index, 10);
    st.move_bottom();
    assert_eq!(st.selected_index, 24);
    st.move_page_down(10);
    assert_eq!(st.selected_index, 24);
    st.move_page_up(30);
    assert_eq!(st.selected_index, 0);
    st.move_up();
    assert_eq!(st.selected_index, 0);
    st.selected_index = 20;
    st.ensure_visible(5);
    assert_eq!(st.scroll_offset, 16);
    st.selected_index = 3;
    st.ensure_visible(5);
    assert_eq!(st.scroll_offset, 3);
}

#[test]
fn visible_offset_cases() {
    assert_eq!(ensure_visible_offset(2, 0, 5), 0);
    assert_eq!(ensure_visible_offset(9, 0, 5), 5);
    assert_eq!(ensure_visible_offset(1, 4, 5), 1);
    assert_eq!(ensure_visible_offset(7, 3, 5), 3);
}

#[test]
fn terminal_loop_steps() {
    let mut st = AppState::new(sample_tree());
    assert_eq!(handle_action(&mut st, Action::Quit), LoopStep::Quit);
    assert_eq!(handle_action(&mut st, Action::Refresh), LoopStep::Refresh);
    assert_eq!(st.selected_index, 0);
    assert_eq!(handle_action(&mut st, Action::PageDown), LoopStep::Continue);
    assert_eq!(st.selected_index, 1);
    assert_eq!(handle_action(&mut st, Action::Top), LoopStep::Continue);
    assert_eq!(handle_action(&mut st, Action::Enter), LoopStep::Continue);
    assert_eq!(st.current_dir, "root/big");
    assert_eq!(handle_action(&mut st, Action::Back), LoopStep::Continue);
    assert_eq!(st.current_dir, "root");
    assert_eq!(handle_action(&mut st, Action::Nothing), LoopStep::Continue);
}

#[test]
fn letter_bindings_need_their_modifiers() {
    assert_eq!(map_key(KeyEvent::new(KeyCode::Char('q'), CONTROL)), Action::Nothing);
    assert_eq!(map_key(KeyEvent::new(KeyCode::Char('u'), NONE)), Action::Nothing);
    assert_eq!(map_key(KeyEvent::new(KeyCode::Char('k'), ALT)), Action::Nothing);
    assert_eq!(map_key(KeyEvent::new(KeyCode::Up, ALT)), Action::Up);
    assert_eq!(map_key(KeyEvent::new(KeyCode::Other, NONE)), Action::Nothing);
}

#[test]
fn gui_messages_update_the_app() {
    let mut app = GuiApp::new("  /tmp/some dir \n".to_string());
    assert_eq!(gui_title(&app), "treefold (GUI)");
    assert_eq!(app.scan_target(), "/tmp/some dir");
    match update(&mut app, Message::ScanPressed) {
        GuiCommand::Scan(p) => assert_eq!(p, "/tmp/some dir"),
        GuiCommand::Nothing => panic!("scan expected"),
    }
    assert!(matches!(update(&mut app, Message::GoParent), GuiCommand::Nothing));
    assert!(app.state.is_none());
    assert!(matches!(update(&mut app, Message::RootChanged("root".to_string())), GuiCommand::Nothing));
    assert_eq!(app.root_input, "root");

    app.apply_scan_result(Err("path does not exist: root".to_string()));
    assert_eq!(app.error, Some("path does not exist: root".to_string()));
    assert!(app.state.is_none());

    app.apply_scan_result(Ok(AppState::new(sample_tree())));
    assert!(app.error.is_none());
    assert!(matches!(update(&mut app, Message::EnterChild(0)), GuiCommand::Nothing));
    assert_eq!(app.state.as_ref().map(|s| s.current_dir.clone()), Some("root/big".to_string()));
    assert!(matches!(update(&mut app, Message::GoParent), GuiCommand::Nothing));
    assert_eq!(app.state.as_ref().map(|s| s.current_dir.clone()), Some("root".to_string()));
    match update(&mut app, Message::RefreshPressed) {
        GuiCommand::Scan(p) => assert_eq!(p, "root"),
        GuiCommand::Nothing => panic!("scan expected"),
    }
}

#[test]
fn gui_keys_move_and_open() {
    let mut st = AppState::new(sample_tree());
    apply_gui_key(&mut st, GuiKeyAction::Down);
    assert_eq!(st.selected_index, 1);
    apply_gui_key(&mut st, GuiKeyAction::Up);
    apply_gui_key(&mut st, GuiKeyAction::Enter);
    assert_eq!(st.current_dir, "root/big");
    apply_gui_key(&mut st, GuiKeyAction::Nothing);
    assert_eq!(st.current_dir, "root/big");
    apply_gui_key(&mut st, GuiKeyAction::Back);
    assert_eq!(st.current_dir, "root");
}

#[test]
fn open_commands_per_os() {
    let (cmd, a) = open_command(TargetOs::Windows, "C:/Users/me/docs");
    assert_eq!(cmd, "explorer");
    assert_eq!(a, vec!["C:\\Users\\me\\docs".to_string()]);
    let (cmd, a) = open_command(TargetOs::MacOs, "/Users/me");
    assert_eq!(cmd, "open");
    assert_eq!(a, vec!["/Users/me".to_string()]);
    let (cmd, a) = open_command(TargetOs::Other, "/home/me");
    assert_eq!(cmd, "xdg-open");
    assert_eq!(a, vec!["/home/me".to_string()]);
}

#[test]
fn heatmap_cells_skip_the_small_entries_box() {
    let entries = vec![file("big", "big", 1_000), file("s1", "s1", 1), file("s2", "s2", 1)];
    let cells = heatmap_cells(20, 10, &entries);
    assert_eq!(cells.len(), 1);
    assert_eq!(cells[0].index, 0);
    assert_eq!(cells[0].name, "big");
    assert!(!cells[0].is_dir);

    let entries = vec![file("x", "x", 2), dir("d", "d", vec![file("d/y", "y", 6)])];
    let cells = heatmap_cells(100, 50, &entries);
    assert_eq!(cells.len(), 2);
    // the larger entry is laid out first
    assert_eq!(cells[0].index, 1);
    assert!(cells[0].is_dir);
    assert_eq!(cells[1].index, 0);
    assert!(!cells[1].is_dir);
}

#[test]
fn rectangles_clamp_and_clip() {
    let r = Rect::new(65530, 65534, 10, 5);
    assert_eq!(r.width, 5);
    assert_eq!(r.height, 1);
    let clipped = clip_rect(Rect::new(5, 5, 10, 10), Rect::new(0, 0, 8, 12));
    assert_eq!(clipped, Rect::new(5, 5, 3, 7));
    let outside = clip_rect(Rect::new(20, 20, 4, 4), Rect::new(0, 0, 8, 8));
    assert_eq!(outside.width, 0);
    assert_eq!(outside.height, 0);
    assert!(rects_overlap(Rect::new(0, 0, 4, 4), Rect::new(3, 3, 4, 4)));
    assert!(!rects_overlap(Rect::new(0, 0, 4, 4), Rect::new(4, 0, 4, 4)));
}

#[test]
fn main_split_divides_the_width() {
    let (left, right) = split_main(Rect::new(0, 0, 120, 20));
    assert_eq!(left.x, 0);
    assert_eq!(right.x, left.width);
    assert_eq!(left.width as u32 + right.width as u32, 120);
    assert!(left.width < right.width);
    assert_eq!(left.height, 20);
    assert_eq!(right.height, 20);
}

#[test]
fn numbers_and_text_helpers() {
    assert_eq!(decimal_string(0), "0");
    assert_eq!(decimal_string(1234567890123), "1234567890123");
    assert!(chars_lex_lt(&vec!['a', 'b'], &vec!['a', 'c']));
    assert!(chars_lex_lt(&vec!['a'], &vec!['a', 'a']));
    assert!(!chars_lex_lt(&vec!['b'], &vec!['a', 'z']));
    assert!(!chars_lex_lt(&vec!['a'], &vec!['a']));
    assert_eq!(human_size(1536), "1.5 KiB");
    assert_eq!(human_size(u64::MAX), "17179869184.0 GiB");
}

#[test]
fn one_block_per_item_when_every_split_has_room() {
    let area = Rect::new(0, 0, 30, 12);
    let entries = vec![file("a", "a", 9), file("b", "b", 6), file("c", "c", 4), file("z", "z", 0)];
    let blocks = build_treemap(area, &entries);
    let names: Vec<&str> = blocks.iter().map(|b| b.name.as_str()).collect();
    assert_eq!(names, vec!["a", "b", "c"]);
    let sum: u64 = blocks.iter().map(|b| b.size).sum();
    assert_eq!(sum, 19);
}

#[test]
fn a_split_without_room_keeps_only_the_first_item() {
    let area = Rect::new(0, 0, 1, 10);
    let entries = vec![file("a", "a", 5), file("b", "b", 5)];
    let blocks = build_treemap(area, &entries);
    assert_eq!(blocks.len(), 1);
    assert_eq!(blocks[0].name, "a");
    assert_eq!(blocks[0].rect, area);
}

#[test]
fn cell_rounding_in_a_three_cell_panel() {
    let area = Rect::new(0, 0, 3, 1);
    let blocks = build_treemap(area, &[file("a", "a", 6), file("b", "b", 5)]);
    assert_eq!(blocks.len(), 2);
    assert_eq!(blocks[0].name, "a");
    assert_eq!(blocks[0].rect, Rect::new(0, 0, 2, 1));
    assert_eq!(blocks[1].rect, Rect::new(2, 0, 1, 1));
}

#[test]
fn shares_round_to_the_nearest_cell() {
    // 7 of 10 cells would be 7.7 for a share of 0.77: rounded to 8, not cut to 7
    let blocks = build_treemap(Rect::new(0, 0, 10, 1), &[file("a", "a", 77), file("b", "b", 23)]);
    assert_eq!(blocks[0].rect.width, 8);
    assert_eq!(blocks[1].rect.width, 2);
    // an exact half rounds up
    let blocks = build_treemap(Rect::new(0, 0, 5, 1), &[file("a", "a", 1), file("b", "b", 1)]);
    assert_eq!(blocks[0].rect.width, 3);
    assert_eq!(blocks[1].rect.width, 2);
    // equal entries in an even panel get equal halves
    let blocks = build_treemap(Rect::new(0, 0, 6, 2), &[file("a", "a", 4), file("b", "b", 4)]);
    assert_eq!(blocks[0].rect.width, 3);
    assert_eq!(blocks[1].rect.width, 3);
}

#[test]
fn small_panels_are_still_filled() {
    let area = Rect::new(0, 0, 1, 3);
    let blocks = build_treemap(area, &[file("a", "a", 1), file("b", "b", 2), file("c", "c", 3)]);
    let cells: u32 = blocks.iter().map(|b| b.rect.width as u32 * b.rect.height as u32).sum();
    assert_eq!(cells, 3);
}

#[test]
fn trimming_follows_unicode_white_space() {
    for input in ["  /tmp/x  ", "\t\n/tmp/x\r\n", "\u{3000}a b\u{2028}", "\u{200B}x", "", "   ", "\u{85}\u{a0}y\u{202f}"] {
        let app = GuiApp::new(input.to_string());
        assert_eq!(app.scan_target(), input.trim());
    }
}

#[test]
fn treemap_panel_views() {
    let some = vec![file("a", "a", 3), file("b", "b", 1)];
    assert!(matches!(treemap_view(Rect::new(0, 0, 0, 5), &some), TreemapView::Blank));
    assert!(matches!(treemap_view(Rect::new(0, 0, 20, 5), &[]), TreemapView::EmptyDirectory));
    match treemap_view(Rect::new(0, 0, 7, 5), &some) {
        TreemapView::Message(m) => assert_eq!(m, "Treemap too small for current terminal size"),
        _ => panic!("message expected"),
    }
    match treemap_view(Rect::new(0, 0, 20, 5), &[file("z", "z", 0)]) {
        TreemapView::Message(m) => assert_eq!(m, "No non-zero entries"),
        _ => panic!("message expected"),
    }
    match treemap_view(Rect::new(0, 0, 20, 5), &some) {
        TreemapView::Blocks(b) => {
            assert_eq!(b.len(), 2);
            assert_eq!(b[0].name, "a");
        }
        _ => panic!("blocks expected"),
    }
}

#[test]
fn heatmap_border_emphasis_order() {
    assert_eq!(border_emphasis(true, true, true), BorderEmphasis::Selected);
    assert_eq!(border_emphasis(false, false, true), BorderEmphasis::Hovered);
    assert_eq!(border_emphasis(true, false, false), BorderEmphasis::Directory);
    assert_eq!(border_emphasis(false, false, false), BorderEmphasis::Plain);
}

#[test]
fn a_single_entry_in_a_rectangle_past_the_edge() {
    let area = Rect { x: 65530, y: 0, width: 10, height: 5 };
    let blocks = build_treemap(area, &[file("a", "a", 3)]);
    assert_eq!(blocks.len(), 1);
    assert_eq!(blocks[0].rect, Rect { x: 65530, y: 0, width: 5, height: 5 });
    let edge = Rect { x: 65535, y: 0, width: 10, height: 5 };
    assert!(build_treemap(edge, &[file("a", "a", 3)]).is_empty());
    assert!(matches!(treemap_view(edge, &[]), TreemapView::EmptyDirectory));
}

#[test]
fn keys_far_down_the_list_need_no_room_unless_they_move_down() {
    let mut st = AppState::new(sample_tree());
    st.selected_index = usize::MAX - 3;
    assert_eq!(handle_action(&mut st, Action::Up), LoopStep::Continue);
    assert_eq!(st.selected_index, 1);
    st.selected_index = usize::MAX;
    apply_gui_key(&mut st, GuiKeyAction::Up);
    assert_eq!(st.selected_index, usize::MAX - 1);
}

#[test]
fn directory_size_is_the_sum_of_its_listed_children() {
    let d = sample_tree();
    let sum: u64 = d.children.iter().map(|c| c.size).sum();
    assert_eq!(d.size, sum);
    assert_eq!(d.children[0].size, 50);
    assert_eq!(d.children[1].size, 5);
}
