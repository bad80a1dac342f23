use vstd::prelude::*;
use crate::entry::{EntryKind, FsEntry};
use crate::geometry::{Rect, clamped, rect_valid};
use crate::layout::{human_size, human_size_spec};
use crate::path::{path_matches, same_path};
use crate::state::{AppState, current_entry_spec, selected_spec};
use crate::text::{decimal, push_char, push_decimal, push_str};
use crate::treemap::{TreemapBlock, blocks_view, build_treemap, entries_total, treemap_spec};

verus! {

/// Every entry of `s` is empty.
pub open spec fn all_empty(s: Seq<FsEntry>) -> bool {
    forall|k: int| 0 <= k < s.len() ==> #[trigger] s[k].size == 0
}

/// The message shown in place of the treemap: the panel is too small below 8 columns or 4
/// rows; otherwise there is nothing to draw when every entry is empty or no block was laid out.
pub open spec fn fallback_spec(area: Rect, children: Seq<FsEntry>, blocks_len: int) -> Option<Seq<char>> {
    if area.width < 8 || area.height < 4 {
        Some("Treemap too small for current terminal size"@)
    } else if all_empty(children) || blocks_len == 0 {
        Some("No non-zero entries"@)
    } else {
        None
    }
}

/// The message to show instead of the treemap, if any.
pub fn treemap_fallback_message(area: Rect, children: &[FsEntry], blocks: &[TreemapBlock]) -> (m: Option<&'static str>)
    ensures
        match m {
            Some(t) => fallback_spec(area, children@, blocks@.len() as int) == Some(t@),
            None => fallback_spec(area, children@, blocks@.len() as int) is None,
        },
{
    if area.width < 8 || area.height < 4 {
        return Some("Treemap too small for current terminal size");
    }
    let mut all_zero = true;
    let mut i: usize = 0;
    while i < children.len()
        invariant
            i <= children@.len(),
            all_zero == (forall|k: int| 0 <= k < i ==> #[trigger] children@[k].size == 0),
        decreases children@.len() - i,
    {
        if children[i].size != 0 {
            all_zero = false;
        }
        i = i + 1;
    }
    if all_zero || blocks.len() == 0 {
        return Some("No non-zero entries");
    }
    None
}

/// `s` cut to at most `width` characters: unchanged when it fits, empty when `width` is at
/// most one, and otherwise its first `width - 1` characters followed by an ellipsis.
pub open spec fn truncate_spec(s: Seq<char>, width: int) -> Seq<char> {
    if s.len() <= width {
        s
    } else if width <= 1 {
        Seq::empty()
    } else {
        s.subrange(0, width - 1).push('…')
    }
}

/// `input` cut to at most `width` characters, marked with an ellipsis where it was cut.
pub fn truncate_label(input: &str, width: usize) -> (s: String)
    ensures
        s@ == truncate_spec(input@, width as int),
{
    let n = input.unicode_len();
    if n <= width {
        return String::from_str(input);
    }
    if width <= 1 {
        return String::new();
    }
    let head = input.substring_char(0, width - 1);
    let mut out = String::from_str(head);
    push_char(&mut out, '…');
    out
}

/// The label of a treemap block of `width` columns for `name` of `size` bytes: name, two
/// spaces and size when it fits; otherwise the name cut to leave room for the size when there
/// is room for at least one character of it; otherwise the name alone, cut to the width.
pub open spec fn label_spec(name: Seq<char>, size: u64, width: int) -> Seq<char> {
    let size_text = human_size_spec(size);
    let full = name + "  "@ + size_text;
    if full.len() <= width {
        full
    } else if width >= size_text.len() + 4 {
        truncate_spec(name, width - size_text.len() - 2) + "  "@ + size_text
    } else {
        truncate_spec(name, width)
    }
}

/// The label of a treemap block `width` columns wide for `name` of `size` bytes.
pub fn format_treemap_label(name: &str, size: u64, width: usize) -> (s: String)
    ensures
        s@ == label_spec(name@, size, width as int),
{
    let size_text = human_size(size);
    let size_len = size_text.as_str().unicode_len();
    let name_len = name.unicode_len();
    if name_len as u128 + 2 + size_len as u128 <= width as u128 {
        let mut out = String::from_str(name);
        push_str(&mut out, "  ");
        push_str(&mut out, size_text.as_str());
        proof {
            reveal_strlit("  ");
        }
        return out;
    }
    if width as u128 >= size_len as u128 + 4 {
        let mut out = truncate_label(name, width - size_len - 2);
        push_str(&mut out, "  ");
        push_str(&mut out, size_text.as_str());
        proof {
            reveal_strlit("  ");
        }
        return out;
    }
    proof {
        reveal_strlit("  ");
    }
    truncate_label(name, width)
}

/// The title drawn in a treemap block: its label, two columns narrower than the block, when the
/// block is wider than 4 columns and taller than 2 rows; otherwise nothing.
pub fn block_title(block: &TreemapBlock) -> (s: String)
    ensures
        s@ == (if block.rect.width > 4 && block.rect.height > 2 {
            label_spec(block.name@, block.size, block.rect.width - 2)
        } else {
            Seq::empty()
        }),
{
    if block.rect.width > 4 && block.rect.height > 2 {
        format_treemap_label(block.name.as_str(), block.size, (block.rect.width - 2) as usize)
    } else {
        String::new()
    }
}

/// Whether `block` is drawn as the selected one: it stands for the path of the selected row.
pub fn is_selected_block(state: &AppState, block: &TreemapBlock) -> (res: bool)
    ensures
        res == (match selected_spec(state@) {
            Some(c) => path_matches(c.path@, block.path@),
            None => false,
        }),
{
    match state.selected_child() {
        Some(c) => same_path(c.path.as_str(), block.path.as_str()),
        None => false,
    }
}

/// What the treemap panel shows.
pub enum TreemapView {
    /// Nothing: the panel has no cells inside its border.
    Blank,
    /// The note that the shown directory is empty.
    EmptyDirectory,
    /// A message in place of the treemap.
    Message(&'static str),
    /// The blocks of the treemap.
    Blocks(Vec<TreemapBlock>),
}

/// What the treemap panel `area` shows for `children`: nothing in an empty panel, a note for
/// an empty directory, the fallback message where there is one, and otherwise the treemap.
pub fn treemap_view(area: Rect, children: &[FsEntry]) -> (v: TreemapView)
    requires
        rect_valid(area) || children@.len() <= 1,
        entries_total(children@) <= u64::MAX,
    ensures
        match v {
            TreemapView::Blank => area.width == 0 || area.height == 0,
            TreemapView::EmptyDirectory => area.width > 0 && area.height > 0 && children@.len() == 0,
            TreemapView::Message(m) => {
                &&& area.width > 0 && area.height > 0 && children@.len() > 0
                &&& fallback_spec(area, children@, treemap_spec(clamped(area), children@).len() as int) == Some(m@)
            },
            TreemapView::Blocks(b) => {
                &&& area.width > 0 && area.height > 0 && children@.len() > 0
                &&& fallback_spec(area, children@, treemap_spec(clamped(area), children@).len() as int) is None
                &&& blocks_view(b@) == treemap_spec(clamped(area), children@)
            },
        },
{
    if area.width == 0 || area.height == 0 {
        return TreemapView::Blank;
    }
    if children.len() == 0 {
        return TreemapView::EmptyDirectory;
    }
    let blocks = build_treemap(area, children);
    match treemap_fallback_message(area, children, blocks.as_slice()) {
        Some(m) => TreemapView::Message(m),
        None => TreemapView::Blocks(blocks),
    }
}

/// A cut label is never wider than the room it is cut for.
pub proof fn law_truncate_fits(s: Seq<char>, width: int)
    requires
        width >= 0,
    ensures
        truncate_spec(s, width).len() <= width,
        s.len() <= width ==> truncate_spec(s, width) == s,
{
}

/// A treemap label is never wider than its block, and shows the full name and size whenever
/// they fit.
pub proof fn law_label_fits(name: Seq<char>, size: u64, width: int)
    requires
        width >= 0,
    ensures
        label_spec(name, size, width).len() <= width,
        (name + "  "@ + human_size_spec(size)).len() <= width ==> label_spec(name, size, width) == name + "  "@
            + human_size_spec(size),
{
    reveal_strlit("  ");
    let st = human_size_spec(size);
    if (name + "  "@ + st).len() > width && width >= st.len() + 4 {
        law_truncate_fits(name, width - st.len() - 2);
    } else {
        law_truncate_fits(name, width);
    }
}

/// The row shown for `e` in the list: its kind, name and size, and a mark when it met errors.
pub open spec fn list_item_spec(e: FsEntry) -> Seq<char> {
    (if e.kind == EntryKind::Directory { "[d] "@ } else { "[f] "@ }) + e.name@ + "  "@ + human_size_spec(e.size)
        + (if e.errors@.len() == 0 { Seq::<char>::empty() } else { " !"@ })
}

/// The row shown for `e` in the list.
pub fn list_item_label(e: &FsEntry) -> (s: String)
    ensures
        s@ == list_item_spec(*e),
{
    let mut out = if e.kind == EntryKind::Directory {
        String::from_str("[d] ")
    } else {
        String::from_str("[f] ")
    };
    push_str(&mut out, e.name.as_str());
    push_str(&mut out, "  ");
    let size_text = human_size(e.size);
    push_str(&mut out, size_text.as_str());
    if e.errors.len() != 0 {
        push_str(&mut out, " !");
    }
    proof {
        assert(out@ =~= list_item_spec(*e));
    }
    out
}

/// The row shown for `e` in the list of the graphical interface: its kind, name and size.
pub open spec fn gui_row_spec(e: FsEntry) -> Seq<char> {
    (if e.kind == EntryKind::Directory { "[d] "@ } else { "[f] "@ }) + e.name@ + "  "@ + human_size_spec(e.size)
}

/// The row shown for `e` in the list of the graphical interface.
pub fn gui_row_label(e: &FsEntry) -> (s: String)
    ensures
        s@ == gui_row_spec(*e),
{
    let mut out = if e.kind == EntryKind::Directory {
        String::from_str("[d] ")
    } else {
        String::from_str("[f] ")
    };
    push_str(&mut out, e.name.as_str());
    push_str(&mut out, "  ");
    let size_text = human_size(e.size);
    push_str(&mut out, size_text.as_str());
    out
}

/// The caption of the usage bar of `e`: its name and, in brackets, its size.
pub fn usage_label(e: &FsEntry) -> (s: String)
    ensures
        s@ == e.name@ + " ("@ + human_size_spec(e.size) + ")"@,
{
    let mut out = String::from_str(e.name.as_str());
    push_str(&mut out, " (");
    let size_text = human_size(e.size);
    push_str(&mut out, size_text.as_str());
    push_str(&mut out, ")");
    out
}

/// The size of the shown directory, or zero when it is not in the tree.
pub open spec fn shown_size(s: AppState) -> u64 {
    match current_entry_spec(s@) {
        Some(e) => e.size,
        None => 0,
    }
}

/// The status bar: the shown directory, its size, the number of scan errors and the key hints.
pub open spec fn status_spec(s: AppState, error_count: usize) -> Seq<char> {
    s.current_dir@ + " | "@ + human_size_spec(shown_size(s)) + " | errors: "@ + decimal(error_count as nat)
        + " | q quit | arrows/hjkl move | enter open | esc back | r refresh"@
}

/// The status bar for `state` with `error_count` scan errors.
pub fn status_line(state: &AppState, error_count: usize) -> (s: String)
    ensures
        s@ == status_spec(*state, error_count),
{
    let size = match state.current_entry() {
        Some(e) => e.size,
        None => 0,
    };
    let mut out = String::from_str(state.current_dir.as_str());
    push_str(&mut out, " | ");
    let size_text = human_size(size);
    push_str(&mut out, size_text.as_str());
    push_str(&mut out, " | errors: ");
    push_decimal(&mut out, error_count as u128);
    push_str(&mut out, " | q quit | arrows/hjkl move | enter open | esc back | r refresh");
    proof {
        assert(out@ =~= status_spec(*state, error_count));
    }
    out
}

} // verus!
