use vstd::prelude::*;
use crate::entry::{EntryKind, FsEntry};
use crate::geometry::Rect;
use crate::path::{path_matches, same_path};
use crate::treemap::{build_treemap, treemap_spec, entries_total, BlockV, blocks_view, TreemapBlock};

verus! {

/// What the heatmap reports to the interface about the pointer.
#[derive(Debug, Clone, Copy, PartialEq, Eq, Structural)]
pub enum HeatmapEvent {
    Select(usize),
    Context(usize),
    Hover(Option<usize>),
}

/// How strongly a heatmap box's border is drawn, strongest first.
#[derive(Debug, Clone, Copy, PartialEq, Eq, Structural)]
pub enum BorderEmphasis {
    Selected,
    Hovered,
    Directory,
    Plain,
}

/// The border of a box: selection wins over hovering, hovering over being a directory.
pub open spec fn border_spec(is_dir: bool, selected: bool, hovered: bool) -> BorderEmphasis {
    if selected {
        BorderEmphasis::Selected
    } else if hovered {
        BorderEmphasis::Hovered
    } else if is_dir {
        BorderEmphasis::Directory
    } else {
        BorderEmphasis::Plain
    }
}

/// The border of a box for a directory or a file, selected or hovered or neither.
pub fn border_emphasis(is_dir: bool, selected: bool, hovered: bool) -> (e: BorderEmphasis)
    ensures
        e == border_spec(is_dir, selected, hovered),
{
    if selected {
        BorderEmphasis::Selected
    } else if hovered {
        BorderEmphasis::Hovered
    } else if is_dir {
        BorderEmphasis::Directory
    } else {
        BorderEmphasis::Plain
    }
}

/// A heatmap box in whole pixels: the entry it stands for (by position), its label and size,
/// whether it is a directory, and its rectangle.
pub struct HeatmapCell {
    pub index: usize,
    pub name: String,
    pub size: u64,
    pub is_dir: bool,
    pub rect: Rect,
}

/// A heatmap box as plain values: position, name, size, directory flag, rectangle.
pub type CellV = (usize, Seq<char>, u64, bool, Rect);

impl View for HeatmapCell {
    type V = CellV;

    open spec fn view(&self) -> CellV {
        (self.index, self.name@, self.size, self.is_dir, self.rect)
    }
}

/// The first position `k >= from` of `entries` whose path is the block's path and whose name
/// is the block's name.
pub open spec fn entry_position(entries: Seq<FsEntry>, b: BlockV, from: int) -> Option<int>
    decreases entries.len() - from,
{
    if from < 0 || from >= entries.len() {
        None
    } else if path_matches(entries[from].path@, b.0) && entries[from].name@ == b.1 {
        Some(from)
    } else {
        entry_position(entries, b, from + 1)
    }
}

/// The heatmap boxes for the blocks `blocks`, in order: each block that stands for an entry of
/// `entries` becomes a box of that entry; the others (the box of the small entries) are left
/// out.
pub open spec fn cells_spec(entries: Seq<FsEntry>, blocks: Seq<BlockV>) -> Seq<CellV>
    decreases blocks.len(),
{
    if blocks.len() == 0 {
        Seq::empty()
    } else {
        let rest = cells_spec(entries, blocks.drop_last());
        let b = blocks.last();
        match entry_position(entries, b, 0) {
            Some(k) => rest.push((k as usize, b.1, b.2, entries[k].kind == EntryKind::Directory, b.3)),
            None => rest,
        }
    }
}

proof fn lemma_entry_position_bounds(entries: Seq<FsEntry>, b: BlockV, from: int)
    ensures
        entry_position(entries, b, from) matches Some(k) ==> from <= k < entries.len(),
    decreases entries.len() - from,
{
    if 0 <= from < entries.len() {
        lemma_entry_position_bounds(entries, b, from + 1);
    }
}

/// The position of the entry that `b` stands for.
fn find_position(entries: &[FsEntry], b: &TreemapBlock) -> (res: Option<usize>)
    ensures
        match res {
            Some(k) => entry_position(entries@, b@, 0) == Some(k as int),
            None => entry_position(entries@, b@, 0) is None,
        },
{
    let mut k: usize = 0;
    while k < entries.len()
        invariant
            k <= entries@.len(),
            entry_position(entries@, b@, 0) == entry_position(entries@, b@, k as int),
        decreases entries@.len() - k,
    {
        if same_path(entries[k].path.as_str(), b.path.as_str()) && entries[k].name == b.name {
            return Some(k);
        }
        k = k + 1;
    }
    None
}

/// The heatmap boxes of `entries` in a canvas of `width` by `height` pixels: the treemap laid
/// out in whole pixels, each block tied back to its entry.
pub fn heatmap_cells(width: u16, height: u16, entries: &[FsEntry]) -> (cells: Vec<HeatmapCell>)
    requires
        entries_total(entries@) <= u64::MAX,
    ensures
        Seq::new(cells@.len(), |k: int| cells@[k]@) == cells_spec(
            entries@,
            treemap_spec(Rect { x: 0, y: 0, width, height }, entries@),
        ),
{
    let area = Rect::new(0, 0, width, height);
    let blocks = build_treemap(area, entries);
    let ghost bv = blocks_view(blocks@);
    let mut cells: Vec<HeatmapCell> = Vec::new();
    let mut i: usize = 0;
    assert(bv.take(0) =~= Seq::<BlockV>::empty());
    while i < blocks.len()
        invariant
            bv == blocks_view(blocks@),
            i <= blocks@.len(),
            Seq::new(cells@.len(), |k: int| cells@[k]@) == cells_spec(entries@, bv.take(i as int)),
        decreases blocks@.len() - i,
    {
        let b = &blocks[i];
        proof {
            assert(bv.take(i + 1).drop_last() =~= bv.take(i as int));
            assert(bv.take(i + 1).last() == b@);
        }
        let ghost before = cells@;
        let found = find_position(entries, b);
        proof {
            lemma_entry_position_bounds(entries@, b@, 0);
        }
        match found {
            Some(k) => {
                let cell = HeatmapCell {
                    index: k,
                    name: b.name.clone(),
                    size: b.size,
                    is_dir: entries[k].kind == EntryKind::Directory,
                    rect: b.rect,
                };
                cells.push(cell);
                assert(Seq::new(cells@.len(), |j: int| cells@[j]@) =~= Seq::new(before.len(), |j: int| before[j]@).push(cell@));
            },
            None => {},
        }
        i = i + 1;
    }
    assert(bv.take(bv.len() as int) =~= bv);
    cells
}

} // verus!
