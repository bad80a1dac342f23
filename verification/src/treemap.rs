use vstd::prelude::*;
use crate::entry::FsEntry;
use crate::text::{decimal, push_decimal, push_str, chars_of};
use crate::order::{
    stable_order, listing_order, key_view, index_range, is_sorted_perm, lemma_stable_order_sorted, ranks_before,
};
use crate::geometry::{clamped, Rect, rect_valid, rect_area, within_spec, overlap_spec, clip_spec, clip_rect, lemma_clip_inside};

verus! {

/// An entry as the treemap lays it out: where it lives, its label and its size.
pub struct TreemapItem {
    pub path: String,
    pub name: String,
    pub size: u64,
}

/// One laid-out rectangle of the treemap and the entry that it stands for.
pub struct TreemapBlock {
    pub path: String,
    pub name: String,
    pub size: u64,
    pub rect: Rect,
}

/// An item as plain values: path, name, size.
pub type ItemV = (Seq<char>, Seq<char>, u64);

/// A block as plain values: path, name, size, rectangle.
pub type BlockV = (Seq<char>, Seq<char>, u64, Rect);

impl View for TreemapItem {
    type V = ItemV;

    open spec fn view(&self) -> ItemV {
        (self.path@, self.name@, self.size)
    }
}

impl View for TreemapBlock {
    type V = BlockV;

    open spec fn view(&self) -> BlockV {
        (self.path@, self.name@, self.size, self.rect)
    }
}

/// The views of a sequence of items.
pub open spec fn items_view(s: Seq<TreemapItem>) -> Seq<ItemV> {
    Seq::new(s.len(), |k: int| s[k]@)
}

/// The views of a sequence of blocks.
pub open spec fn blocks_view(s: Seq<TreemapBlock>) -> Seq<BlockV> {
    Seq::new(s.len(), |k: int| s[k]@)
}

/// The block that gives item `it` the rectangle `r`.
pub open spec fn block_of(it: ItemV, r: Rect) -> BlockV {
    (it.0, it.1, it.2, r)
}

/// The total size of the items at positions `lo..hi`.
pub open spec fn sizes_sum(s: Seq<ItemV>, lo: int, hi: int) -> int
    decreases hi - lo,
{
    if hi <= lo {
        0
    } else {
        sizes_sum(s, lo, hi - 1) + s[hi - 1].2
    }
}

/// The smallest count `m >= start` of leading items of `lo..hi` whose sizes reach `target`, or
/// the number of items when none does.
pub open spec fn reach_count(s: Seq<ItemV>, lo: int, hi: int, target: int, start: int) -> int
    decreases hi - lo - start,
{
    if start >= hi - lo {
        hi - lo
    } else if sizes_sum(s, lo, lo + start) >= target {
        start
    } else {
        reach_count(s, lo, hi, target, start + 1)
    }
}

/// How many leading items of `lo..hi` go to the first half of a split: the fewest whose sizes
/// reach half the total, at least one and leaving at least one.
pub open spec fn split_count(s: Seq<ItemV>, lo: int, hi: int) -> int {
    let n = hi - lo;
    let m = reach_count(s, lo, hi, sizes_sum(s, lo, hi) / 2, 1);
    if m < n - 1 { m } else { n - 1 }
}

/// The cells given to the first half of a split: its share of `span`, rounded to the nearest
/// cell (halves up), kept between `1` and `span - 1`.
pub open spec fn first_span_cells(left: int, span: int, total: int) -> int {
    let v = (2 * left * span + total) / (2 * total);
    if v < 1 { 1 } else if v > span - 1 { span - 1 } else { v }
}

/// `area` cut in two at `first` cells from its left edge (`horizontal`) or top edge.
pub open spec fn halves(area: Rect, horizontal: bool, first: int) -> (Rect, Rect) {
    if horizontal {
        (
            Rect { x: area.x, y: area.y, width: first as u16, height: area.height },
            Rect { x: (area.x + first) as u16, y: area.y, width: (area.width - first) as u16, height: area.height },
        )
    } else {
        (
            Rect { x: area.x, y: area.y, width: area.width, height: first as u16 },
            Rect { x: area.x, y: (area.y + first) as u16, width: area.width, height: (area.height - first) as u16 },
        )
    }
}

pub proof fn lemma_reach_count_bounds(s: Seq<ItemV>, lo: int, hi: int, target: int, start: int)
    requires
        1 <= start,
    ensures
        start <= hi - lo ==> start <= reach_count(s, lo, hi, target, start) <= hi - lo,
    decreases hi - lo - start,
{
    if start < hi - lo && sizes_sum(s, lo, lo + start) < target {
        lemma_reach_count_bounds(s, lo, hi, target, start + 1);
    }
}

/// The slice-and-dice layout of the items at positions `lo..hi` in `area`, split across its
/// width at even depths and across its height at odd depths.
pub open spec fn split_spec(area: Rect, s: Seq<ItemV>, lo: int, hi: int, depth: int) -> Seq<BlockV>
    decreases hi - lo,
{
    if hi - lo <= 0 || area.width == 0 || area.height == 0 {
        Seq::empty()
    } else if hi - lo == 1 {
        seq![block_of(s[lo], area)]
    } else {
        let total = sizes_sum(s, lo, hi);
        let horizontal = depth % 2 == 0;
        let span: int = if horizontal { area.width as int } else { area.height as int };
        if total == 0 {
            Seq::empty()
        } else if span <= 1 {
            seq![block_of(s[lo], area)]
        } else {
            let k = split_count(s, lo, hi);
            proof {
                lemma_reach_count_bounds(s, lo, hi, sizes_sum(s, lo, hi) / 2, 1);
            }
            let first = first_span_cells(sizes_sum(s, lo, lo + k), span, total);
            let parts = halves(area, horizontal, first);
            split_spec(parts.0, s, lo, lo + k, depth + 1) + split_spec(parts.1, s, lo + k, hi, depth + 1)
        }
    }
}

/// The total number of cells covered by the rectangles of `blocks`.
pub open spec fn area_sum(blocks: Seq<BlockV>) -> int
    decreases blocks.len(),
{
    if blocks.len() == 0 {
        0
    } else {
        area_sum(blocks.drop_last()) + rect_area(blocks.last().3)
    }
}

pub proof fn lemma_area_sum_concat(a: Seq<BlockV>, b: Seq<BlockV>)
    ensures
        area_sum(a + b) == area_sum(a) + area_sum(b),
    decreases b.len(),
{
    if b.len() == 0 {
        assert(a + b =~= a);
    } else {
        lemma_area_sum_concat(a, b.drop_last());
        assert((a + b).drop_last() =~= a + b.drop_last());
    }
}

/// Every rectangle of `blocks` is a valid, non-empty rectangle inside `bounds`.
pub open spec fn all_inside(blocks: Seq<BlockV>, bounds: Rect) -> bool {
    forall|i: int|
        0 <= i < blocks.len() ==> {
            &&& within_spec(#[trigger] blocks[i].3, bounds)
            &&& rect_valid(blocks[i].3)
            &&& blocks[i].3.width > 0
            &&& blocks[i].3.height > 0
        }
}

/// No two rectangles of `blocks` share a cell.
pub open spec fn pairwise_disjoint(blocks: Seq<BlockV>) -> bool {
    forall|i: int, j: int|
        0 <= i < j < blocks.len() ==> !overlap_spec(#[trigger] blocks[i].3, #[trigger] blocks[j].3)
}

proof fn lemma_halves(area: Rect, horizontal: bool, first: int)
    requires
        rect_valid(area),
        area.width > 0,
        area.height > 0,
        horizontal ==> 1 <= first < area.width,
        !horizontal ==> 1 <= first < area.height,
    ensures
        rect_valid(halves(area, horizontal, first).0),
        rect_valid(halves(area, horizontal, first).1),
        within_spec(halves(area, horizontal, first).0, area),
        within_spec(halves(area, horizontal, first).1, area),
        halves(area, horizontal, first).0.width > 0,
        halves(area, horizontal, first).0.height > 0,
        halves(area, horizontal, first).1.width > 0,
        halves(area, horizontal, first).1.height > 0,
        rect_area(halves(area, horizontal, first).0) + rect_area(halves(area, horizontal, first).1)
            == rect_area(area),
        forall|r: Rect, q: Rect|
            within_spec(r, halves(area, horizontal, first).0) && within_spec(q, halves(area, horizontal, first).1)
                && rect_valid(r) && rect_valid(q) ==> !overlap_spec(r, q),
{
    let (a, b) = halves(area, horizontal, first);
    let w = area.width as int;
    let h = area.height as int;
    if horizontal {
        assert(a.width == first && b.x == area.x + first && b.width == w - first);
        assert(first * h + (w - first) * h == w * h) by (nonlinear_arith);
    } else {
        assert(a.height == first && b.y == area.y + first && b.height == h - first);
        assert(w * first + w * (h - first) == w * h) by (nonlinear_arith);
    }
    assert forall|r: Rect, q: Rect|
        within_spec(r, a) && within_spec(q, b) && rect_valid(r) && rect_valid(q) implies !overlap_spec(r, q) by {
        if horizontal {
            assert(r.x + r.width <= b.x);
            assert(q.x >= b.x);
        } else {
            assert(r.y + r.height <= b.y);
            assert(q.y >= b.y);
        }
    }
}

/// The layout of `split_spec` keeps every rectangle inside `area`, non-empty and valid, lets
/// no two rectangles share a cell, and covers at most the cells of `area`.
pub proof fn lemma_split_geometry(area: Rect, s: Seq<ItemV>, lo: int, hi: int, depth: int)
    requires
        rect_valid(area),
    ensures
        all_inside(split_spec(area, s, lo, hi, depth), area),
        pairwise_disjoint(split_spec(area, s, lo, hi, depth)),
        area_sum(split_spec(area, s, lo, hi, depth)) <= rect_area(area),
    decreases hi - lo,
{
    let out = split_spec(area, s, lo, hi, depth);
    if hi - lo <= 0 || area.width == 0 || area.height == 0 {
    } else if hi - lo == 1 {
        assert(area_sum(out) == rect_area(area)) by {
            assert(out.drop_last() =~= Seq::<BlockV>::empty());
            assert(area_sum(Seq::<BlockV>::empty()) == 0);
            assert(out.last() == block_of(s[lo], area));
        }
    } else {
        let total = sizes_sum(s, lo, hi);
        let horizontal = depth % 2 == 0;
        let span: int = if horizontal { area.width as int } else { area.height as int };
        if total == 0 {
        } else if span <= 1 {
            assert(area_sum(out) == rect_area(area)) by {
                assert(out.drop_last() =~= Seq::<BlockV>::empty());
            assert(area_sum(Seq::<BlockV>::empty()) == 0);
            assert(out.last() == block_of(s[lo], area));
            }
        } else {
            let k = split_count(s, lo, hi);
            lemma_reach_count_bounds(s, lo, hi, sizes_sum(s, lo, hi) / 2, 1);
            let first = first_span_cells(sizes_sum(s, lo, lo + k), span, total);
            let parts = halves(area, horizontal, first);
            lemma_halves(area, horizontal, first);
            let l = split_spec(parts.0, s, lo, lo + k, depth + 1);
            let r = split_spec(parts.1, s, lo + k, hi, depth + 1);
            lemma_split_geometry(parts.0, s, lo, lo + k, depth + 1);
            lemma_split_geometry(parts.1, s, lo + k, hi, depth + 1);
            assert(out == l + r);
            lemma_area_sum_concat(l, r);
            assert forall|i: int| 0 <= i < out.len() implies {
                &&& within_spec(#[trigger] out[i].3, area)
                &&& rect_valid(out[i].3)
                &&& out[i].3.width > 0
                &&& out[i].3.height > 0
            } by {
                if i < l.len() {
                    assert(out[i] == l[i]);
                } else {
                    assert(out[i] == r[i - l.len()]);
                }
            }
            assert forall|i: int, j: int| 0 <= i < j < out.len() implies !overlap_spec(
                #[trigger] out[i].3,
                #[trigger] out[j].3,
            ) by {
                if j < l.len() {
                    assert(out[i] == l[i] && out[j] == l[j]);
                } else if i >= l.len() {
                    assert(out[i] == r[i - l.len()] && out[j] == r[j - l.len()]);
                } else {
                    assert(out[i] == l[i] && out[j] == r[j - l.len()]);
                    assert(within_spec(l[i].3, parts.0));
                    assert(within_spec(r[j - l.len()].3, parts.1));
                }
            }
        }
    }
}

/// Every step of the layout of `split_spec` that splits two or more items has room to do so:
/// its rectangle is not empty, their sizes are not all zero, and it is at least two cells long
/// in the direction of the split.
pub open spec fn split_has_room(area: Rect, s: Seq<ItemV>, lo: int, hi: int, depth: int) -> bool
    decreases hi - lo,
{
    if hi - lo <= 0 {
        true
    } else if area.width == 0 || area.height == 0 {
        false
    } else if hi - lo == 1 {
        true
    } else {
        let total = sizes_sum(s, lo, hi);
        let horizontal = depth % 2 == 0;
        let span: int = if horizontal { area.width as int } else { area.height as int };
        if total == 0 || span <= 1 {
            false
        } else {
            let k = split_count(s, lo, hi);
            proof {
                lemma_reach_count_bounds(s, lo, hi, sizes_sum(s, lo, hi) / 2, 1);
            }
            let first = first_span_cells(sizes_sum(s, lo, lo + k), span, total);
            let parts = halves(area, horizontal, first);
            split_has_room(parts.0, s, lo, lo + k, depth + 1) && split_has_room(parts.1, s, lo + k, hi, depth + 1)
        }
    }
}

/// The items that the blocks stand for: path, name and size of each.
pub open spec fn block_items(blocks: Seq<BlockV>) -> Seq<ItemV> {
    Seq::new(blocks.len(), |k: int| (blocks[k].0, blocks[k].1, blocks[k].2))
}

/// The layout of `split_spec` has at most one block per item; it has exactly one exactly when
/// every split has room, and then the blocks stand for the items in their order.
pub proof fn lemma_split_items(area: Rect, s: Seq<ItemV>, lo: int, hi: int, depth: int)
    requires
        0 <= lo <= hi <= s.len(),
    ensures
        split_spec(area, s, lo, hi, depth).len() <= hi - lo,
        split_has_room(area, s, lo, hi, depth) <==> split_spec(area, s, lo, hi, depth).len() == hi - lo,
        split_has_room(area, s, lo, hi, depth) ==> block_items(split_spec(area, s, lo, hi, depth))
            == s.subrange(lo, hi),
    decreases hi - lo,
{
    let out = split_spec(area, s, lo, hi, depth);
    if hi - lo <= 0 {
        assert(block_items(out) =~= s.subrange(lo, hi));
    } else if area.width == 0 || area.height == 0 {
    } else if hi - lo == 1 {
        assert(block_items(out) =~= s.subrange(lo, hi));
    } else {
        let total = sizes_sum(s, lo, hi);
        let horizontal = depth % 2 == 0;
        let span: int = if horizontal { area.width as int } else { area.height as int };
        if total == 0 || span <= 1 {
        } else {
            let k = split_count(s, lo, hi);
            lemma_reach_count_bounds(s, lo, hi, sizes_sum(s, lo, hi) / 2, 1);
            let first = first_span_cells(sizes_sum(s, lo, lo + k), span, total);
            let parts = halves(area, horizontal, first);
            let l = split_spec(parts.0, s, lo, lo + k, depth + 1);
            let r = split_spec(parts.1, s, lo + k, hi, depth + 1);
            lemma_split_items(parts.0, s, lo, lo + k, depth + 1);
            lemma_split_items(parts.1, s, lo + k, hi, depth + 1);
            assert(out == l + r);
            if split_has_room(area, s, lo, hi, depth) {
                assert(block_items(out) =~= s.subrange(lo, hi)) by {
                    assert forall|i: int| 0 <= i < out.len() implies #[trigger] block_items(out)[i] == s.subrange(
                        lo,
                        hi,
                    )[i] by {
                        if i < l.len() {
                            assert(out[i] == l[i]);
                            assert(block_items(l)[i] == s.subrange(lo, lo + k)[i]);
                        } else {
                            assert(out[i] == r[i - l.len()]);
                            assert(block_items(r)[i - l.len()] == s.subrange(lo + k, hi)[i - l.len()]);
                        }
                    }
                }
            }
        }
    }
}

/// The layout of at least one item, all of them non-empty, in a non-empty `area` covers every
/// cell of `area`: a split without room gives the first item the whole area.
pub proof fn lemma_split_fills(area: Rect, s: Seq<ItemV>, lo: int, hi: int, depth: int)
    requires
        rect_valid(area),
        area.width > 0,
        area.height > 0,
        0 <= lo < hi <= s.len(),
        forall|k: int| lo <= k < hi ==> #[trigger] s[k].2 > 0,
    ensures
        area_sum(split_spec(area, s, lo, hi, depth)) == rect_area(area),
    decreases hi - lo,
{
    let out = split_spec(area, s, lo, hi, depth);
    let total = sizes_sum(s, lo, hi);
    let horizontal = depth % 2 == 0;
    let span: int = if horizontal { area.width as int } else { area.height as int };
    lemma_sizes_sum_split(s, lo, lo + 1, hi);
    assert(sizes_sum(s, lo, lo) == 0);
    assert(sizes_sum(s, lo, lo + 1) == s[lo].2);
    if hi - lo == 1 || span <= 1 {
        assert(out.drop_last() =~= Seq::<BlockV>::empty());
        assert(area_sum(Seq::<BlockV>::empty()) == 0);
        assert(out.last() == block_of(s[lo], area));
    } else {
        let k = split_count(s, lo, hi);
        lemma_reach_count_bounds(s, lo, hi, sizes_sum(s, lo, hi) / 2, 1);
        let first = first_span_cells(sizes_sum(s, lo, lo + k), span, total);
        let parts = halves(area, horizontal, first);
        lemma_halves(area, horizontal, first);
        let l = split_spec(parts.0, s, lo, lo + k, depth + 1);
        let r = split_spec(parts.1, s, lo + k, hi, depth + 1);
        lemma_split_fills(parts.0, s, lo, lo + k, depth + 1);
        lemma_split_fills(parts.1, s, lo + k, hi, depth + 1);
        assert(out == l + r);
        lemma_area_sum_concat(l, r);
    }
}

pub proof fn lemma_sizes_sum_split(s: Seq<ItemV>, lo: int, mid: int, hi: int)
    requires
        lo <= mid <= hi,
    ensures
        sizes_sum(s, lo, hi) == sizes_sum(s, lo, mid) + sizes_sum(s, mid, hi),
        sizes_sum(s, lo, mid) <= sizes_sum(s, lo, hi),
        sizes_sum(s, mid, hi) >= 0,
    decreases hi - mid,
{
    if hi > mid {
        lemma_sizes_sum_split(s, lo, mid, hi - 1);
    }
    lemma_sizes_sum_nonneg(s, mid, hi);
}

pub proof fn lemma_sizes_sum_nonneg(s: Seq<ItemV>, lo: int, hi: int)
    ensures
        sizes_sum(s, lo, hi) >= 0,
    decreases hi - lo,
{
    if hi > lo {
        lemma_sizes_sum_nonneg(s, lo, hi - 1);
    }
}

/// The total size of the items at positions `lo..hi`.
fn range_total(items: &Vec<TreemapItem>, lo: usize, hi: usize) -> (total: u64)
    requires
        lo <= hi <= items@.len(),
        sizes_sum(items_view(items@), lo as int, hi as int) <= u64::MAX,
    ensures
        total == sizes_sum(items_view(items@), lo as int, hi as int),
{
    let ghost s = items_view(items@);
    let mut total: u64 = 0;
    let mut i: usize = lo;
    while i < hi
        invariant
            lo <= i <= hi <= items@.len(),
            s == items_view(items@),
            sizes_sum(s, lo as int, hi as int) <= u64::MAX,
            total == sizes_sum(s, lo as int, i as int),
        decreases hi - i,
    {
        proof {
            lemma_sizes_sum_split(s, lo as int, i + 1, hi as int);
        }
        total = total + items[i].size;
        i = i + 1;
    }
    total
}

/// How many leading items of `lo..hi` go to the first half of a split.
fn choose_split_index(items: &Vec<TreemapItem>, lo: usize, hi: usize) -> (k: usize)
    requires
        lo + 2 <= hi <= items@.len(),
        sizes_sum(items_view(items@), lo as int, hi as int) <= u64::MAX,
    ensures
        k == split_count(items_view(items@), lo as int, hi as int),
{
    let ghost s = items_view(items@);
    let n = hi - lo;
    let total = range_total(items, lo, hi);
    let target = total / 2;
    let mut running: u64 = 0;
    let mut idx: usize = 0;
    while idx < n
        invariant
            n == hi - lo,
            lo + 2 <= hi <= items@.len(),
            s == items_view(items@),
            total == sizes_sum(s, lo as int, hi as int),
            target == total / 2,
            idx <= n,
            running == sizes_sum(s, lo as int, lo + idx),
            reach_count(s, lo as int, hi as int, target as int, 1) == reach_count(
                s,
                lo as int,
                hi as int,
                target as int,
                idx + 1,
            ),
            idx > 0 ==> sizes_sum(s, lo as int, lo + idx) < target,
        decreases n - idx,
    {
        proof {
            lemma_sizes_sum_split(s, lo as int, lo + idx + 1, hi as int);
        }
        running = running.saturating_add(items[lo + idx].size);
        if running >= target {
            let m = idx + 1;
            let k = if m < 1 { 1 } else if m > n - 1 { n - 1 } else { m };
            return k;
        }
        idx = idx + 1;
    }
    n - 1
}

/// The block that gives `item` the rectangle `rect`.
fn make_block(item: &TreemapItem, rect: Rect) -> (b: TreemapBlock)
    ensures
        b@ == block_of(item@, rect),
{
    TreemapBlock { path: item.path.clone(), name: item.name.clone(), size: item.size, rect }
}

/// Lays out the items at positions `lo..hi` of `items` (in listing order) in `area`.
fn split_recursive(area: Rect, items: &Vec<TreemapItem>, lo: usize, hi: usize, depth: usize) -> (out: Vec<TreemapBlock>)
    requires
        rect_valid(area),
        lo <= hi <= items@.len(),
        sizes_sum(items_view(items@), lo as int, hi as int) <= u64::MAX,
        depth + (hi - lo) <= usize::MAX,
    ensures
        blocks_view(out@) == split_spec(area, items_view(items@), lo as int, hi as int, depth as int),
    decreases hi - lo,
{
    let ghost s = items_view(items@);
    if hi - lo == 0 || area.width == 0 || area.height == 0 {
        let out: Vec<TreemapBlock> = Vec::new();
        assert(blocks_view(out@) =~= Seq::<BlockV>::empty());
        return out;
    }
    if hi - lo == 1 {
        let mut out: Vec<TreemapBlock> = Vec::new();
        out.push(make_block(&items[lo], area));
        assert(blocks_view(out@) =~= seq![block_of(s[lo as int], area)]);
        return out;
    }
    let total = range_total(items, lo, hi);
    if total == 0 {
        let out: Vec<TreemapBlock> = Vec::new();
        assert(blocks_view(out@) =~= Seq::<BlockV>::empty());
        return out;
    }
    let split_horizontal = depth % 2 == 0;
    let span = if split_horizontal { area.width } else { area.height };
    if span <= 1 {
        let mut out: Vec<TreemapBlock> = Vec::new();
        out.push(make_block(&items[lo], area));
        assert(blocks_view(out@) =~= seq![block_of(s[lo as int], area)]);
        return out;
    }
    let k = choose_split_index(items, lo, hi);
    proof {
        lemma_reach_count_bounds(s, lo as int, hi as int, sizes_sum(s, lo as int, hi as int) / 2, 1);
        lemma_sizes_sum_split(s, lo as int, lo + k, hi as int);
    }
    let left_total = range_total(items, lo, lo + k);
    proof {
        let l = left_total as int;
        let t = total as int;
        let sp = span as int;
        assert(2 * l * sp + t < 2 * t * (sp + 1)) by (nonlinear_arith)
            requires
                0 <= l <= t,
                t > 0,
                sp >= 0,
        ;
        assert((2 * l * sp + t) / (2 * t) <= sp) by (nonlinear_arith)
            requires
                0 <= 2 * l * sp + t < 2 * t * (sp + 1),
                t > 0,
                sp >= 0,
        ;
        assert(2 * l * sp + t <= 2 * 0xffff_ffff_ffff_ffff * 0xffff + 0xffff_ffff_ffff_ffff) by (nonlinear_arith)
            requires
                0 <= l <= 0xffff_ffff_ffff_ffff,
                0 <= t <= 0xffff_ffff_ffff_ffff,
                0 <= sp <= 0xffff,
        ;
        assert((2 * l * sp + t) / (2 * t) >= 0) by (nonlinear_arith)
            requires
                0 <= l,
                t > 0,
                sp >= 0,
        ;
    }
    let numerator: u128 = 2 * (left_total as u128) * (span as u128) + total as u128;
    let mut first_span = (numerator / (2 * total as u128)) as u16;
    first_span = if first_span < 1 { 1 } else if first_span > span - 1 { span - 1 } else { first_span };
    let (a, b) = if split_horizontal {
        (
            Rect { x: area.x, y: area.y, width: first_span, height: area.height },
            Rect { x: area.x + first_span, y: area.y, width: area.width - first_span, height: area.height },
        )
    } else {
        (
            Rect { x: area.x, y: area.y, width: area.width, height: first_span },
            Rect { x: area.x, y: area.y + first_span, width: area.width, height: area.height - first_span },
        )
    };
    proof {
        let first = first_span_cells(sizes_sum(s, lo as int, lo + k), span as int, total as int);
        assert(first == first_span);
        assert((a, b) == halves(area, split_horizontal, first));
        lemma_halves(area, split_horizontal, first);
    }
    let mut out = split_recursive(a, items, lo, lo + k, depth + 1);
    let mut right = split_recursive(b, items, lo + k, hi, depth + 1);
    let ghost l = out@;
    let ghost r = right@;
    out.append(&mut right);
    assert(blocks_view(out@) =~= blocks_view(l) + blocks_view(r));
    out
}

/// The total size of `entries`, or nothing when it does not fit in a `u64`.
pub fn total_size(entries: &[FsEntry]) -> (t: Option<u64>)
    ensures
        t == (if entries_total(entries@) <= u64::MAX { Some(entries_total(entries@) as u64) } else { None::<u64> }),
{
    let ghost s = entries@;
    let mut total: u64 = 0;
    let mut i: usize = 0;
    while i < entries.len()
        invariant
            s == entries@,
            i <= s.len(),
            total == entries_total(s.take(i as int)),
        decreases s.len() - i,
    {
        proof {
            assert(s.take(i + 1).drop_last() =~= s.take(i as int));
            lemma_entries_total_prefix(s, i + 1);
            lemma_entries_total_nonneg(s.take(i + 1));
        }
        if total > u64::MAX - entries[i].size {
            return None;
        }
        total = total + entries[i].size;
        i = i + 1;
    }
    assert(s.take(s.len() as int) =~= s);
    Some(total)
}

/// The total size of `s`.
pub open spec fn entries_total(s: Seq<FsEntry>) -> int
    decreases s.len(),
{
    if s.len() == 0 {
        0
    } else {
        entries_total(s.drop_last()) + s.last().size
    }
}

/// Whether an entry of `size` is too small to draw on its own: it is not empty, and its share
/// of the `cells` of the panel, `size * cells / total`, is less than one cell.
pub open spec fn is_small(size: u64, cells: int, total: int) -> bool {
    size > 0 && size * cells < total
}

/// The entry as an item: its path, name and size.
pub open spec fn item_of(e: FsEntry) -> ItemV {
    (e.path@, e.name@, e.size)
}

/// The items of the entries of `s` that are not small, in their order.
pub open spec fn kept_items(s: Seq<FsEntry>, cells: int, total: int) -> Seq<ItemV>
    decreases s.len(),
{
    if s.len() == 0 {
        Seq::empty()
    } else if is_small(s.last().size, cells, total) {
        kept_items(s.drop_last(), cells, total)
    } else {
        kept_items(s.drop_last(), cells, total).push(item_of(s.last()))
    }
}

/// How many entries of `s` are small.
pub open spec fn small_count(s: Seq<FsEntry>, cells: int, total: int) -> nat
    decreases s.len(),
{
    if s.len() == 0 {
        0
    } else if is_small(s.last().size, cells, total) {
        small_count(s.drop_last(), cells, total) + 1
    } else {
        small_count(s.drop_last(), cells, total)
    }
}

/// The total size of the small entries of `s`.
pub open spec fn small_total(s: Seq<FsEntry>, cells: int, total: int) -> int
    decreases s.len(),
{
    if s.len() == 0 {
        0
    } else if is_small(s.last().size, cells, total) {
        small_total(s.drop_last(), cells, total) + s.last().size
    } else {
        small_total(s.drop_last(), cells, total)
    }
}

/// The label of the block that stands for `count` small entries.
pub open spec fn aggregate_label(count: nat) -> Seq<char> {
    "Small entries ("@ + decimal(count) + ")"@
}

/// The items that the treemap of `area` lays out for `entries`: every entry that is not small,
/// in order, then, where some are small, one item with an empty path that stands for all of
/// them, labelled with their number and sized with their total.
pub open spec fn aggregate_spec(area: Rect, entries: Seq<FsEntry>) -> Seq<ItemV> {
    let cells = area.width * area.height;
    let total = entries_total(entries);
    let kept = kept_items(entries, cells, total);
    let count = small_count(entries, cells, total);
    if count > 0 {
        kept.push((Seq::empty(), aggregate_label(count), small_total(entries, cells, total) as u64))
    } else {
        kept
    }
}

/// The total size of the items of `s`.
pub open spec fn items_total(s: Seq<ItemV>) -> int {
    sizes_sum(s, 0, s.len() as int)
}

/// The total size of entries is never negative.
pub proof fn lemma_entries_total_nonneg(s: Seq<FsEntry>)
    ensures
        entries_total(s) >= 0,
    decreases s.len(),
{
    if s.len() > 0 {
        lemma_entries_total_nonneg(s.drop_last());
    }
}

proof fn lemma_aggregate_parts(s: Seq<FsEntry>, cells: int, total: int)
    ensures
        items_total(kept_items(s, cells, total)) + small_total(s, cells, total) == entries_total(s),
        small_total(s, cells, total) >= 0,
        kept_items(s, cells, total).len() + small_count(s, cells, total) == s.len(),
        small_count(s, cells, total) == 0 ==> small_total(s, cells, total) == 0,
    decreases s.len(),
{
    if s.len() > 0 {
        lemma_aggregate_parts(s.drop_last(), cells, total);
        let k0 = kept_items(s.drop_last(), cells, total);
        if !is_small(s.last().size, cells, total) {
            let k1 = k0.push(item_of(s.last()));
            assert(sizes_sum(k1, 0, k1.len() - 1) == sizes_sum(k0, 0, k0.len() as int)) by {
                lemma_sizes_sum_prefix(k0, k1, k0.len() as int);
            }
        }
    }
}

/// The sums over positions `lo..hi` agree for sequences that agree on `0..hi`.
pub proof fn lemma_sizes_sum_prefix(a: Seq<ItemV>, b: Seq<ItemV>, hi: int)
    requires
        hi <= a.len(),
        hi <= b.len(),
        forall|k: int| 0 <= k < hi ==> a[k].2 == b[k].2,
    ensures
        sizes_sum(a, 0, hi) == sizes_sum(b, 0, hi),
    decreases hi,
{
    if hi > 0 {
        lemma_sizes_sum_prefix(a, b, hi - 1);
    }
}

/// Aggregation keeps the total size: the items hold exactly the total size of the entries.
pub proof fn law_aggregate_keeps_total(area: Rect, entries: Seq<FsEntry>)
    requires
        entries_total(entries) <= u64::MAX,
    ensures
        items_total(aggregate_spec(area, entries)) == entries_total(entries),
{
    let cells = area.width * area.height;
    let total = entries_total(entries);
    lemma_aggregate_parts(entries, cells, total);
    let kept = kept_items(entries, cells, total);
    let count = small_count(entries, cells, total);
    if count > 0 {
        let item = (Seq::<char>::empty(), aggregate_label(count), small_total(entries, cells, total) as u64);
        let all = kept.push(item);
        lemma_sizes_sum_prefix(kept, all, kept.len() as int);
        lemma_entries_total_nonneg(entries);
        lemma_sizes_sum_nonneg(kept, 0, kept.len() as int);
        assert(all[kept.len() as int] == item);
        assert(items_total(all) == sizes_sum(all, 0, kept.len() as int) + item.2);
        assert(aggregate_spec(area, entries) == all);
    }
}

proof fn lemma_items_view_push(s: Seq<TreemapItem>, x: TreemapItem)
    ensures
        items_view(s.push(x)) == items_view(s).push(x@),
{
    assert(items_view(s.push(x)) =~= items_view(s).push(x@));
}

proof fn lemma_blocks_view_push(s: Seq<TreemapBlock>, x: TreemapBlock)
    ensures
        blocks_view(s.push(x)) == blocks_view(s).push(x@),
{
    assert(blocks_view(s.push(x)) =~= blocks_view(s).push(x@));
}

/// Where no entry is small, the items are the entries themselves, in order, and no item
/// stands for small entries.
pub proof fn law_no_small_no_aggregate(area: Rect, entries: Seq<FsEntry>)
    requires
        forall|k: int|
            0 <= k < entries.len() ==> !is_small(
                #[trigger] entries[k].size,
                area.width * area.height,
                entries_total(entries),
            ),
    ensures
        aggregate_spec(area, entries) == Seq::new(entries.len(), |k: int| item_of(entries[k])),
{
    let cells = area.width * area.height;
    let total = entries_total(entries);
    lemma_kept_all(entries, cells, total);
}

proof fn lemma_kept_all(s: Seq<FsEntry>, cells: int, total: int)
    requires
        forall|k: int| 0 <= k < s.len() ==> !is_small(#[trigger] s[k].size, cells, total),
    ensures
        kept_items(s, cells, total) == Seq::new(s.len(), |k: int| item_of(s[k])),
        small_count(s, cells, total) == 0,
    decreases s.len(),
{
    if s.len() > 0 {
        let d = s.drop_last();
        assert forall|k: int| 0 <= k < d.len() implies !is_small(#[trigger] d[k].size, cells, total) by {
            assert(d[k] == s[k]);
        }
        lemma_kept_all(d, cells, total);
        assert(!is_small(s[s.len() - 1].size, cells, total));
        assert(kept_items(s, cells, total) =~= Seq::new(s.len(), |k: int| item_of(s[k])));
    } else {
        assert(kept_items(s, cells, total) =~= Seq::new(s.len(), |k: int| item_of(s[k])));
    }
}

/// The item for `e`.
fn item_from_entry(e: &FsEntry) -> (it: TreemapItem)
    ensures
        it@ == item_of(*e),
{
    TreemapItem { path: e.path.clone(), name: e.name.clone(), size: e.size }
}

/// A copy of `it`.
fn copy_item(it: &TreemapItem) -> (c: TreemapItem)
    ensures
        c@ == it@,
{
    TreemapItem { path: it.path.clone(), name: it.name.clone(), size: it.size }
}

/// The items that the treemap of `area` lays out for `entries`: the entries that are not too
/// small to draw, then one item that stands for all the small ones.
pub fn aggregate_small_entries(area: Rect, entries: &[FsEntry]) -> (items: Vec<TreemapItem>)
    requires
        entries_total(entries@) <= u64::MAX,
    ensures
        items_view(items@) == aggregate_spec(area, entries@),
{
    let ghost s = entries@;
    let mut total: u64 = 0;
    let mut i: usize = 0;
    while i < entries.len()
        invariant
            s == entries@,
            entries_total(s) <= u64::MAX,
            i <= s.len(),
            total == entries_total(s.take(i as int)),
        decreases s.len() - i,
    {
        proof {
            assert(s.take(i + 1).drop_last() =~= s.take(i as int));
            lemma_entries_total_prefix(s, i + 1);
        }
        total = total + entries[i].size;
        i = i + 1;
    }
    assert(s.take(s.len() as int) =~= s);
    let ghost c = area.width * area.height;
    assert(0 <= c <= 0xffff * 0xffff) by (nonlinear_arith)
        requires
            c == area.width * area.height,
            0 <= area.width <= 0xffff,
            0 <= area.height <= 0xffff,
    ;
    let cells: u128 = area.width as u128 * area.height as u128;
    let mut kept: Vec<TreemapItem> = Vec::new();
    let mut count: usize = 0;
    let mut small_sum: u64 = 0;
    let mut j: usize = 0;
    while j < entries.len()
        invariant
            s == entries@,
            entries_total(s) <= u64::MAX,
            total == entries_total(s),
            cells == c,
            0 <= c <= 0xffff * 0xffff,
            j <= s.len(),
            items_view(kept@) == kept_items(s.take(j as int), c, total as int),
            count == small_count(s.take(j as int), c, total as int),
            small_sum == small_total(s.take(j as int), c, total as int),
        decreases s.len() - j,
    {
        let e = &entries[j];
        let ghost t = s.take(j + 1);
        proof {
            assert(t.drop_last() =~= s.take(j as int));
            assert(t.last() == *e);
            lemma_aggregate_parts(s.take(j + 1), c, total as int);
            lemma_aggregate_parts(s, c, total as int);
            lemma_small_total_prefix(s, j + 1, c, total as int);
            lemma_sizes_sum_nonneg(kept_items(s, c, total as int), 0, kept_items(s, c, total as int).len() as int);
            assert(e.size * c <= 0xffff_ffff_ffff_ffff * (0xffff * 0xffff)) by (nonlinear_arith)
                requires
                    0 <= e.size <= 0xffff_ffff_ffff_ffff,
                    0 <= c <= 0xffff * 0xffff,
            ;
        }
        if e.size > 0 && (e.size as u128) * cells < total as u128 {
            count = count + 1;
            small_sum = small_sum + e.size;
        } else {
            let ghost before = kept@;
            kept.push(item_from_entry(e));
            assert(items_view(kept@) =~= items_view(before).push(item_of(*e)));
        }
        j = j + 1;
    }
    assert(s.take(s.len() as int) =~= s);
    if count > 0 {
        let mut label = String::new();
        push_str(&mut label, "Small entries (");
        push_decimal(&mut label, count as u128);
        push_str(&mut label, ")");
        let ghost before = kept@;
        kept.push(TreemapItem { path: String::new(), name: label, size: small_sum });
        assert(items_view(kept@) =~= items_view(before).push(
            (Seq::<char>::empty(), aggregate_label(count as nat), small_sum),
        ));
    }
    kept
}

/// A prefix of `s` has a total size between zero and that of `s`.
pub proof fn lemma_entries_total_prefix(s: Seq<FsEntry>, n: int)
    requires
        0 <= n <= s.len(),
    ensures
        entries_total(s.take(n)) <= entries_total(s),
        entries_total(s.take(n)) >= 0,
    decreases s.len(),
{
    lemma_entries_total_nonneg(s.take(n));
    if n < s.len() {
        assert(s.drop_last().take(n) =~= s.take(n));
        lemma_entries_total_prefix(s.drop_last(), n);
    } else {
        assert(s.take(n) =~= s);
    }
}

proof fn lemma_small_total_prefix(s: Seq<FsEntry>, n: int, cells: int, total: int)
    requires
        0 <= n <= s.len(),
    ensures
        small_total(s.take(n), cells, total) <= small_total(s, cells, total),
        small_count(s.take(n), cells, total) <= small_count(s, cells, total),
    decreases s.len(),
{
    if n < s.len() {
        assert(s.drop_last().take(n) =~= s.take(n));
        lemma_small_total_prefix(s.drop_last(), n, cells, total);
        lemma_aggregate_parts(s.drop_last(), cells, total);
    } else {
        assert(s.take(n) =~= s);
    }
}

/// The items of `s` whose size is not zero, in order.
pub open spec fn positive_items(s: Seq<ItemV>) -> Seq<ItemV>
    decreases s.len(),
{
    if s.len() == 0 {
        Seq::empty()
    } else if s.last().2 > 0 {
        positive_items(s.drop_last()).push(s.last())
    } else {
        positive_items(s.drop_last())
    }
}

/// The sort keys of items: size and name.
pub open spec fn item_keys(v: Seq<ItemV>) -> Seq<(u64, Seq<char>)> {
    Seq::new(v.len(), |k: int| (v[k].2, v[k].1))
}

/// The items of `v` in the order `o`.
pub open spec fn permute(v: Seq<ItemV>, o: Seq<usize>) -> Seq<ItemV> {
    Seq::new(o.len(), |k: int| v[o[k] as int])
}

/// The items of `v` in listing order: sizes descending, then names ascending.
pub open spec fn listed(v: Seq<ItemV>) -> Seq<ItemV> {
    permute(v, stable_order(item_keys(v)))
}

/// The treemap of `children` in `area`: nothing for an empty area; otherwise the items of
/// `aggregate_spec` that are not empty, in listing order, laid out by `split_spec`.
pub open spec fn treemap_spec(area: Rect, children: Seq<FsEntry>) -> Seq<BlockV> {
    if area.width == 0 || area.height == 0 {
        Seq::empty()
    } else {
        let visible = positive_items(aggregate_spec(area, children));
        let sorted = listed(visible);
        split_spec(area, sorted, 0, sorted.len() as int, 0)
    }
}

proof fn lemma_sizes_sum_remove(s: Seq<ItemV>, p: int)
    requires
        0 <= p < s.len(),
    ensures
        items_total(s) == items_total(s.remove(p)) + s[p].2,
    decreases s.len(),
{
    let n = s.len() as int;
    if p == n - 1 {
        assert(s.remove(p) =~= s.drop_last());
        lemma_sizes_sum_prefix(s, s.drop_last(), n - 1);
    } else {
        lemma_sizes_sum_remove(s.drop_last(), p);
        assert(s.remove(p).drop_last() =~= s.drop_last().remove(p));
        lemma_sizes_sum_prefix(s, s.drop_last(), n - 1);
        lemma_sizes_sum_prefix(s.remove(p), s.drop_last().remove(p), n - 2);
        assert(s.remove(p)[n - 2] == s[n - 1]);
    }
}

/// Listing the items of `v` in another order keeps their total size.
proof fn lemma_permute_total(v: Seq<ItemV>, o: Seq<usize>)
    requires
        o.to_multiset() == index_range(0, v.len() as int).to_multiset(),
        v.len() <= usize::MAX,
    ensures
        items_total(permute(v, o)) == items_total(v),
    decreases v.len(),
{
    broadcast use vstd::seq_lib::group_to_multiset_ensures;
    broadcast use vstd::multiset::group_multiset_axioms;

    let n = v.len() as int;
    assert(o.len() == n) by {
        assert(o.len() == o.to_multiset().len());
        assert(index_range(0, n).len() == index_range(0, n).to_multiset().len());
    }
    if n == 0 {
        assert(permute(v, o) =~= Seq::<ItemV>::empty());
    } else {
        let r = index_range(0, n);
        assert(r =~= index_range(0, n - 1).push((n - 1) as usize));
        assert(r.contains((n - 1) as usize)) by {
            assert(r[n - 1] == (n - 1) as usize);
        }
        assert(o.contains((n - 1) as usize)) by {
            assert(r.to_multiset().count((n - 1) as usize) > 0);
        }
        let p = choose|p: int| 0 <= p < o.len() && o[p] == (n - 1) as usize;
        let o2 = o.remove(p);
        assert(o2.to_multiset() =~= index_range(0, n - 1).to_multiset()) by {
            assert(o2.to_multiset() =~= o.to_multiset().remove(o[p]));
            assert(r.to_multiset() =~= index_range(0, n - 1).to_multiset().insert((n - 1) as usize));
        }
        let v2 = v.drop_last();
        assert forall|k: int| 0 <= k < o2.len() implies #[trigger] o2[k] < n - 1 by {
            assert(o2.contains(o2[k]));
            assert(o2.to_multiset().count(o2[k]) > 0);
            assert(index_range(0, n - 1).contains(o2[k]));
        }
        lemma_permute_total(v2, o2);
        assert(permute(v2, o2) =~= permute(v, o).remove(p));
        lemma_sizes_sum_remove(permute(v, o), p);
        lemma_sizes_sum_prefix(v, v2, n - 1);
        assert(permute(v, o)[p] == v[n - 1]);
        assert(items_total(v) == sizes_sum(v, 0, n - 1) + v[n - 1].2);
    }
}

/// The items of the entries of `s`.
pub open spec fn entry_items(s: Seq<FsEntry>) -> Seq<ItemV> {
    Seq::new(s.len(), |k: int| item_of(s[k]))
}

proof fn lemma_entry_items_total(s: Seq<FsEntry>)
    ensures
        items_total(entry_items(s)) == entries_total(s),
    decreases s.len(),
{
    if s.len() > 0 {
        let n = s.len() as int;
        lemma_entry_items_total(s.drop_last());
        assert(entry_items(s.drop_last()) =~= entry_items(s).drop_last());
        lemma_sizes_sum_prefix(entry_items(s), entry_items(s.drop_last()), n - 1);
    }
}

/// Listing the entries of `v` in another order keeps their total size.
pub proof fn lemma_entries_permute_total(v: Seq<FsEntry>, o: Seq<usize>)
    requires
        o.to_multiset() == index_range(0, v.len() as int).to_multiset(),
        v.len() <= usize::MAX,
        forall|k: int| 0 <= k < o.len() ==> #[trigger] o[k] < v.len(),
    ensures
        entries_total(Seq::new(o.len(), |k: int| v[o[k] as int])) == entries_total(v),
{
    let w = Seq::new(o.len(), |k: int| v[o[k] as int]);
    lemma_permute_total(entry_items(v), o);
    assert(permute(entry_items(v), o) =~= entry_items(w));
    lemma_entry_items_total(v);
    lemma_entry_items_total(w);
}

proof fn lemma_positive_total(s: Seq<ItemV>)
    ensures
        items_total(positive_items(s)) == items_total(s),
        forall|k: int| 0 <= k < positive_items(s).len() ==> #[trigger] positive_items(s)[k].2 > 0,
    decreases s.len(),
{
    if s.len() > 0 {
        lemma_positive_total(s.drop_last());
        lemma_sizes_sum_prefix(s, s.drop_last(), s.len() - 1);
        let p0 = positive_items(s.drop_last());
        if s.last().2 > 0 {
            lemma_sizes_sum_prefix(p0.push(s.last()), p0, p0.len() as int);
        }
    }
}

/// The treemap of `children` in `area`: one rectangle for each entry that is not empty and
/// not too small to draw, largest first, and one for all the small ones together. A rectangle
/// whose edges pass the `u16` range is first cut back to it, as a rectangle clipped to itself
/// is; this is only done for at most one child, where no split happens.
pub fn build_treemap(area: Rect, children: &[FsEntry]) -> (blocks: Vec<TreemapBlock>)
    requires
        rect_valid(area) || children@.len() <= 1,
        entries_total(children@) <= u64::MAX,
    ensures
        blocks_view(blocks@) == treemap_spec(clamped(area), children@),
        rect_valid(area) ==> blocks_view(blocks@) == treemap_spec(area, children@),
        treemap_has_room(clamped(area), children@) ==> items_total(block_items(blocks_view(blocks@)))
            == entries_total(children@),
{
    let panel = Rect::new(area.x, area.y, area.width, area.height);
    assert(panel == clamped(area));
    build_treemap_in(panel, children)
}

/// The treemap of `children` in the valid rectangle `area`.
fn build_treemap_in(area: Rect, children: &[FsEntry]) -> (blocks: Vec<TreemapBlock>)
    requires
        rect_valid(area),
        entries_total(children@) <= u64::MAX,
    ensures
        blocks_view(blocks@) == treemap_spec(area, children@),
        treemap_has_room(area, children@) ==> items_total(block_items(blocks_view(blocks@))) == entries_total(
            children@,
        ),
{
    let prepared = aggregate_small_entries(area, children);
    let ghost pv = items_view(prepared@);
    let mut visible: Vec<TreemapItem> = Vec::new();
    let mut i: usize = 0;
    assert(pv.take(0) =~= Seq::<ItemV>::empty());
    while i < prepared.len()
        invariant
            pv == items_view(prepared@),
            i <= prepared@.len(),
            items_view(visible@) == positive_items(pv.take(i as int)),
        decreases prepared@.len() - i,
    {
        assert(pv.take(i + 1).drop_last() =~= pv.take(i as int));
        assert(pv.take(i + 1).last() == prepared@[i as int]@);
        if prepared[i].size > 0 {
            let ghost before = visible@;
            visible.push(copy_item(&prepared[i]));
            assert(items_view(visible@) =~= items_view(before).push(prepared@[i as int]@));
        }
        i = i + 1;
    }
    assert(pv.take(pv.len() as int) =~= pv);
    let ghost vv = items_view(visible@);
    assert(vv == positive_items(aggregate_spec(area, children@)));
    if visible.len() == 0 {
        let blocks: Vec<TreemapBlock> = Vec::new();
        assert(blocks_view(blocks@) =~= Seq::<BlockV>::empty());
        proof {
            broadcast use vstd::seq_lib::group_to_multiset_ensures;
            let ks = item_keys(vv);
            assert(index_range(0, 0) =~= Seq::<usize>::empty());
            assert(is_sorted_perm(ks, Seq::<usize>::empty()));
            let o = stable_order(ks);
            assert(is_sorted_perm(ks, o));
            assert(o.len() == o.to_multiset().len());
            assert(listed(vv).len() == 0);
            lemma_positive_total(aggregate_spec(area, children@));
            law_aggregate_keeps_total(area, children@);
            assert(block_items(blocks_view(blocks@)) =~= Seq::<ItemV>::empty());
        }
        return blocks;
    }
    let mut keys: Vec<(u64, Vec<char>)> = Vec::new();
    let mut k: usize = 0;
    while k < visible.len()
        invariant
            vv == items_view(visible@),
            k <= visible@.len(),
            key_view(keys@) == item_keys(vv).take(k as int),
        decreases visible@.len() - k,
    {
        let name = chars_of(visible[k].name.as_str());
        let ghost before = keys@;
        let key = (visible[k].size, name);
        keys.push(key);
        proof {
            assert(key_view(before.push(key)) =~= key_view(before).push((key.0, key.1@)));
            assert(key_view(keys@) =~= item_keys(vv).take(k + 1));
        }
        k = k + 1;
    }
    assert(item_keys(vv).take(vv.len() as int) =~= item_keys(vv));
    let order = listing_order(&keys);
    let ghost o = order@;
    let n = visible.len();
    proof {
        broadcast use vstd::seq_lib::group_to_multiset_ensures;
        assert forall|q: int| 0 <= q < o.len() implies #[trigger] o[q] < n by {
            assert(o.contains(o[q]));
            assert(o.to_multiset().count(o[q]) > 0);
            assert(index_range(0, n as int).contains(o[q]));
        }
        assert(o.len() == n) by {
            assert(o.len() == o.to_multiset().len());
            assert(index_range(0, n as int).len() == index_range(0, n as int).to_multiset().len());
        }
    }
    let mut sorted: Vec<TreemapItem> = Vec::new();
    let mut q: usize = 0;
    while q < order.len()
        invariant
            vv == items_view(visible@),
            o == order@,
            n == visible@.len(),
            forall|j: int| 0 <= j < o.len() ==> #[trigger] o[j] < n,
            q <= o.len(),
            items_view(sorted@) == permute(vv, o).take(q as int),
        decreases o.len() - q,
    {
        let ghost before = sorted@;
        let item = copy_item(&visible[order[q]]);
        assert(item@ == permute(vv, o)[q as int]);
        sorted.push(item);
        assert(items_view(sorted@) =~= permute(vv, o).take(q + 1)) by {
            assert(items_view(before) == permute(vv, o).take(q as int));
            lemma_items_view_push(before, item);
        }
        q = q + 1;
    }
    let ghost sv = items_view(sorted@);
    assert(permute(vv, o).take(o.len() as int) =~= permute(vv, o));
    assert(sv == listed(vv));
    proof {
        lemma_permute_total(vv, o);
        lemma_positive_total(aggregate_spec(area, children@));
        law_aggregate_keeps_total(area, children@);
        lemma_split_geometry(area, sv, 0, sv.len() as int, 0);
    }
    let m = sorted.len();
    let laid = split_recursive(area, &sorted, 0, m, 0);
    let ghost lv = blocks_view(laid@);
    let mut out: Vec<TreemapBlock> = Vec::new();
    let mut b: usize = 0;
    while b < laid.len()
        invariant
            lv == blocks_view(laid@),
            crate::treemap::all_inside(lv, area),
            rect_valid(area),
            b <= laid@.len(),
            blocks_view(out@) == lv.take(b as int),
        decreases laid@.len() - b,
    {
        let r = clip_rect(laid[b].rect, area);
        proof {
            assert(lv[b as int].3 == laid@[b as int].rect);
            lemma_clip_inside(laid@[b as int].rect, area);
        }
        let ghost before = out@;
        assert(within_spec(lv[b as int].3, area));
        assert(r == laid@[b as int].rect);
        if r.width > 0 && r.height > 0 {
            let blk = TreemapBlock {
                path: laid[b].path.clone(),
                name: laid[b].name.clone(),
                size: laid[b].size,
                rect: r,
            };
            assert(blk@ == lv[b as int]);
            out.push(blk);
            proof {
                lemma_blocks_view_push(before, blk);
            }
        }
        assert(blocks_view(out@) =~= lv.take(b + 1)) by {
            assert(blocks_view(before) == lv.take(b as int));
        }
        b = b + 1;
    }
    assert(lv.take(lv.len() as int) =~= lv);
    proof {
        lemma_split_items(area, sv, 0, sv.len() as int, 0);
        assert(sv.subrange(0, sv.len() as int) =~= sv);
    }
    out
}

/// Every rectangle of the treemap is a non-empty rectangle inside the panel, no two
/// rectangles share a cell, and together they cover at most the cells of the panel.
pub proof fn law_treemap_fits_panel(area: Rect, children: Seq<FsEntry>)
    requires
        rect_valid(area),
    ensures
        all_inside(treemap_spec(area, children), area),
        pairwise_disjoint(treemap_spec(area, children)),
        area_sum(treemap_spec(area, children)) <= rect_area(area),
{
    if area.width != 0 && area.height != 0 {
        let visible = positive_items(aggregate_spec(area, children));
        let sorted = listed(visible);
        lemma_split_geometry(area, sorted, 0, sorted.len() as int, 0);
    } else {
        assert(area_sum(Seq::<BlockV>::empty()) == 0);
    }
}

/// Whether every split of the treemap of `children` in `area` has room for the items it splits.
pub open spec fn treemap_has_room(area: Rect, children: Seq<FsEntry>) -> bool {
    let sorted = listed(positive_items(aggregate_spec(area, children)));
    split_has_room(area, sorted, 0, sorted.len() as int, 0)
}

/// The treemap has at most one block for each item it lays out (the entries that are not
/// empty and not small, and the item for the small ones, largest first). It has exactly one
/// for each exactly when every split has room, and then the blocks stand for those items in
/// that order.
pub proof fn law_treemap_one_block_per_item(area: Rect, children: Seq<FsEntry>)
    ensures
        treemap_spec(area, children).len() <= listed(positive_items(aggregate_spec(area, children))).len(),
        treemap_has_room(area, children) <==> treemap_spec(area, children).len() == listed(
            positive_items(aggregate_spec(area, children)),
        ).len(),
        treemap_has_room(area, children) ==> block_items(treemap_spec(area, children)) == listed(
            positive_items(aggregate_spec(area, children)),
        ),
{
    let sorted = listed(positive_items(aggregate_spec(area, children)));
    lemma_split_items(area, sorted, 0, sorted.len() as int, 0);
    assert(sorted.subrange(0, sorted.len() as int) =~= sorted);
}

proof fn lemma_positive_len(s: Seq<ItemV>)
    ensures
        positive_items(s).len() <= s.len(),
    decreases s.len(),
{
    if s.len() > 0 {
        lemma_positive_len(s.drop_last());
    }
}

/// The items the treemap lays out, largest first, are all non-empty, and their total is that
/// of the entries.
proof fn lemma_sorted_items(area: Rect, children: Seq<FsEntry>)
    requires
        entries_total(children) <= u64::MAX,
        children.len() <= usize::MAX,
    ensures
        forall|k: int|
            0 <= k < listed(positive_items(aggregate_spec(area, children))).len() ==> #[trigger] listed(
                positive_items(aggregate_spec(area, children)),
            )[k].2 > 0,
        items_total(listed(positive_items(aggregate_spec(area, children)))) == entries_total(children),
{
    let prepared = aggregate_spec(area, children);
    let visible = positive_items(prepared);
    let cells = area.width * area.height;
    lemma_aggregate_parts(children, cells, entries_total(children));
    lemma_positive_len(prepared);
    lemma_positive_total(prepared);
    law_aggregate_keeps_total(area, children);
    let ks = item_keys(visible);
    lemma_stable_order_sorted(ks);
    let o = stable_order(ks);
    lemma_permute_total(visible, o);
    assert forall|k: int| 0 <= k < listed(visible).len() implies #[trigger] listed(visible)[k].2 > 0 by {
        assert(listed(visible)[k] == visible[o[k] as int]);
    }
}

/// Where there is something to draw, the treemap covers every cell of a non-empty panel: no row
/// or column is left blank.
pub proof fn law_treemap_fills_panel(area: Rect, children: Seq<FsEntry>)
    requires
        rect_valid(area),
        area.width > 0,
        area.height > 0,
        0 < entries_total(children) <= u64::MAX,
        children.len() <= usize::MAX,
    ensures
        area_sum(treemap_spec(area, children)) == rect_area(area),
{
    let sorted = listed(positive_items(aggregate_spec(area, children)));
    lemma_sorted_items(area, children);
    if sorted.len() == 0 {
        assert(items_total(sorted) == 0);
    }
    lemma_split_fills(area, sorted, 0, sorted.len() as int, 0);
}

proof fn lemma_nearest_share(a: int, t: int, w: int)
    requires
        t > 0,
        2 * a >= t,
        a <= t,
        w >= 2,
    ensures
        2 * first_span_cells(a, w, t) >= w,
        w % 2 == 1 ==> 2 * first_span_cells(a, w, t) > w,
        1 <= first_span_cells(a, w, t) < w,
{
    let n = 2 * a * w + t;
    let q = n / (2 * t);
    assert(q * (2 * t) <= n < (q + 1) * (2 * t)) by (nonlinear_arith)
        requires
            t > 0,
            n >= 0,
            q == n / (2 * t),
    ;
    assert(2 * a * w >= t * w) by (nonlinear_arith)
        requires
            2 * a >= t,
            w >= 0,
    ;
    assert(q * 2 >= w) by (nonlinear_arith)
        requires
            n < (q + 1) * (2 * t),
            n == 2 * a * w + t,
            2 * a * w >= t * w,
            t > 0,
    ;
    if w % 2 == 1 {
        assert(q * 2 > w) by (nonlinear_arith)
            requires
                n < (q + 1) * (2 * t),
                n == 2 * a * w + t,
                2 * a * w >= t * w,
                t > 0,
                w % 2 == 1,
                q * 2 >= w,
        ;
    }
}

/// Of two items laid out side by side, the first (the larger, in listing order) never gets
/// fewer cells than the second, and gets more where the panel is an odd number of cells wide.
pub proof fn law_larger_of_two_gets_no_fewer_cells(area: Rect, children: Seq<FsEntry>)
    requires
        rect_valid(area),
        area.width >= 2,
        area.height > 0,
        entries_total(children) <= u64::MAX,
        children.len() <= usize::MAX,
        listed(positive_items(aggregate_spec(area, children))).len() == 2,
    ensures
        treemap_spec(area, children).len() == 2,
        treemap_spec(area, children)[0].2 >= treemap_spec(area, children)[1].2,
        rect_area(treemap_spec(area, children)[0].3) >= rect_area(treemap_spec(area, children)[1].3),
        area.width % 2 == 1 ==> rect_area(treemap_spec(area, children)[0].3) > rect_area(
            treemap_spec(area, children)[1].3,
        ),
{
    let visible = positive_items(aggregate_spec(area, children));
    let sorted = listed(visible);
    lemma_sorted_items(area, children);
    let ks = item_keys(visible);
    lemma_positive_len(aggregate_spec(area, children));
    lemma_aggregate_parts(children, area.width * area.height, entries_total(children));
    lemma_stable_order_sorted(ks);
    let o = stable_order(ks);
    assert(ranks_before(ks, o[0] as int, o[1] as int));
    assert(sorted[0] == visible[o[0] as int] && sorted[1] == visible[o[1] as int]);
    assert(sorted[0].2 >= sorted[1].2);
    let a = sorted[0].2 as int;
    let total = sizes_sum(sorted, 0, 2);
    assert(sizes_sum(sorted, 0, 0) == 0);
    assert(sizes_sum(sorted, 0, 1) == a);
    assert(total == a + sorted[1].2);
    let w = area.width as int;
    let h = area.height as int;
    lemma_reach_count_bounds(sorted, 0, 2, total / 2, 1);
    assert(split_count(sorted, 0, 2) == 1);
    lemma_nearest_share(a, total, w);
    let first = first_span_cells(a, w, total);
    let parts = halves(area, true, first);
    let out = split_spec(area, sorted, 0, 2, 0);
    assert(split_spec(parts.0, sorted, 0, 1, 1) == seq![block_of(sorted[0], parts.0)]);
    assert(split_spec(parts.1, sorted, 1, 2, 1) == seq![block_of(sorted[1], parts.1)]);
    assert(out == seq![block_of(sorted[0], parts.0)] + seq![block_of(sorted[1], parts.1)]);
    assert(out[0].3 == parts.0 && out[1].3 == parts.1);
    assert(first * h >= (w - first) * h) by (nonlinear_arith)
        requires
            2 * first >= w,
            h > 0,
    ;
    if w % 2 == 1 {
        assert(first * h > (w - first) * h) by (nonlinear_arith)
            requires
                2 * first > w,
                h > 0,
        ;
    }
}

/// The rectangle `r` ends at or before `cut` across the width (`horizontal`) or the height.
pub open spec fn ends_before(r: Rect, horizontal: bool, cut: int) -> bool {
    if horizontal { r.x + r.width <= cut } else { r.y + r.height <= cut }
}

/// The rectangle `r` starts at or after `cut` across the width (`horizontal`) or the height.
pub open spec fn starts_after(r: Rect, horizontal: bool, cut: int) -> bool {
    if horizontal { r.x >= cut } else { r.y >= cut }
}

/// A split of items whose blocks all appear gives the leading items (the larger ones) their
/// share of the span: the layout cuts the area at `c` cells from its start, across the width
/// at even depths and across the height at odd ones, the blocks of the first `m` items lie
/// before the cut and the others after it, and `c` is the size of those `m` items times the
/// span divided by the size of all items, rounded to the nearest cell (halves up) and kept
/// between one cell and the span less one.
pub proof fn law_split_cuts_at_group_share(area: Rect, s: Seq<ItemV>, lo: int, hi: int, depth: int) -> (cut: (
    int,
    int,
))
    requires
        rect_valid(area),
        area.width > 0,
        area.height > 0,
        0 <= lo,
        hi <= s.len(),
        hi - lo >= 2,
        (if depth % 2 == 0 { area.width as int } else { area.height as int }) >= 2,
        forall|k: int| lo <= k < hi ==> #[trigger] s[k].2 > 0,
        split_spec(area, s, lo, hi, depth).len() == hi - lo,
    ensures
        ({
            let blocks = split_spec(area, s, lo, hi, depth);
            let horizontal = depth % 2 == 0;
            let start: int = if horizontal { area.x as int } else { area.y as int };
            let span: int = if horizontal { area.width as int } else { area.height as int };
            let m = cut.0;
            let c = cut.1;
            let group: int = sizes_sum(s, lo, lo + m);
            let total: int = sizes_sum(s, lo, hi);
            let nearest: int = (2 * group * span + total) / (2 * total);
            &&& 0 < m < hi - lo
            &&& 1 <= c < span
            &&& forall|i: int| 0 <= i < m ==> ends_before(#[trigger] blocks[i].3, horizontal, start + c)
            &&& forall|i: int| m <= i < blocks.len() ==> starts_after(#[trigger] blocks[i].3, horizontal, start + c)
            &&& c == (if nearest < 1 { 1 } else if nearest > span - 1 { span - 1 } else { nearest })
        }),
{
    let blocks = split_spec(area, s, lo, hi, depth);
    let horizontal = depth % 2 == 0;
    let span: int = if horizontal { area.width as int } else { area.height as int };
    let total = sizes_sum(s, lo, hi);
    lemma_sizes_sum_split(s, lo, lo + 1, hi);
    assert(sizes_sum(s, lo, lo) == 0);
    assert(sizes_sum(s, lo, lo + 1) == s[lo].2);
    let k = split_count(s, lo, hi);
    lemma_reach_count_bounds(s, lo, hi, sizes_sum(s, lo, hi) / 2, 1);
    let first = first_span_cells(sizes_sum(s, lo, lo + k), span, total);
    let parts = halves(area, horizontal, first);
    lemma_halves(area, horizontal, first);
    let l = split_spec(parts.0, s, lo, lo + k, depth + 1);
    let r = split_spec(parts.1, s, lo + k, hi, depth + 1);
    assert(blocks == l + r);
    lemma_split_items(parts.0, s, lo, lo + k, depth + 1);
    lemma_split_items(parts.1, s, lo + k, hi, depth + 1);
    assert(l.len() == k);
    lemma_split_geometry(parts.0, s, lo, lo + k, depth + 1);
    lemma_split_geometry(parts.1, s, lo + k, hi, depth + 1);
    let start: int = if horizontal { area.x as int } else { area.y as int };
    assert forall|i: int| 0 <= i < k implies ends_before(#[trigger] blocks[i].3, horizontal, start + first) by {
        assert(blocks[i] == l[i]);
        assert(within_spec(l[i].3, parts.0));
        assert(rect_valid(l[i].3));
    }
    assert forall|i: int| k <= i < blocks.len() implies starts_after(#[trigger] blocks[i].3, horizontal, start + first) by {
        assert(blocks[i] == r[i - k]);
        assert(within_spec(r[i - k].3, parts.1));
    }
    (k, first)
}

/// The treemap of two or more items, each with its block, is first cut across the width at the
/// share of the leading (largest) items: the blocks of the first `m` items lie left of the cut
/// at `c` columns and the others right of it, where `c` is their total size times the width
/// divided by the total size of all items, rounded to the nearest column and kept between one
/// column and the width less one.
pub proof fn law_treemap_first_cut(area: Rect, children: Seq<FsEntry>) -> (cut: (int, int))
    requires
        rect_valid(area),
        area.width >= 2,
        area.height > 0,
        entries_total(children) <= u64::MAX,
        children.len() <= usize::MAX,
        listed(positive_items(aggregate_spec(area, children))).len() >= 2,
        treemap_spec(area, children).len() == listed(positive_items(aggregate_spec(area, children))).len(),
    ensures
        ({
            let sorted = listed(positive_items(aggregate_spec(area, children)));
            let blocks = treemap_spec(area, children);
            let m = cut.0;
            let c = cut.1;
            let w = area.width as int;
            let group: int = sizes_sum(sorted, 0, m);
            let total: int = sizes_sum(sorted, 0, sorted.len() as int);
            let nearest: int = (2 * group * w + total) / (2 * total);
            &&& 0 < m < sorted.len()
            &&& forall|i: int| 0 <= i < m ==> #[trigger] blocks[i].3.x + blocks[i].3.width <= area.x + c
            &&& forall|i: int| m <= i < blocks.len() ==> #[trigger] blocks[i].3.x >= area.x + c
            &&& c == (if nearest < 1 { 1 } else if nearest > w - 1 { w - 1 } else { nearest })
        }),
{
    let sorted = listed(positive_items(aggregate_spec(area, children)));
    lemma_sorted_items(area, children);
    let blocks = treemap_spec(area, children);
    let cut = law_split_cuts_at_group_share(area, sorted, 0, sorted.len() as int, 0);
    assert forall|i: int| 0 <= i < cut.0 implies #[trigger] blocks[i].3.x + blocks[i].3.width <= area.x + cut.1 by {
        assert(ends_before(blocks[i].3, true, area.x + cut.1));
    }
    assert forall|i: int| cut.0 <= i < blocks.len() implies #[trigger] blocks[i].3.x >= area.x + cut.1 by {
        assert(starts_after(blocks[i].3, true, area.x + cut.1));
    }
    cut
}

/// A single non-empty entry fills the whole panel.
pub proof fn law_single_entry_fills_panel(area: Rect, e: FsEntry)
    requires
        area.width > 0,
        area.height > 0,
        e.size > 0,
    ensures
        treemap_spec(area, seq![e]) == seq![(e.path@, e.name@, e.size, area)],
{
    broadcast use vstd::seq_lib::group_to_multiset_ensures;

    let s = seq![e];
    let cells = area.width * area.height;
    assert(cells >= 1) by (nonlinear_arith)
        requires
            cells == area.width * area.height,
            area.width >= 1,
            area.height >= 1,
    ;
    assert(s.drop_last() =~= Seq::<FsEntry>::empty());
    assert(s.last() == e);
    assert(entries_total(Seq::<FsEntry>::empty()) == 0);
    assert(entries_total(s) == e.size);
    assert(kept_items(Seq::<FsEntry>::empty(), cells, entries_total(s)) =~= Seq::<ItemV>::empty());
    assert(small_count(Seq::<FsEntry>::empty(), cells, entries_total(s)) == 0);
    assert(e.size * cells >= e.size) by (nonlinear_arith)
        requires
            cells >= 1,
            e.size >= 0,
    ;
    assert(!is_small(e.size, cells, entries_total(s)));
    assert(kept_items(s, cells, entries_total(s)) =~= seq![item_of(e)]);
    assert(small_count(s, cells, entries_total(s)) == 0);
    let prepared = aggregate_spec(area, s);
    assert(prepared =~= seq![item_of(e)]);
    assert(prepared.drop_last() =~= Seq::<ItemV>::empty());
    assert(positive_items(Seq::<ItemV>::empty()) =~= Seq::<ItemV>::empty());
    let visible = positive_items(prepared);
    assert(visible =~= seq![item_of(e)]);
    let ks = item_keys(visible);
    let one = seq![0usize];
    assert(index_range(0, 1) =~= one);
    assert(is_sorted_perm(ks, one));
    let o = stable_order(ks);
    assert(is_sorted_perm(ks, o));
    assert(o.len() == 1) by {
        assert(o.len() == o.to_multiset().len());
        assert(one.len() == one.to_multiset().len());
    }
    assert(o[0] == 0usize) by {
        assert(o.contains(o[0]));
        assert(o.to_multiset().count(o[0]) > 0);
        assert(one.contains(o[0]));
    }
    assert(listed(visible) =~= seq![item_of(e)]);
}

} // verus!
