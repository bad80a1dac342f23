use vstd::prelude::*;

verus! {

/// A rectangle of terminal cells: its top-left corner and its size.
#[derive(Debug, Clone, Copy, PartialEq, Eq, Structural)]
pub struct Rect {
    pub x: u16,
    pub y: u16,
    pub width: u16,
    pub height: u16,
}

/// `v` capped at the largest `u16`.
pub open spec fn sat16(v: int) -> int {
    if v > u16::MAX { u16::MAX as int } else { v }
}

/// The right and bottom edges of `r` lie within the `u16` range.
pub open spec fn rect_valid(r: Rect) -> bool {
    r.x + r.width <= u16::MAX && r.y + r.height <= u16::MAX
}

/// The number of cells of `r`.
pub open spec fn rect_area(r: Rect) -> int {
    r.width * r.height
}

/// `r` lies inside `bounds`, edges compared with saturation at the `u16` limit.
pub open spec fn within_spec(r: Rect, bounds: Rect) -> bool {
    &&& r.x >= bounds.x
    &&& r.y >= bounds.y
    &&& sat16(r.x + r.width) <= sat16(bounds.x + bounds.width)
    &&& sat16(r.y + r.height) <= sat16(bounds.y + bounds.height)
}

/// `a` and `b` share at least one cell, edges saturated at the `u16` limit.
pub open spec fn overlap_spec(a: Rect, b: Rect) -> bool {
    &&& a.x < sat16(b.x + b.width)
    &&& sat16(a.x + a.width) > b.x
    &&& a.y < sat16(b.y + b.height)
    &&& sat16(a.y + a.height) > b.y
}

/// `r` clipped to `bounds`: the cells of `r` that lie in `bounds`, or an empty rectangle at the
/// clipped corner where there are none.
pub open spec fn clip_spec(r: Rect, bounds: Rect) -> Rect {
    let x1 = if r.x >= bounds.x { r.x as int } else { bounds.x as int };
    let y1 = if r.y >= bounds.y { r.y as int } else { bounds.y as int };
    let rx = sat16(r.x + r.width);
    let bx = sat16(bounds.x + bounds.width);
    let ry = sat16(r.y + r.height);
    let by = sat16(bounds.y + bounds.height);
    let x2 = if rx <= bx { rx } else { bx };
    let y2 = if ry <= by { ry } else { by };
    Rect {
        x: x1 as u16,
        y: y1 as u16,
        width: (if x2 >= x1 { x2 - x1 } else { 0 }) as u16,
        height: (if y2 >= y1 { y2 - y1 } else { 0 }) as u16,
    }
}

/// `r` with its width and height cut so that its right and bottom edges stay within the `u16`
/// range; a valid rectangle is left as it is.
pub open spec fn clamped(r: Rect) -> Rect {
    Rect { x: r.x, y: r.y, width: (sat16(r.x + r.width) - r.x) as u16, height: (sat16(r.y + r.height) - r.y) as u16 }
}

impl Rect {
    /// A rectangle at `(x, y)` whose width and height are cut so that its right and bottom
    /// edges stay within the `u16` range.
    pub fn new(x: u16, y: u16, width: u16, height: u16) -> (r: Rect)
        ensures
            r.x == x,
            r.y == y,
            r.width == sat16(x + width) - x,
            r.height == sat16(y + height) - y,
            rect_valid(r),
    {
        Rect { x, y, width: x.saturating_add(width) - x, height: y.saturating_add(height) - y }
    }
}

/// Whether `rect` lies inside `bounds`.
pub fn rect_within_bounds(rect: Rect, bounds: Rect) -> (res: bool)
    ensures
        res == within_spec(rect, bounds),
{
    rect.x >= bounds.x && rect.y >= bounds.y && rect.x.saturating_add(rect.width)
        <= bounds.x.saturating_add(bounds.width) && rect.y.saturating_add(rect.height)
        <= bounds.y.saturating_add(bounds.height)
}

/// Whether `a` and `b` share at least one cell.
pub fn rects_overlap(a: Rect, b: Rect) -> (res: bool)
    ensures
        res == overlap_spec(a, b),
{
    let ax2 = a.x.saturating_add(a.width);
    let ay2 = a.y.saturating_add(a.height);
    let bx2 = b.x.saturating_add(b.width);
    let by2 = b.y.saturating_add(b.height);
    a.x < bx2 && ax2 > b.x && a.y < by2 && ay2 > b.y
}

/// `rect` clipped to `bounds`.
pub fn clip_rect(rect: Rect, bounds: Rect) -> (res: Rect)
    ensures
        res == clip_spec(rect, bounds),
{
    let x1 = if rect.x >= bounds.x { rect.x } else { bounds.x };
    let y1 = if rect.y >= bounds.y { rect.y } else { bounds.y };
    let rx = rect.x.saturating_add(rect.width);
    let bx = bounds.x.saturating_add(bounds.width);
    let ry = rect.y.saturating_add(rect.height);
    let by = bounds.y.saturating_add(bounds.height);
    let x2 = if rx <= bx { rx } else { bx };
    let y2 = if ry <= by { ry } else { by };
    Rect { x: x1, y: y1, width: x2.saturating_sub(x1), height: y2.saturating_sub(y1) }
}

/// Clipping a rectangle that already lies inside `bounds` leaves it unchanged.
pub proof fn lemma_clip_inside(r: Rect, bounds: Rect)
    requires
        within_spec(r, bounds),
        rect_valid(r),
    ensures
        clip_spec(r, bounds) == r,
{
}

} // verus!
