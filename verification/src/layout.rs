use vstd::prelude::*;
use ratatui::layout::{Constraint, Direction, Layout};
use ratatui::layout::Rect as TuiRect;
use crate::geometry::Rect;
use crate::text::{decimal, digit_char, digit, push_char, push_decimal, push_str};

verus! {

/// The scroll offset that keeps `selected` inside a viewport of `viewport_items` rows.
pub open spec fn visible_offset_spec(selected: int, offset: int, viewport_items: int) -> int {
    if viewport_items == 0 {
        0
    } else if selected < offset {
        selected
    } else if selected >= offset + viewport_items {
        selected + 1 - viewport_items
    } else {
        offset
    }
}

/// Returns the scroll offset after moving the viewport just enough to show `selected`.
pub fn ensure_visible_offset(selected: usize, offset: usize, viewport_items: usize) -> (res: usize)
    requires
        viewport_items > 0 && selected >= offset ==> offset + viewport_items <= usize::MAX,
        viewport_items > 0 && selected >= offset + viewport_items ==> selected < usize::MAX,
    ensures
        res == visible_offset_spec(selected as int, offset as int, viewport_items as int),
        viewport_items > 0 ==> res <= selected < res + viewport_items,
{
    if viewport_items == 0 {
        return 0;
    }
    if selected < offset {
        selected
    } else if selected >= offset + viewport_items {
        selected + 1 - viewport_items
    } else {
        offset
    }
}

/// `2` to the power `k`.
pub open spec fn pow2(k: nat) -> nat
    decreases k,
{
    if k == 0 { 1 } else { 2 * pow2((k - 1) as nat) }
}

/// `a / d` rounded to the nearest integer, halves to the even neighbour.
pub open spec fn round_half_even(a: int, d: int) -> int {
    let q = a / d;
    let r = a % d;
    if 2 * r > d || (2 * r == d && q % 2 == 1) { q + 1 } else { q }
}

/// How many low bits of `n` fall outside the 53-bit significand of a double.
pub open spec fn f64_shift(n: nat) -> nat
    decreases n,
{
    if n < 0x20_0000_0000_0000 { 0 } else { 1 + f64_shift(n / 2) }
}

/// The value of `n` converted to a double: `n` rounded to 53 significant bits, halves to even.
pub open spec fn f64_value(n: nat) -> nat {
    let k = f64_shift(n);
    let p = pow2(k);
    let q = n / p;
    let r = n % p;
    if k > 0 && (2 * r > p || (2 * r == p && q % 2 == 1)) { ((q + 1) * p) as nat } else { (q * p) as nat }
}

/// A number of tenths written with one decimal: `t / 10`, a point, then the last digit.
pub open spec fn tenths_text(t: nat) -> Seq<char> {
    decimal(t / 10).push('.').push(digit_char(t % 10))
}

/// The size shown for `size` bytes: whole bytes below 1 KiB; otherwise the value in KiB, MiB or
/// GiB (the first unit below 1024, GiB at most) with one decimal, as a double holds and prints
/// it: the size converted to a double, divided by the unit, rounded to one decimal with halves
/// to even.
pub open spec fn human_size_spec(size: u64) -> Seq<char> {
    if size < 1024 {
        decimal(size as nat) + " B"@
    } else if size < 0x10_0000 {
        tenths_text(round_half_even(size * 10, 1024) as nat) + " KiB"@
    } else if size < 0x4000_0000 {
        tenths_text(round_half_even(size * 10, 0x10_0000) as nat) + " MiB"@
    } else {
        tenths_text(round_half_even((f64_value(size as nat) * 10) as int, 0x4000_0000) as nat) + " GiB"@
    }
}

/// Appends `t` tenths written with one decimal.
fn push_tenths(s: &mut String, t: u128)
    ensures
        final(s)@ == old(s)@ + tenths_text(t as nat),
{
    push_decimal(s, t / 10);
    push_char(s, '.');
    push_char(s, digit((t % 10) as u64));
    assert(old(s)@ + tenths_text(t as nat) =~= old(s)@ + decimal((t / 10) as nat) + seq!['.'] + seq![digit_char((t % 10) as nat)]);
}

/// `a / d` rounded to the nearest integer, halves to even.
fn div_round_half_even(a: u128, d: u128) -> (q: u128)
    requires
        0 < d <= 0x4000_0000,
        a <= 0x1_0000_0000_0000_0000_0000,
    ensures
        q == round_half_even(a as int, d as int),
{
    let q = a / d;
    let r = a % d;
    if 2 * r > d || (2 * r == d && q % 2 == 1) {
        q + 1
    } else {
        q
    }
}

/// The value of `n` converted to a double, as an integer.
fn to_f64_value(n: u64) -> (v: u128)
    ensures
        v == f64_value(n as nat),
        v <= 2 * n,
{
    let mut m: u64 = n;
    let mut p: u128 = 1;
    let ghost mut k: nat = 0;
    proof {
        vstd::arithmetic::div_mod::lemma_div_denominator(n as int, 1, 1);
    }
    while m >= 0x20_0000_0000_0000
        invariant
            p == pow2(k),
            p >= 1,
            p == 1 || p <= n,
            m == n as int / (p as int),
            k > 0 ==> p >= 2,
            f64_shift(m as nat) + k == f64_shift(n as nat),
        decreases m,
    {
        proof {
            vstd::arithmetic::div_mod::lemma_div_denominator(n as int, p as int, 2);
            vstd::arithmetic::div_mod::lemma_fundamental_div_mod(n as int, p as int);
            assert(p * 2 * m / 2 <= n) by (nonlinear_arith)
                requires
                    p * m <= n,
                    p > 0,
            ;
            assert(p * (n as int / p as int) <= n) by (nonlinear_arith)
                requires
                    n as int == p * (n as int / p as int) + (n as int % p as int),
                    0 <= n as int % p as int,
            ;
            assert(2 * p <= n) by (nonlinear_arith)
                requires
                    p * m <= n,
                    m >= 2,
                    p >= 1,
            ;
        }
        m = m / 2;
        p = p * 2;
        proof {
            k = k + 1;
        }
    }
    let q = n as u128 / p;
    let r = n as u128 % p;
    proof {
        vstd::arithmetic::div_mod::lemma_fundamental_div_mod(n as int, p as int);
        assert(q * p <= n) by (nonlinear_arith)
            requires
                n == p * q + r,
                r >= 0,
        ;
    }
    if p > 1 && (2 * r > p || (2 * r == p && q % 2 == 1)) {
        assert((q + 1) * p <= 2 * n) by (nonlinear_arith)
            requires
                q * p <= n,
                p <= n,
        ;
        (q + 1) * p
    } else {
        q * p
    }
}

/// The size of `size` bytes as shown to the user, such as `999 B`, `1.0 KiB` or `2.5 GiB`.
pub fn human_size(size: u64) -> (s: String)
    ensures
        s@ == human_size_spec(size),
{
    let mut s = String::new();
    if size < 1024 {
        push_decimal(&mut s, size as u128);
        push_str(&mut s, " B");
    } else if size < 0x10_0000 {
        let t = div_round_half_even(size as u128 * 10, 1024);
        push_tenths(&mut s, t);
        push_str(&mut s, " KiB");
    } else if size < 0x4000_0000 {
        let t = div_round_half_even(size as u128 * 10, 0x10_0000);
        push_tenths(&mut s, t);
        push_str(&mut s, " MiB");
    } else {
        let v = to_f64_value(size);
        let t = div_round_half_even(v * 10, 0x4000_0000);
        push_tenths(&mut s, t);
        push_str(&mut s, " GiB");
    }
    assert(s@ =~= human_size_spec(size));
    s
}

/// What ratatui's `Layout::split` gives for `area` split across its width into two parts
/// with the constraints `Percentage(left_pct)` and `Percentage(right_pct)`: the left and the
/// right rectangle.
pub uninterp spec fn split_of(area: Rect, left_pct: u16, right_pct: u16) -> (Rect, Rect);

/// Calls ratatui's `Layout::split` with a horizontal direction and the constraints
/// `Percentage(left_pct)`, `Percentage(right_pct)`. The contract claims that the two rectangles
/// it returns are `split_of(area, left_pct, right_pct)`; ratatui's constraint solver decides
/// what they are, and no clause here states it.
#[verifier::external_body]
fn ratatui_split(area: Rect, left_pct: u16, right_pct: u16) -> (res: (Rect, Rect))
    ensures
        res == split_of(area, left_pct, right_pct),
{
    let r = TuiRect { x: area.x, y: area.y, width: area.width, height: area.height };
    let c = Layout::default().direction(Direction::Horizontal).constraints(
        [Constraint::Percentage(left_pct), Constraint::Percentage(right_pct)],
    ).split(r);
    (
        Rect { x: c[0].x, y: c[0].y, width: c[0].width, height: c[0].height },
        Rect { x: c[1].x, y: c[1].y, width: c[1].width, height: c[1].height },
    )
}

/// The share of the width, in percent, given to the list panel.
pub const LIST_PERCENT: u16 = 33;

/// The share of the width, in percent, given to the treemap panel.
pub const TREEMAP_PERCENT: u16 = 67;

/// The list panel (a third of the width) and the treemap panel (the other two thirds) of
/// `area`, as ratatui lays out 33% and 67% of it side by side.
pub fn split_main(area: Rect) -> (res: (Rect, Rect))
    ensures
        res == split_of(area, 33, 67),
{
    ratatui_split(area, LIST_PERCENT, TREEMAP_PERCENT)
}

} // verus!
