//! Enlarging by interpolation between neighbouring points.
//!
//! Points stand at the centres of their cells.  Along one axis, a point of the larger image falls
//! between two points of the smaller one, or beyond the outermost, whose value it then takes.
use vstd::arithmetic::div_mod::{lemma_fundamental_div_mod, lemma_mod_bound};
use vstd::prelude::*;

verus! {

/// Two neighbouring points of an axis and the part that the second has, out of twice the larger
/// size.  Where it has no part, both are the same.
#[derive(Debug, Clone, Copy, PartialEq, Eq, Structural)]
pub struct AxisTap {
    pub low: usize,
    pub high: usize,
    pub part: usize,
}

/// Where point `y` of `large` points falls among `small` points, counted from the centre of the
/// first in units of one out of twice `large`.
pub open spec fn axis_place(small: int, large: int, y: int) -> int {
    (2 * y + 1) * small - large
}

/// What point `y` of `large` points is made of, among `small` points.
pub open spec fn axis_tap(small: int, large: int, y: int) -> AxisTap {
    let (at, whole) = (axis_place(small, large, y), 2 * large);
    if at <= 0 {
        AxisTap { low: 0, high: 0, part: 0 }
    } else if at / whole >= small - 1 {
        AxisTap { low: (small - 1) as usize, high: (small - 1) as usize, part: 0 }
    } else if at % whole == 0 {
        AxisTap { low: (at / whole) as usize, high: (at / whole) as usize, part: 0 }
    } else {
        AxisTap {
            low: (at / whole) as usize,
            high: (at / whole + 1) as usize,
            part: (at % whole) as usize,
        }
    }
}

fn tap_at(small: usize, large: usize, y: usize) -> (r: AxisTap)
    requires
        0 < small,
        y < large,
        2 * large <= usize::MAX,
    ensures
        r == axis_tap(small as int, large as int, y as int),
{
    let ghost top = u64::MAX as int;
    proof {
        assert(0 <= (2 * y + 1) * small <= top * top) by (nonlinear_arith)
            requires
                0 <= 2 * y + 1 <= top,
                0 <= small <= top,
        {
        }
        assert(top * top <= u128::MAX) by (nonlinear_arith)
            requires
                top == u64::MAX,
        {
        }
    }
    let scaled: u128 = (2 * y + 1) as u128 * small as u128;
    if scaled <= large as u128 {
        return AxisTap { low: 0, high: 0, part: 0 };
    }
    let at: u128 = scaled - large as u128;
    let whole: u128 = (2 * large) as u128;
    let low: u128 = at / whole;
    let part: u128 = at % whole;
    if low >= (small - 1) as u128 {
        AxisTap { low: small - 1, high: small - 1, part: 0 }
    } else if part == 0 {
        AxisTap { low: low as usize, high: low as usize, part: 0 }
    } else {
        AxisTap { low: low as usize, high: (low + 1) as usize, part: part as usize }
    }
}

/// What each of `large` points of an axis is made of, among `small` points.
pub fn axis_taps(small: usize, large: usize) -> (r: Vec<AxisTap>)
    requires
        0 < small,
        2 * large <= usize::MAX,
    ensures
        r@ == Seq::new(large as nat, |y: int| axis_tap(small as int, large as int, y)),
{
    let mut out: Vec<AxisTap> = Vec::new();
    let mut y: usize = 0;
    while y < large
        invariant
            0 < small,
            2 * large <= usize::MAX,
            y <= large,
            out@ == Seq::new(y as nat, |k: int| axis_tap(small as int, large as int, k)),
        decreases large - y,
    {
        out.push(tap_at(small, large, y));
        y += 1;
        assert(out@ =~= Seq::new(y as nat, |k: int| axis_tap(small as int, large as int, k)));
    }
    out
}

/// A point is made of points of the smaller image, and their parts put it exactly where it falls,
/// or at the outermost point where it falls beyond.
pub proof fn law_taps_are_exact(small: int, large: int, y: int)
    requires
        0 < small <= usize::MAX,
        0 <= y < large,
        2 * large <= usize::MAX,
    ensures
        ({
            let (t, at, whole) = (
                axis_tap(small, large, y),
                axis_place(small, large, y),
                2 * large,
            );
            let far = (small - 1) * whole;
            &&& t.low <= t.high < small
            &&& t.high <= t.low + 1
            &&& t.part < whole
            &&& t.part > 0 <==> t.high == t.low + 1
            &&& t.low * whole + t.part == if at < 0 {
                0
            } else if at > far {
                far
            } else {
                at
            }
        }),
{
    let (at, whole) = (axis_place(small, large, y), 2 * large);
    if at > 0 {
        let (q, m) = (at / whole, at % whole);
        lemma_fundamental_div_mod(at, whole);
        lemma_mod_bound(at, whole);
        assert(q * whole == whole * q) by (nonlinear_arith);
        assert(0 <= q) by (nonlinear_arith)
            requires
                0 < at,
                0 < whole,
                at == whole * q + m,
                m < whole,
        {
        }
        if q >= small - 1 {
            assert((small - 1) * whole <= q * whole) by (nonlinear_arith)
                requires
                    q >= small - 1,
                    0 < whole,
            {
            }
        } else {
            assert(q * whole + whole <= (small - 1) * whole) by (nonlinear_arith)
                requires
                    q + 1 <= small - 1,
                    0 < whole,
            {
            }
        }
    } else {
        assert(0 <= (small - 1) * whole) by (nonlinear_arith)
            requires
                0 < small,
                0 < whole,
        {
        }
    }
}

/// An image that keeps its size keeps its points.
pub proof fn law_same_size_is_kept(n: int, y: int)
    requires
        0 <= y < n,
        2 * n <= usize::MAX,
    ensures
        axis_tap(n, n, y) == (AxisTap { low: y as usize, high: y as usize, part: 0 }),
{
    assert((2 * y + 1) * n - n == (2 * n) * y) by (nonlinear_arith);
    law_taps_are_exact(n, n, y);
    let t = axis_tap(n, n, y);
    let (l, whole) = (t.low as int, 2 * n);
    assert(0 <= whole * y <= (n - 1) * whole) by (nonlinear_arith)
        requires
            0 <= y <= n - 1,
            0 < whole,
    {
    }
    assert(l == y) by (nonlinear_arith)
        requires
            l * whole + t.part == whole * y,
            0 <= t.part < whole,
    {
    }
    assert(l * whole == whole * y) by (nonlinear_arith)
        requires
            l == y,
    {
    }
    assert(t.part == 0);
}

} // verus!
