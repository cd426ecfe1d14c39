//! Half-precision and other plain values as single-precision bit patterns.
use vstd::prelude::*;

use crate::gguf::reader::{le32, word_at};
use crate::quant::codes::{get_half, half_at};

verus! {

/// The place of the highest set bit.
pub open spec fn top_bit(m: nat) -> nat
    decreases m,
{
    if m <= 1 {
        0
    } else {
        1 + top_bit(m / 2)
    }
}

/// `2` to the power `k`.
pub open spec fn two_to(k: nat) -> nat
    decreases k,
{
    if k == 0 {
        1
    } else {
        2 * two_to((k - 1) as nat)
    }
}

/// The single-precision pattern with the value of a half-precision one: the exponent is biased by
/// 112 more, the fraction has 13 more bits, and a subnormal value becomes a normal one.  What is
/// not a number stays so, with its first fraction bit set.
pub open spec fn widened(h: u16) -> int {
    let sign = h as int / 0x8000 * 0x8000_0000;
    let e = h as int / 1024 % 32;
    let m = (h as int % 1024) as nat;
    if e == 31 {
        sign + 0x7f80_0000 + m * 0x2000 + if 0 < m < 512 {
            0x40_0000int
        } else {
            0
        }
    } else if e > 0 {
        sign + (e + 112) * 0x80_0000 + m * 0x2000
    } else if m == 0 {
        sign
    } else {
        let k = top_bit(m);
        sign + (103 + k) * 0x80_0000 + (m - two_to(k)) * two_to((23 - k) as nat)
    }
}

proof fn lemma_top_bit(m: nat, k: nat)
    requires
        two_to(k) <= m < 2 * two_to(k),
    ensures
        top_bit(m) == k,
    decreases m,
{
    if k == 0 {
    } else {
        let p = two_to((k - 1) as nat) as int;
        assert(two_to(k) == 2 * p);
        assert(0 < p) by {
            lemma_two_to_positive((k - 1) as nat);
        }
        lemma_top_bit(m / 2, (k - 1) as nat);
    }
}

proof fn lemma_two_to_positive(k: nat)
    ensures
        0 < two_to(k),
    decreases k,
{
    if k > 0 {
        lemma_two_to_positive((k - 1) as nat);
    }
}

proof fn lemma_two_to_product(a: nat, b: nat)
    ensures
        two_to(a) * two_to(b) == two_to(a + b),
    decreases b,
{
    if b == 0 {
        assert(two_to(a) * 1 == two_to(a));
    } else {
        lemma_two_to_product(a, (b - 1) as nat);
        let (x, y) = (two_to(a) as int, two_to((b - 1) as nat) as int);
        assert(x * (2 * y) == 2 * (x * y)) by (nonlinear_arith);
    }
}

/// The single-precision pattern with the value of a half-precision one.
pub fn half_to_single(h: u16) -> (r: u32)
    ensures
        r == widened(h),
{
    let sign: u32 = (h / 0x8000) as u32 * 0x8000_0000;
    let e: u32 = (h / 1024 % 32) as u32;
    let m: u32 = (h % 1024) as u32;
    if e == 31 {
        let quiet: u32 = if 0 < m && m < 512 { 0x40_0000 } else { 0 };
        return sign + 0x7f80_0000 + m * 0x2000 + quiet;
    }
    if e > 0 {
        return sign + (e + 112) * 0x80_0000 + m * 0x2000;
    }
    if m == 0 {
        return sign;
    }
    let mut k: u32 = 0;
    let mut p: u32 = 1;
    while 2 * p <= m
        invariant
            0 < m < 1024,
            p == two_to(k as nat),
            1 <= p <= m,
            k < p,
        decreases m - p,
    {
        k += 1;
        p = 2 * p;
    }
    let mut f: u32 = 1;
    let mut j: u32 = 0;
    proof {
        lemma_top_bit(m as nat, k as nat);
        lemma_k_bound(k as nat);
    }
    while j < 23 - k
        invariant
            k < 10,
            j <= 23 - k,
            f == two_to(j as nat),
            f <= 0x80_0000,
        decreases 23 - k - j,
    {
        proof {
            lemma_two_to_product((j + 1) as nat, (22 - j) as nat);
            lemma_two_to_positive((22 - j) as nat);
            lemma_23();
            let (x, y) = (two_to((j + 1) as nat) as int, two_to((22 - j) as nat) as int);
            assert(x <= x * y) by (nonlinear_arith)
                requires
                    0 <= x,
                    0 < y,
            {
            }
        }
        f = 2 * f;
        j += 1;
    }
    proof {
        lemma_two_to_product(k as nat, (23 - k) as nat);
        lemma_23();
        let (a, b, c) = (m - p, f as int, p as int);
        assert(0 <= a * b <= c * b) by (nonlinear_arith)
            requires
                0 <= a <= c,
                0 <= b,
        {
        }
    }
    sign + (103 + k) * 0x80_0000 + (m - p) * f
}

proof fn lemma_23()
    ensures
        two_to(23) == 0x80_0000,
        two_to(10) == 1024,
{
    reveal_with_fuel(two_to, 24);
}

proof fn lemma_k_bound(k: nat)
    requires
        two_to(k) < 1024,
    ensures
        k < 10,
{
    if k >= 10 {
        lemma_two_to_product(10, (k - 10) as nat);
        lemma_two_to_positive((k - 10) as nat);
        lemma_23();
        let y = two_to((k - 10) as nat) as int;
        assert(1024 <= 1024 * y) by (nonlinear_arith)
            requires
                0 < y,
        {
        }
    }
}

/// Widening keeps the sign, and zero stays zero.
pub proof fn law_widening_keeps_the_sign(h: u16)
    ensures
        h % 0x8000 == 0 ==> widened(h) == h * 0x1_0000,
        widened(0) == 0,
{
}

/// The single-precision patterns of a run of half-precision values, two bytes each.
pub fn widen_halves(data: &[u8], limit: usize) -> (r: Vec<u32>)
    ensures
        r@.len() == if data@.len() / 2 < limit {
            data@.len() / 2
        } else {
            limit as nat
        },
        forall|i: int| 0 <= i < r@.len() ==> #[trigger] r@[i] == widened(half_at(data@, 2 * i)),
{
    let n: usize = if data.len() / 2 < limit { data.len() / 2 } else { limit };
    let mut out: Vec<u32> = Vec::new();
    let mut i: usize = 0;
    while i < n
        invariant
            i <= n,
            2 * n <= data@.len(),
            out@.len() == i,
            forall|k: int| 0 <= k < i ==> #[trigger] out@[k] == widened(half_at(data@, 2 * k)),
        decreases n - i,
    {
        assert(data@.len() == data.len());
        out.push(half_to_single(get_half(data, 2 * i)));
        i += 1;
    }
    out
}

/// The single-precision patterns of a run of brain-float values: their bits, then sixteen zeros.
pub fn widen_brains(data: &[u8], limit: usize) -> (r: Vec<u32>)
    ensures
        r@.len() == if data@.len() / 2 < limit {
            data@.len() / 2
        } else {
            limit as nat
        },
        forall|i: int|
            0 <= i < r@.len() ==> #[trigger] r@[i] == 0x1_0000 * half_at(
                data@,
                2 * i,
            ),
{
    let n: usize = if data.len() / 2 < limit { data.len() / 2 } else { limit };
    let mut out: Vec<u32> = Vec::new();
    let mut i: usize = 0;
    while i < n
        invariant
            i <= n,
            2 * n <= data@.len(),
            out@.len() == i,
            forall|k: int|
                0 <= k < i ==> #[trigger] out@[k] == 0x1_0000 * half_at(
                    data@,
                    2 * k,
                ),
        decreases n - i,
    {
        assert(data@.len() == data.len());
        out.push(0x1_0000 * get_half(data, 2 * i) as u32);
        i += 1;
    }
    out
}

/// The single-precision patterns of a run of such values, four bytes each.
pub fn read_singles(data: &[u8], limit: usize) -> (r: Vec<u32>)
    ensures
        r@.len() == if data@.len() / 4 < limit {
            data@.len() / 4
        } else {
            limit as nat
        },
        forall|i: int|
            0 <= i < r@.len() ==> #[trigger] r@[i] == le32(data@, 4 * i),
{
    let n: usize = if data.len() / 4 < limit { data.len() / 4 } else { limit };
    let mut out: Vec<u32> = Vec::new();
    let mut i: usize = 0;
    while i < n
        invariant
            i <= n,
            4 * n <= data@.len(),
            out@.len() == i,
            forall|k: int|
                0 <= k < i ==> #[trigger] out@[k] == le32(data@, 4 * k),
        decreases n - i,
    {
        assert(data@.len() == data.len());
        out.push(word_at(data, 4 * i));
        i += 1;
    }
    out
}

/// A brain-float value with its sixteen zeros is the shifted pattern.
pub proof fn law_brain_is_a_shift(h: u16)
    ensures
        0x1_0000 * h == (h as u32) << 16,
{
    assert((h as u32) << 16 == (h as u32) * 0x1_0000u32) by (bit_vector);
}

} // verus!
