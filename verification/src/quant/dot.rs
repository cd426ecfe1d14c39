//! Dot products of quantised rows with quantised activations.
//!
//! Activations come in blocks of 32 codes with a half-precision factor, 34 bytes each.  A dot
//! product is a sum of terms, one per such block: an integer sum and the two factors it is
//! multiplied with.
use vstd::prelude::*;

use crate::gguf::ggml::GgmlDType;
use crate::quant::codes::{
    bit, element, element_of, get_half, get_signed, half_at, law_codes_are_bounded, nibble,
    q1_small_element, signed, small_sign_element,
};

verus! {

/// One term of a dot product: the integer sum over 32 elements, the factor of the weights and that
/// of the activation.
#[derive(Debug, Clone, Copy, PartialEq, Eq, Structural)]
pub struct DotTerm {
    pub sum: i32,
    pub w: u16,
    pub a: u16,
}

/// The sum of the products of two runs of codes.
pub open spec fn dot_of(a: Seq<i32>, b: Seq<i32>) -> int
    decreases a.len(),
{
    if a.len() == 0 {
        0
    } else {
        dot_of(a.drop_last(), b.drop_last()) + a.last() * b.last()
    }
}

/// The sum of a run of codes.
pub open spec fn sum_of(a: Seq<i32>) -> int
    decreases a.len(),
{
    if a.len() == 0 {
        0
    } else {
        sum_of(a.drop_last()) + a.last()
    }
}

/// The codes of activation block `k`.
pub open spec fn act_codes(act: Seq<u8>, k: int) -> Seq<i32> {
    Seq::new(32, |i: int| signed(act[34 * k + 2 + i]) as i32)
}

/// Formats that are multiplied with quantised activations.
pub open spec fn has_dot(d: GgmlDType) -> bool {
    d is Q8_0 || d is Q4_0 || d is Q2_0 || d is Q1_0 || d is Q1_0_G128
}

/// The codes of a row for activation block `k`.  The four-bit format pairs the lower halves of its
/// bytes with the first sixteen elements and the upper halves with the others.
pub open spec fn row_codes(d: GgmlDType, row: Seq<u8>, k: int) -> Seq<i32> {
    if d is Q4_0 {
        Seq::new(
            32,
            |i: int|
                if i < 16 {
                    (nibble(row[18 * k + 2 + i], false) - 8) as i32
                } else {
                    (nibble(row[18 * k + 2 + i - 16], true) - 8) as i32
                },
        )
    } else {
        Seq::new(32, |i: int| element_of(d, row, 32 * k + i).q)
    }
}

/// Where the weight factor for activation block `k` stands.
pub open spec fn factor_place(d: GgmlDType, k: int) -> int {
    match d {
        GgmlDType::Q8_0 => 34 * k,
        GgmlDType::Q4_0 => 18 * k,
        GgmlDType::Q2_0 => 34 * (k / 4),
        _ => 18 * (k / 4),
    }
}

/// The term of activation block `k`.
pub open spec fn term_of(d: GgmlDType, row: Seq<u8>, act: Seq<u8>, k: int) -> DotTerm {
    DotTerm {
        sum: dot_of(row_codes(d, row, k), act_codes(act, k)) as i32,
        w: half_at(row, factor_place(d, k)),
        a: half_at(act, 34 * k),
    }
}

/// The number of terms for rows of `n` elements; elements behind the last whole block are left
/// out.
pub open spec fn term_count(d: GgmlDType, n: int) -> int {
    if d is Q8_0 || d is Q4_0 {
        n / 32
    } else {
        n / 128 * 4
    }
}

/// Bytes of a row that the terms are taken from.
pub open spec fn row_reach(d: GgmlDType, n: int) -> int {
    match d {
        GgmlDType::Q8_0 => n / 32 * 34,
        GgmlDType::Q4_0 => n / 32 * 18,
        GgmlDType::Q2_0 => n / 128 * 34,
        _ => n / 128 * 18,
    }
}

/// Sums of bounded codes are bounded.
proof fn lemma_dot_bound(a: Seq<i32>, b: Seq<i32>)
    requires
        a.len() == b.len(),
        forall|i: int| 0 <= i < a.len() ==> -128 <= #[trigger] a[i] <= 128,
        forall|i: int| 0 <= i < b.len() ==> -128 <= #[trigger] b[i] <= 128,
    ensures
        -16384 * a.len() <= dot_of(a, b) <= 16384 * a.len(),
    decreases a.len(),
{
    if a.len() > 0 {
        lemma_dot_bound(a.drop_last(), b.drop_last());
        let (x, y) = (a.last() as int, b.last() as int);
        assert(-128 <= x <= 128 && -128 <= y <= 128);
        assert(-16384 <= x * y <= 16384) by (nonlinear_arith)
            requires
                -128 <= x <= 128,
                -128 <= y <= 128,
        {
        }
    }
}

/// The sum of the products of two runs of codes.
pub fn dot_codes(a: &[i32], b: &[i32]) -> (r: i32)
    requires
        a@.len() == b@.len(),
        a@.len() <= 1024,
        forall|i: int| 0 <= i < a@.len() ==> -128 <= #[trigger] a@[i] <= 128,
        forall|i: int| 0 <= i < b@.len() ==> -128 <= #[trigger] b@[i] <= 128,
    ensures
        r == dot_of(a@, b@),
{
    let mut sum: i32 = 0;
    let mut i: usize = 0;
    while i < a.len()
        invariant
            i <= a@.len(),
            a@.len() == b@.len(),
            a@.len() <= 1024,
            forall|k: int| 0 <= k < a@.len() ==> -128 <= #[trigger] a@[k] <= 128,
            forall|k: int| 0 <= k < b@.len() ==> -128 <= #[trigger] b@[k] <= 128,
            sum == dot_of(a@.take(i as int), b@.take(i as int)),
            -16384 * i <= sum <= 16384 * i,
        decreases a@.len() - i,
    {
        proof {
            assert(a@.take(i + 1).drop_last() =~= a@.take(i as int));
            assert(b@.take(i + 1).drop_last() =~= b@.take(i as int));
            let (x, y) = (a@[i as int] as int, b@[i as int] as int);
            assert(-128 <= x <= 128 && -128 <= y <= 128);
            assert(-16384 <= x * y <= 16384) by (nonlinear_arith)
                requires
                    -128 <= x <= 128,
                    -128 <= y <= 128,
            {
            }
        }
        sum = sum + a[i] * b[i];
        i += 1;
    }
    assert(a@.take(i as int) =~= a@);
    assert(b@.take(i as int) =~= b@);
    sum
}

fn read_act_codes(act: &[u8], k: usize) -> (r: Vec<i32>)
    requires
        34 * k + 34 <= act@.len(),
    ensures
        r@ == act_codes(act@, k as int),
        forall|i: int| 0 <= i < r@.len() ==> -128 <= #[trigger] r@[i] <= 128,
{
    assert(act@.len() == act.len());
    let mut out: Vec<i32> = Vec::new();
    let mut i: usize = 0;
    while i < 32
        invariant
            i <= 32,
            34 * k + 34 <= act.len(),
            out@.len() == i,
            forall|j: int| 0 <= j < i ==> out@[j] == act_codes(act@, k as int)[j],
            forall|j: int| 0 <= j < i ==> -128 <= #[trigger] out@[j] <= 128,
        decreases 32 - i,
    {
        out.push(get_signed(act[34 * k + 2 + i]));
        i += 1;
    }
    assert(out@ =~= act_codes(act@, k as int));
    out
}

/// Bytes of the block that activation block `k` is multiplied with.
spec fn block_end(d: GgmlDType, k: int) -> int {
    factor_place(d, k) + if d is Q8_0 || d is Q2_0 {
        34int
    } else {
        18
    }
}

#[verifier::spinoff_prover]
#[verifier::rlimit(40)]
fn row_code(d: GgmlDType, row: &[u8], k: usize, i: usize) -> (r: i32)
    requires
        has_dot(d),
        i < 32,
        32 * k + 32 <= usize::MAX,
        block_end(d, k as int) <= row@.len(),
    ensures
        r == row_codes(d, row@, k as int)[i as int],
        -128 <= r <= 128,
{
    assert(row@.len() == row.len());
    match d {
        GgmlDType::Q4_0 => if i < 16 {
            (row[18 * k + 2 + i] % 16) as i32 - 8
        } else {
            (row[18 * k + 2 + (i - 16)] / 16) as i32 - 8
        },
        _ => {
            proof {
                law_codes_are_bounded(d, row@, 32 * k + i);
            }
            element(d, row, 32 * k + i).q
        },
    }
}

fn read_row_codes(d: GgmlDType, row: &[u8], k: usize) -> (r: Vec<i32>)
    requires
        has_dot(d),
        32 * k + 32 <= usize::MAX,
        block_end(d, k as int) <= row@.len(),
    ensures
        r@ == row_codes(d, row@, k as int),
        forall|i: int| 0 <= i < r@.len() ==> -128 <= #[trigger] r@[i] <= 128,
{
    let mut out: Vec<i32> = Vec::new();
    let ghost want = row_codes(d, row@, k as int);
    let mut i: usize = 0;
    while i < 32
        invariant
            i <= 32,
            has_dot(d),
            32 * k + 32 <= usize::MAX,
            block_end(d, k as int) <= row@.len(),
            want == row_codes(d, row@, k as int),
            out@.len() == i,
            forall|j: int| 0 <= j < i ==> out@[j] == want[j],
            forall|j: int| 0 <= j < i ==> -128 <= #[trigger] out@[j] <= 128,
        decreases 32 - i,
    {
        out.push(row_code(d, row, k, i));
        i += 1;
    }
    assert(out@ =~= want);
    out
}

/// The terms of the dot product of a row of `n` elements with an activation.
pub fn dot_terms(d: GgmlDType, row: &[u8], act: &[u8], n: usize) -> (r: Vec<DotTerm>)
    requires
        has_dot(d),
        row_reach(d, n as int) <= row@.len(),
        term_count(d, n as int) * 34 <= act@.len(),
    ensures
        r@ == Seq::new(
            term_count(d, n as int) as nat,
            |k: int| term_of(d, row@, act@, k),
        ),
{
    assert(row@.len() == row.len());
    assert(act@.len() == act.len());
    let count: usize = match d {
        GgmlDType::Q8_0 | GgmlDType::Q4_0 => n / 32,
        _ => n / 128 * 4,
    };
    let mut out: Vec<DotTerm> = Vec::new();
    let mut k: usize = 0;
    while k < count
        invariant
            has_dot(d),
            row@.len() == row.len(),
            act@.len() == act.len(),
            row_reach(d, n as int) <= row@.len(),
            count == term_count(d, n as int),
            count * 34 <= act@.len(),
            count * 32 <= n,
            k <= count,
            out@.len() == k,
            forall|j: int| 0 <= j < k ==> out@[j] == term_of(d, row@, act@, j),
        decreases count - k,
    {
        let w = read_row_codes(d, row, k);
        let a = read_act_codes(act, k);
        let place: usize = match d {
            GgmlDType::Q8_0 => 34 * k,
            GgmlDType::Q4_0 => 18 * k,
            GgmlDType::Q2_0 => 34 * (k / 4),
            _ => 18 * (k / 4),
        };
        proof {
            lemma_dot_bound(w@, a@);
        }
        out.push(
            DotTerm {
                sum: dot_codes(w.as_slice(), a.as_slice()),
                w: get_half(row, place),
                a: get_half(act, 34 * k),
            },
        );
        k += 1;
    }
    assert(out@ =~= Seq::new(
        term_count(d, n as int) as nat,
        |k: int| term_of(d, row@, act@, k),
    ));
    out
}

/// The term of activation block `k` with six-byte blocks of signs.
pub open spec fn small_term_of(row: Seq<u8>, act: Seq<u8>, k: int) -> DotTerm {
    DotTerm {
        sum: dot_of(
            Seq::new(32, |i: int| q1_small_element(row, k, i).q),
            act_codes(act, k),
        ) as i32,
        w: half_at(row, 6 * k),
        a: half_at(act, 34 * k),
    }
}

/// The terms of the dot product of a row of six-byte blocks of signs with an activation.
pub fn small_dot_terms(row: &[u8], act: &[u8], n: usize) -> (r: Vec<DotTerm>)
    requires
        n / 32 * 6 <= row@.len(),
        n / 32 * 34 <= act@.len(),
    ensures
        r@ == Seq::new((n / 32) as nat, |k: int| small_term_of(row@, act@, k)),
{
    assert(row@.len() == row.len());
    assert(act@.len() == act.len());
    let mut out: Vec<DotTerm> = Vec::new();
    let mut k: usize = 0;
    while k < n / 32
        invariant
            row@.len() == row.len(),
            act@.len() == act.len(),
            n / 32 * 6 <= row@.len(),
            n / 32 * 34 <= act@.len(),
            k <= n / 32,
            out@.len() == k,
            forall|j: int| 0 <= j < k ==> out@[j] == small_term_of(row@, act@, j),
        decreases n / 32 - k,
    {
        let ghost want = Seq::new(32, |i: int| q1_small_element(row@, k as int, i).q);
        let mut w: Vec<i32> = Vec::new();
        let mut i: usize = 0;
        while i < 32
            invariant
                i <= 32,
                row@.len() == row.len(),
                6 * k + 6 <= row@.len(),
                32 * k + 32 <= usize::MAX,
                want == Seq::new(32, |i: int| q1_small_element(row@, k as int, i).q),
                w@.len() == i,
                forall|j: int| 0 <= j < i ==> w@[j] == want[j],
                forall|j: int| 0 <= j < i ==> -128 <= #[trigger] w@[j] <= 128,
            decreases 32 - i,
        {
            w.push(small_sign_element(row, 32 * k + i).q);
            i += 1;
        }
        assert(w@ =~= want);
        let a = read_act_codes(act, k);
        proof {
            lemma_dot_bound(w@, a@);
        }
        out.push(
            DotTerm {
                sum: dot_codes(w.as_slice(), a.as_slice()),
                w: get_half(row, 6 * k),
                a: get_half(act, 34 * k),
            },
        );
        k += 1;
    }
    assert(out@ =~= Seq::new((n / 32) as nat, |k: int| small_term_of(row@, act@, k)));
    out
}

/// Codes that are raised by one to have no sign give the same dot product once the sum of the
/// activation is taken off again.
pub proof fn law_unsigned_codes_need_a_correction(u: Seq<i32>, w: Seq<i32>, a: Seq<i32>)
    requires
        u.len() == w.len() == a.len(),
        forall|i: int| 0 <= i < w.len() ==> #[trigger] u[i] == w[i] + 1,
    ensures
        dot_of(w, a) == dot_of(u, a) - sum_of(a),
    decreases w.len(),
{
    if w.len() > 0 {
        law_unsigned_codes_need_a_correction(u.drop_last(), w.drop_last(), a.drop_last());
        let (x, y) = (w.last() as int, a.last() as int);
        assert(u.last() == u[u.len() - 1]);
        assert((x + 1) * y == x * y + y) by (nonlinear_arith);
    }
}

/// A byte complemented and raised by one is the negated code, for every code but -128.
pub proof fn law_complement_negates(x: u8, y: u8)
    requires
        x != 0x80,
        y == ((x ^ 0xffu8) as u16 + 1) as u8,
    ensures
        signed(y) == -signed(x),
{
    assert(x != 0x80 && y == ((x ^ 0xffu8) as u16 + 1u16) as u8 ==> (x == 0 ==> y == 0) && (0 < x
        ==> y == 256u16 - x as u16)) by (bit_vector);
}

} // verus!
