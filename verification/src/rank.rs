//! The order of single-precision values by their bit patterns, and ranking by it.
use vstd::prelude::*;

verus! {

/// Bits of negative infinity.
pub const NEGATIVE_INFINITY: u32 = 0xff80_0000;

/// Bits of one.
pub const ONE: u32 = 0x3f80_0000;

/// The pattern is not a number.
pub open spec fn is_nan(bits: u32) -> bool {
    0x7f80_0000 < bits < 0x8000_0000 || 0xff80_0000 < bits
}

/// An integer that orders like the value: zero for both zeros, mirrored for negative values.
pub open spec fn order_key(bits: u32) -> int {
    if bits < 0x8000_0000 {
        bits as int
    } else {
        0x8000_0000 - bits as int
    }
}

/// The first value is less than the second; false where either is not a number.
pub open spec fn less(a: u32, b: u32) -> bool {
    !is_nan(a) && !is_nan(b) && order_key(a) < order_key(b)
}

pub fn nan_bits(bits: u32) -> (r: bool)
    ensures
        r == is_nan(bits),
{
    (0x7f80_0000 < bits && bits < 0x8000_0000) || 0xff80_0000 < bits
}

pub fn key_of(bits: u32) -> (r: i64)
    ensures
        r == order_key(bits),
{
    if bits < 0x8000_0000 {
        bits as i64
    } else {
        0x8000_0000 - bits as i64
    }
}

pub fn less_bits(a: u32, b: u32) -> (r: bool)
    ensures
        r == less(a, b),
{
    !nan_bits(a) && !nan_bits(b) && key_of(a) < key_of(b)
}

/// Comparing is transitive and never holds both ways.
pub proof fn law_less_is_a_strict_order(a: u32, b: u32, c: u32)
    ensures
        less(a, b) && less(b, c) ==> less(a, c),
        !(less(a, b) && less(b, a)),
{
}

/// Element `i` ranks before element `j`: it is greater, or as great and in front.
pub open spec fn ahead(keys: Seq<i64>, i: int, j: int) -> bool {
    keys[i] > keys[j] || (keys[i] == keys[j] && i < j)
}

/// A list of places is in rank order.
pub open spec fn in_rank_order(keys: Seq<i64>, r: Seq<usize>) -> bool {
    forall|i: int, j: int|
        0 <= i < j < r.len() ==> ahead(keys, #[trigger] r[i] as int, #[trigger] r[j] as int)
}

/// A list holds the places from `lo` to `hi`, each once.
pub open spec fn lists_range(r: Seq<usize>, lo: int, hi: int) -> bool {
    &&& r.len() == hi - lo
    &&& forall|i: int| 0 <= i < r.len() ==> lo <= #[trigger] r[i] < hi
    &&& forall|x: usize| lo <= x < hi ==> #[trigger] r.contains(x)
}

/// A list ranks all elements.
pub open spec fn ranks(keys: Seq<i64>, r: Seq<usize>) -> bool {
    lists_range(r, 0, keys.len() as int) && in_rank_order(keys, r)
}

fn merge_ranked(
    keys: &[i64],
    a: Vec<usize>,
    b: Vec<usize>,
    Ghost(lo): Ghost<int>,
    Ghost(mid): Ghost<int>,
    Ghost(hi): Ghost<int>,
) -> (r: Vec<usize>)
    requires
        0 <= lo <= mid <= hi <= keys@.len(),
        lists_range(a@, lo, mid),
        lists_range(b@, mid, hi),
        in_rank_order(keys@, a@),
        in_rank_order(keys@, b@),
    ensures
        lists_range(r@, lo, hi),
        in_rank_order(keys@, r@),
{
    let mut out: Vec<usize> = Vec::new();
    let mut i: usize = 0;
    let mut j: usize = 0;
    while i < a.len() || j < b.len()
        invariant
            0 <= lo <= mid <= hi <= keys@.len(),
            lists_range(a@, lo, mid),
            lists_range(b@, mid, hi),
            in_rank_order(keys@, a@),
            in_rank_order(keys@, b@),
            i <= a@.len(),
            j <= b@.len(),
            out@.len() == i + j,
            in_rank_order(keys@, out@),
            forall|k: int| 0 <= k < out@.len() ==> lo <= #[trigger] out@[k] < hi,
            forall|k: int, m: int|
                0 <= k < out@.len() && i <= m < a@.len() ==> ahead(
                    keys@,
                    #[trigger] out@[k] as int,
                    #[trigger] a@[m] as int,
                ),
            forall|k: int, m: int|
                0 <= k < out@.len() && j <= m < b@.len() ==> ahead(
                    keys@,
                    #[trigger] out@[k] as int,
                    #[trigger] b@[m] as int,
                ),
            forall|m: int| 0 <= m < i ==> out@.contains(#[trigger] a@[m]),
            forall|m: int| 0 <= m < j ==> out@.contains(#[trigger] b@[m]),
        decreases a@.len() - i + b@.len() - j,
    {
        let take_a = if i == a.len() {
            false
        } else if j == b.len() {
            true
        } else {
            keys[a[i]] >= keys[b[j]]
        };
        let ghost before = out@;
        if take_a {
            let x: usize = a[i];
            out.push(x);
            proof {
                assert forall|m: int| 0 <= m < i + 1 implies out@.contains(#[trigger] a@[m]) by {
                    if m < i {
                        let k = choose|k: int| 0 <= k < before.len() && before[k] == a@[m];
                        assert(out@[k] == a@[m]);
                    } else {
                        assert(out@[before.len() as int] == x);
                    }
                }
                assert forall|m: int| 0 <= m < j implies out@.contains(#[trigger] b@[m]) by {
                    let k = choose|k: int| 0 <= k < before.len() && before[k] == b@[m];
                    assert(out@[k] == b@[m]);
                }
                assert forall|m: int| j <= m < b@.len() implies ahead(
                    keys@,
                    x as int,
                    #[trigger] b@[m] as int,
                ) by {
                    assert(ahead(keys@, x as int, b@[j as int] as int));
                    if m > j {
                        assert(ahead(keys@, b@[j as int] as int, b@[m] as int));
                    }
                }
            }
            i += 1;
        } else {
            let x: usize = b[j];
            out.push(x);
            proof {
                assert forall|m: int| 0 <= m < j + 1 implies out@.contains(#[trigger] b@[m]) by {
                    if m < j {
                        let k = choose|k: int| 0 <= k < before.len() && before[k] == b@[m];
                        assert(out@[k] == b@[m]);
                    } else {
                        assert(out@[before.len() as int] == x);
                    }
                }
                assert forall|m: int| 0 <= m < i implies out@.contains(#[trigger] a@[m]) by {
                    let k = choose|k: int| 0 <= k < before.len() && before[k] == a@[m];
                    assert(out@[k] == a@[m]);
                }
                assert forall|m: int| i <= m < a@.len() implies ahead(
                    keys@,
                    x as int,
                    #[trigger] a@[m] as int,
                ) by {
                    assert(ahead(keys@, x as int, a@[i as int] as int));
                    if m > i {
                        assert(ahead(keys@, a@[i as int] as int, a@[m] as int));
                    }
                }
            }
            j += 1;
        }
    }
    proof {
        assert forall|x: usize| lo <= x < hi implies #[trigger] out@.contains(x) by {
            if x < mid {
                assert(a@.contains(x));
                let m = choose|m: int| 0 <= m < a@.len() && a@[m] == x;
                assert(out@.contains(a@[m]));
            } else {
                assert(b@.contains(x));
                let m = choose|m: int| 0 <= m < b@.len() && b@[m] == x;
                assert(out@.contains(b@[m]));
            }
        }
    }
    out
}

fn rank_range(keys: &[i64], lo: usize, hi: usize) -> (r: Vec<usize>)
    requires
        lo <= hi <= keys@.len(),
    ensures
        lists_range(r@, lo as int, hi as int),
        in_rank_order(keys@, r@),
    decreases hi - lo,
{
    if hi - lo == 0 {
        return Vec::new();
    }
    if hi - lo == 1 {
        let r: Vec<usize> = vec![lo];
        assert(r@[0] == lo);
        return r;
    }
    let mid: usize = lo + (hi - lo) / 2;
    let a = rank_range(keys, lo, mid);
    let b = rank_range(keys, mid, hi);
    merge_ranked(keys, a, b, Ghost(lo as int), Ghost(mid as int), Ghost(hi as int))
}

/// The places of all elements, the greatest first, equal ones in their own order.
pub fn rank_descending(keys: &[i64]) -> (r: Vec<usize>)
    ensures
        ranks(keys@, r@),
{
    rank_range(keys, 0, keys.len())
}

/// There is only one ranking.
pub proof fn law_ranking_is_unique(keys: Seq<i64>, a: Seq<usize>, b: Seq<usize>)
    requires
        ranks(keys, a),
        ranks(keys, b),
    ensures
        a == b,
{
    lemma_same_prefix(keys, a, b, a.len() as int);
    assert(a.take(a.len() as int) =~= a);
    assert(b.take(b.len() as int) =~= b);
}

proof fn lemma_same_prefix(keys: Seq<i64>, a: Seq<usize>, b: Seq<usize>, n: int)
    requires
        ranks(keys, a),
        ranks(keys, b),
        0 <= n <= a.len(),
    ensures
        a.take(n) == b.take(n),
    decreases n,
{
    if n > 0 {
        lemma_same_prefix(keys, a, b, n - 1);
        let x = a[n - 1];
        let y = b[n - 1];
        if x != y {
            assert(b.contains(x));
            let j = choose|j: int| 0 <= j < b.len() && b[j] == x;
            assert(a.contains(y));
            let i = choose|i: int| 0 <= i < a.len() && a[i] == y;
            if j < n - 1 {
                assert(a.take(n - 1)[j] == b.take(n - 1)[j]);
                assert(a[j] == x);
                assert(ahead(keys, a[j] as int, a[n - 1] as int));
            } else if i < n - 1 {
                assert(a.take(n - 1)[i] == b.take(n - 1)[i]);
                assert(b[i] == y);
                assert(ahead(keys, b[i] as int, b[n - 1] as int));
            } else {
                assert(ahead(keys, b[n - 1] as int, b[j] as int));
                assert(ahead(keys, a[n - 1] as int, a[i] as int));
            }
        }
        assert(a.take(n) =~= a.take(n - 1).push(x));
        assert(b.take(n) =~= b.take(n - 1).push(y));
    }
}

/// The keys of a run of values.
pub open spec fn keys_of(bits: Seq<u32>) -> Seq<i64> {
    bits.map_values(|b: u32| order_key(b) as i64)
}

/// The keys of a run of values.
pub fn order_keys(bits: &[u32]) -> (r: Vec<i64>)
    ensures
        r@ == keys_of(bits@),
{
    let mut out: Vec<i64> = Vec::new();
    let mut i: usize = 0;
    while i < bits.len()
        invariant
            i <= bits@.len(),
            out@ == keys_of(bits@.take(i as int)),
        decreases bits@.len() - i,
    {
        out.push(key_of(bits[i]));
        i += 1;
        assert(out@ =~= keys_of(bits@.take(i as int)));
    }
    assert(bits@.take(i as int) =~= bits@);
    out
}

/// Patterns order as the single-precision values they stand for: by sign and size, with both zeros the
/// same and what is no number apart.
pub proof fn law_patterns_order_as_values(a: u32, b: u32)
    ensures
        is_nan(a) <==> (a & 0x7fff_ffff) > 0x7f80_0000,
        ({
            let (s, t) = (a >> 31, b >> 31);
            let (x, y) = (a & 0x7fff_ffff, b & 0x7fff_ffff);
            less(a, b) <==> !is_nan(a) && !is_nan(b) && if s == 0 && t == 0 {
                x < y
            } else if s == 1 && t == 1 {
                x > y
            } else if s == 1 {
                x > 0 || y > 0
            } else {
                false
            }
        }),
{
    assert(a & 0x7fff_ffff == if a < 0x8000_0000 { a } else { (a - 0x8000_0000) as u32 } && a >> 31
        == if a < 0x8000_0000 { 0u32 } else { 1u32 }) by (bit_vector);
    assert(b & 0x7fff_ffff == if b < 0x8000_0000 { b } else { (b - 0x8000_0000) as u32 } && b >> 31
        == if b < 0x8000_0000 { 0u32 } else { 1u32 }) by (bit_vector);
}

} // verus!
