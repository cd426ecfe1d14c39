//! Which tokens stay in play when one is drawn.
//!
//! Scores and probabilities appear as the bit patterns of single-precision values; what is decided
//! here is decided by comparing them.
use vstd::prelude::*;

use crate::engine::request::SamplerConfig;
use crate::rank::{
    in_rank_order, is_nan, keys_of, less, less_bits, lists_range, nan_bits, order_key, order_keys,
    rank_descending, ranks, NEGATIVE_INFINITY, ONE,
};

verus! {

/// None of the values is not a number.
pub open spec fn all_numbers(v: Seq<u32>) -> bool {
    forall|i: int| 0 <= i < v.len() ==> !is_nan(#[trigger] v[i])
}

/// Whether none of the values is not a number.
pub fn only_numbers(v: &[u32]) -> (r: bool)
    ensures
        r == all_numbers(v@),
{
    let mut i: usize = 0;
    while i < v.len()
        invariant
            i <= v@.len(),
            forall|k: int| 0 <= k < i ==> !is_nan(#[trigger] v@[k]),
        decreases v@.len() - i,
    {
        if nan_bits(v[i]) {
            return false;
        }
        i += 1;
    }
    true
}

/// The greedy choice among the first `n` values: each next value takes over unless it is less.
pub open spec fn greedy_of(v: Seq<u32>, n: nat) -> int
    decreases n,
{
    if n <= 1 {
        0
    } else {
        let prev = greedy_of(v, (n - 1) as nat);
        if less(v[n - 1], v[prev]) {
            prev
        } else {
            n - 1
        }
    }
}

/// The greedy choice: the place of the greatest value.
pub fn greedy(v: &[u32]) -> (r: u32)
    requires
        v@.len() <= u32::MAX,
    ensures
        r == greedy_of(v@, v@.len()),
{
    let mut best: usize = 0;
    let mut i: usize = 1;
    while i < v.len()
        invariant
            v@.len() <= u32::MAX,
            1 <= i,
            i <= v@.len() || v@.len() == 0,
            v@.len() > 0 ==> best < i,
            v@.len() > 0 ==> best == greedy_of(v@, i as nat),
            v@.len() == 0 ==> best == 0,
        decreases v@.len() - i,
    {
        if !less_bits(v[i], v[best]) {
            best = i;
        }
        i += 1;
    }
    best as u32
}

/// Where all values are numbers, the greedy choice is as great as any value and greater than those
/// behind it.
pub proof fn law_greedy_is_greatest(v: Seq<u32>, k: int)
    requires
        all_numbers(v),
        0 <= k < v.len(),
    ensures
        0 <= greedy_of(v, v.len()) < v.len(),
        !less(v[greedy_of(v, v.len())], v[k]),
        k > greedy_of(v, v.len()) ==> less(v[k], v[greedy_of(v, v.len())]),
{
    lemma_greedy(v, v.len(), k);
}

proof fn lemma_greedy(v: Seq<u32>, n: nat, k: int)
    requires
        all_numbers(v),
        0 <= k < n <= v.len(),
    ensures
        0 <= greedy_of(v, n) < n,
        !less(v[greedy_of(v, n)], v[k]),
        k > greedy_of(v, n) ==> less(v[k], v[greedy_of(v, n)]),
    decreases n,
{
    if n > 1 {
        lemma_greedy(v, (n - 1) as nat, if k < n - 1 { k } else { 0 });
        assert(!is_nan(v[k]) && !is_nan(v[n - 1]));
    }
}

/// The places among `n` values that belong to earlier tokens, one for each time a token occurs.
pub open spec fn places_of_past(past: Seq<u32>, n: int) -> Seq<usize>
    decreases past.len(),
{
    if past.len() == 0 {
        Seq::empty()
    } else {
        let before = places_of_past(past.drop_last(), n);
        if past.last() < n {
            before.push(past.last() as usize)
        } else {
            before
        }
    }
}

/// The places among `n` values that a repetition penalty is applied to, in order.
pub fn penalised_places(past: &[u32], n: usize) -> (r: Vec<usize>)
    ensures
        r@ == places_of_past(past@, n as int),
{
    let mut out: Vec<usize> = Vec::new();
    let mut i: usize = 0;
    assert(past@.take(0).len() == 0);
    while i < past.len()
        invariant
            i <= past@.len(),
            out@ == places_of_past(past@.take(i as int), n as int),
        decreases past@.len() - i,
    {
        assert(past@.take(i + 1).drop_last() =~= past@.take(i as int));
        if (past[i] as usize) < n {
            out.push(past[i] as usize);
        }
        i += 1;
    }
    assert(past@.take(i as int) =~= past@);
    out
}

/// What of the sampling configuration takes effect on `n` values.
#[derive(Debug, Clone, Copy, PartialEq, Eq, Structural)]
pub struct SamplingPlan {
    pub reseed: bool,
    pub greedy: bool,
    pub top_k: bool,
    pub min_p: bool,
    pub top_p: bool,
    pub typical_p: bool,
}

/// The value is zero, of either sign.
pub open spec fn is_zero(bits: u32) -> bool {
    bits == 0 || bits == 0x8000_0000
}

/// The value is neither at most zero nor at least one.
pub open spec fn is_fraction(bits: u32) -> bool {
    !(less(bits, 0) || is_zero(bits) || (!is_nan(bits) && !less(bits, ONE)))
}

fn fraction(bits: u32) -> (r: bool)
    ensures
        r == is_fraction(bits),
{
    !(less_bits(bits, 0) || bits == 0 || bits == 0x8000_0000 || (!nan_bits(bits) && !less_bits(
        bits,
        ONE,
    )))
}

/// What of the sampling configuration takes effect on `n` values.
pub open spec fn plan_of(c: SamplerConfig, n: usize) -> SamplingPlan {
    SamplingPlan {
        reseed: c.seed != 0,
        greedy: is_zero(c.temperature_bits),
        top_k: 0 < c.top_k < n,
        min_p: is_fraction(c.min_p_bits),
        top_p: is_fraction(c.top_p_bits),
        typical_p: is_fraction(c.typical_p_bits) && less(0, c.typical_p_bits),
    }
}

/// What of the sampling configuration takes effect on `n` values.
pub fn plan_sampling(c: &SamplerConfig, n: usize) -> (r: SamplingPlan)
    ensures
        r == plan_of(*c, n),
{
    SamplingPlan {
        reseed: c.seed != 0,
        greedy: c.temperature_bits == 0 || c.temperature_bits == 0x8000_0000,
        top_k: 0 < c.top_k && c.top_k < n,
        min_p: fraction(c.min_p_bits),
        top_p: fraction(c.top_p_bits),
        typical_p: fraction(c.typical_p_bits) && less_bits(0, c.typical_p_bits),
    }
}

/// `v` with everything below the threshold set to negative infinity.
pub open spec fn without_below(v: Seq<u32>, threshold: u32) -> Seq<u32> {
    v.map_values(
        |x: u32|
            if less(x, threshold) {
                NEGATIVE_INFINITY
            } else {
                x
            },
    )
}

/// `v` with everything below the threshold set to negative infinity.
pub fn drop_below(v: &[u32], threshold: u32) -> (r: Vec<u32>)
    ensures
        r@ == without_below(v@, threshold),
{
    let mut out: Vec<u32> = Vec::new();
    let mut i: usize = 0;
    while i < v.len()
        invariant
            i <= v@.len(),
            out@.len() == i,
            forall|k: int| 0 <= k < i ==> out@[k] == without_below(v@, threshold)[k],
        decreases v@.len() - i,
    {
        out.push(if less_bits(v[i], threshold) { NEGATIVE_INFINITY } else { v[i] });
        i += 1;
    }
    assert(out@ =~= without_below(v@, threshold));
    out
}

/// The place of the value with rank `k`, the greatest having rank zero.
pub open spec fn place_of_rank(v: Seq<u32>, k: int) -> int {
    let r = choose|r: Seq<usize>| ranks(keys_of(v), r);
    r[k] as int
}

/// `v` with everything below its `k` greatest values set to negative infinity; unchanged where `k`
/// is zero or there are no more than `k` values.
pub fn apply_top_k(v: &[u32], k: usize) -> (r: Vec<u32>)
    requires
        all_numbers(v@),
    ensures
        r@ == if 0 < k < v@.len() {
            without_below(v@, v@[place_of_rank(v@, k - 1)])
        } else {
            v@
        },
{
    if k == 0 || k >= v.len() {
        return vstd::slice::slice_to_vec(v);
    }
    let keys = order_keys(v);
    let order = rank_descending(keys.as_slice());
    proof {
        let chosen = choose|r: Seq<usize>| ranks(keys_of(v@), r);
        assert(ranks(keys_of(v@), order@));
        crate::rank::law_ranking_is_unique(keys_of(v@), order@, chosen);
    }
    drop_below(v, v[order[k - 1]])
}

/// The `k` greatest values stay as they are, and what is less than the least of them goes.
pub proof fn law_top_k_keeps_the_greatest(v: Seq<u32>, k: int, i: int, order: Seq<usize>)
    requires
        all_numbers(v),
        0 < k < v.len(),
        ranks(keys_of(v), order),
        0 <= i < v.len(),
    ensures
        ({
            let r = without_below(v, v[place_of_rank(v, k - 1)]);
            let (place, least) = (order[i] as int, order[k - 1] as int);
            &&& i < k ==> r[place] == v[place]
            &&& less(v[place], v[least]) ==> r[place] == NEGATIVE_INFINITY && k <= i
        }),
{
    let chosen = choose|r: Seq<usize>| ranks(keys_of(v), r);
    crate::rank::law_ranking_is_unique(keys_of(v), order, chosen);
    let keys = keys_of(v);
    let (a, b) = (order[i] as int, order[k - 1] as int);
    assert(keys[a] == order_key(v[a]) as i64 && keys[b] == order_key(v[b]) as i64);
    if i < k - 1 {
        assert(crate::rank::ahead(keys, a, b));
    }
}

/// The places of all values, the greatest first, equal ones in their own order.
pub fn rank_values(v: &[u32]) -> (r: Vec<usize>)
    requires
        all_numbers(v@),
    ensures
        ranks(keys_of(v@), r@),
{
    let keys = order_keys(v);
    rank_descending(keys.as_slice())
}

/// `v` with the values of rank `cutoff` and beyond set to zero.
pub fn zero_tail(v: &[u32], order: &[usize], cutoff: usize) -> (r: Vec<u32>)
    requires
        lists_range(order@, 0, v@.len() as int),
        in_rank_order(keys_of(v@), order@),
        cutoff <= v@.len(),
    ensures
        r@.len() == v@.len(),
        forall|i: int|
            0 <= i < order@.len() ==> #[trigger] r@[order@[i] as int] == if i < cutoff {
                v@[order@[i] as int]
            } else {
                0
            },
{
    let mut out: Vec<u32> = vstd::slice::slice_to_vec(v);
    let mut i: usize = cutoff;
    while i < order.len()
        invariant
            lists_range(order@, 0, v@.len() as int),
            in_rank_order(keys_of(v@), order@),
            cutoff <= i <= order@.len(),
            out@.len() == v@.len(),
            forall|k: int|
                0 <= k < order@.len() ==> #[trigger] out@[order@[k] as int] == if cutoff <= k < i {
                    0
                } else {
                    v@[order@[k] as int]
                },
        decreases order@.len() - i,
    {
        let ghost before = out@;
        out.set(order[i], 0);
        proof {
            assert forall|k: int| 0 <= k < order@.len() implies #[trigger] out@[order@[k] as int]
                == if cutoff <= k < i + 1 {
                0
            } else {
                v@[order@[k] as int]
            } by {
                if k != i {
                    if k < i {
                        assert(crate::rank::ahead(
                            keys_of(v@),
                            order@[k] as int,
                            order@[i as int] as int,
                        ));
                    } else {
                        assert(crate::rank::ahead(
                            keys_of(v@),
                            order@[i as int] as int,
                            order@[k] as int,
                        ));
                    }
                    assert(order@[k] != order@[i as int]);
                    assert(before[order@[k] as int] == out@[order@[k] as int]);
                }
            }
        }
        i += 1;
    }
    out
}

/// The first of the greatest positive values among the first `n`; zero where none is positive.
pub open spec fn first_greatest(v: Seq<u32>, n: nat) -> int
    decreases n,
{
    if n == 0 {
        0
    } else {
        let prev = first_greatest(v, (n - 1) as nat);
        if less(greatest(v, (n - 1) as nat), v[n - 1]) {
            n - 1
        } else {
            prev
        }
    }
}

/// The greatest of zero and the first `n` values.
pub open spec fn greatest(v: Seq<u32>, n: nat) -> u32
    decreases n,
{
    if n == 0 {
        0
    } else {
        let prev = greatest(v, (n - 1) as nat);
        if less(prev, v[n - 1]) {
            v[n - 1]
        } else {
            prev
        }
    }
}

/// The token that is drawn: the first whose cumulated probability exceeds the random number, and
/// where rounding left none, the likeliest.
pub fn pick(v: &[u32], hit: Option<usize>) -> (r: u32)
    requires
        v@.len() <= u32::MAX,
        hit matches Some(i) ==> i < v@.len(),
    ensures
        r == match hit {
            Some(i) => i as int,
            None => first_greatest(v@, v@.len()),
        },
{
    if let Some(i) = hit {
        return i as u32;
    }
    let mut best: usize = 0;
    let mut best_value: u32 = 0;
    let mut i: usize = 0;
    while i < v.len()
        invariant
            v@.len() <= u32::MAX,
            i <= v@.len(),
            best == first_greatest(v@, i as nat),
            best_value == greatest(v@, i as nat),
            best <= i,
        decreases v@.len() - i,
    {
        if less_bits(best_value, v[i]) {
            best_value = v[i];
            best = i;
        }
        i += 1;
    }
    best as u32
}

/// Which parts of a configuration take effect: a seed that is not zero, the greedy choice at temperature
/// zero of either sign, a number of tokens below that of all tokens, and limits between zero and one.
pub proof fn law_limits_that_take_effect(c: SamplerConfig, n: usize)
    ensures
        ({
            let p = plan_of(c, n);
            &&& p.reseed <==> c.seed != 0
            &&& p.greedy <==> c.temperature_bits & 0x7fff_ffff == 0
            &&& p.top_k <==> 1 <= c.top_k && c.top_k < n
            &&& !is_nan(c.top_p_bits) ==> (p.top_p <==> less(0, c.top_p_bits) && less(
                c.top_p_bits,
                0x3f80_0000,
            ))
            &&& !is_nan(c.min_p_bits) ==> (p.min_p <==> less(0, c.min_p_bits) && less(
                c.min_p_bits,
                0x3f80_0000,
            ))
            &&& p.typical_p <==> less(0, c.typical_p_bits) && less(c.typical_p_bits, 0x3f80_0000)
        }),
{
    let t = c.temperature_bits;
    assert(t & 0x7fff_ffff == 0 <==> t == 0 || t == 0x8000_0000) by (bit_vector);
}

/// Where the random number hits nothing, the likeliest token is taken: none has a greater probability,
/// and the one taken has one above zero where any has.
pub proof fn law_likeliest_stands_in(v: Seq<u32>, k: int)
    requires
        all_numbers(v),
        0 <= k < v.len(),
    ensures
        0 <= first_greatest(v, v.len()) < v.len(),
        less(0, v[k]) ==> !less(v[first_greatest(v, v.len())], v[k]) && less(
            0,
            v[first_greatest(v, v.len())],
        ),
{
    lemma_likeliest(v, v.len(), k);
}

proof fn lemma_likeliest(v: Seq<u32>, n: nat, k: int)
    requires
        all_numbers(v),
        n <= v.len(),
        0 <= k,
    ensures
        0 <= first_greatest(v, n),
        n > 0 ==> first_greatest(v, n) < n,
        !is_nan(greatest(v, n)),
        !less(greatest(v, n), 0),
        k < n ==> !less(greatest(v, n), v[k]),
        less(0, greatest(v, n)) ==> n > 0 && v[first_greatest(v, n)] == greatest(v, n),
    decreases n,
{
    if n > 0 {
        lemma_likeliest(v, (n - 1) as nat, k);
        assert(!is_nan(v[n - 1]));
        if k < n {
            assert(!is_nan(v[k]));
        }
    }
}

/// Earlier tokens are penalised once for each time they occur, in order; those outside the values are
/// left out.
pub proof fn law_every_occurrence_is_penalised(a: Seq<u32>, token: u32, n: int)
    requires
        0 <= n <= usize::MAX,
    ensures
        places_of_past(a.push(token), n) == if token < n {
            places_of_past(a, n).push(token as usize)
        } else {
            places_of_past(a, n)
        },
        places_of_past(Seq::empty(), n).len() == 0,
{
    assert(a.push(token).drop_last() =~= a);
}

} // verus!
