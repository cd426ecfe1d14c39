//! Choosing experts.
use vstd::prelude::*;

use crate::rank::{keys_of, order_keys, rank_descending, ranks};
use crate::sampler::all_numbers;

verus! {

/// The experts with the greatest gate values, the greatest first, equal ones in their own order.
/// Gate values are the bit patterns of single-precision numbers.
pub fn select_experts(gate: &[u32], n_experts_per_tok: usize) -> (r: Vec<usize>)
    requires
        all_numbers(gate@),
        n_experts_per_tok <= gate@.len(),
    ensures
        exists|order: Seq<usize>| #[trigger]
            ranks(keys_of(gate@), order) && r@ == order.take(n_experts_per_tok as int),
{
    let keys = order_keys(gate);
    let order = rank_descending(keys.as_slice());
    let mut out: Vec<usize> = Vec::new();
    let mut i: usize = 0;
    while i < n_experts_per_tok
        invariant
            i <= n_experts_per_tok <= order@.len(),
            out@ == order@.take(i as int),
        decreases n_experts_per_tok - i,
    {
        out.push(order[i]);
        i += 1;
        assert(out@ =~= order@.take(i as int));
    }
    assert(ranks(keys_of(gate@), order@));
    out
}

/// No expert is chosen twice, and none that was left out has a greater gate value.
pub proof fn law_chosen_experts_are_best(gate: Seq<u32>, order: Seq<usize>, i: int, j: int)
    requires
        ranks(keys_of(gate), order),
        0 <= i < j < order.len(),
    ensures
        order[i] != order[j],
        keys_of(gate)[order[i] as int] >= keys_of(gate)[order[j] as int],
{
    assert(crate::rank::ahead(keys_of(gate), order[i] as int, order[j] as int));
}

} // verus!
