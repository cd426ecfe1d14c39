//! The noise that an image starts from.
use vstd::prelude::*;

verus! {

pub const MULTIPLIER: u64 = 0x9e37_79b9_7f4a_7c15;

/// The generator's state after `n` steps.
pub open spec fn state_after(seed: u64, n: nat) -> u64
    decreases n,
{
    if n == 0 {
        seed.wrapping_mul(MULTIPLIER).wrapping_add(12345)
    } else {
        state_after(seed, (n - 1) as nat).wrapping_mul(MULTIPLIER)
    }
}

/// The upper half of a state.
pub open spec fn upper_half(s: u64) -> u32 {
    (s as int / 0x1_0000_0000) as u32
}

/// The first `n` random words of a seed.
pub fn latent_noise(seed: u64, n: usize) -> (r: Vec<u32>)
    ensures
        r@ == Seq::new(n as nat, |i: int| upper_half(state_after(seed, (i + 1) as nat))),
{
    let mut state: u64 = seed.wrapping_mul(MULTIPLIER).wrapping_add(12345);
    let mut out: Vec<u32> = Vec::new();
    let mut i: usize = 0;
    while i < n
        invariant
            i <= n,
            state == state_after(seed, i as nat),
            out@.len() == i,
            forall|k: int|
                0 <= k < i ==> out@[k] == upper_half(state_after(seed, (k + 1) as nat)),
        decreases n - i,
    {
        state = state.wrapping_mul(MULTIPLIER);
        out.push((state / 0x1_0000_0000) as u32);
        i += 1;
    }
    assert(out@ =~= Seq::new(n as nat, |i: int| upper_half(state_after(seed, (i + 1) as nat))));
    out
}

/// The same seed gives the same noise, and a longer run begins with the shorter one.
pub proof fn law_noise_is_reproducible(seed: u64, n: nat, m: nat)
    requires
        n <= m,
    ensures
        Seq::new(n, |i: int| upper_half(state_after(seed, (i + 1) as nat))) == Seq::new(
            m,
            |i: int| upper_half(state_after(seed, (i + 1) as nat)),
        ).take(n as int),
{
    assert(Seq::new(n, |i: int| upper_half(state_after(seed, (i + 1) as nat))) =~= Seq::new(
        m,
        |i: int| upper_half(state_after(seed, (i + 1) as nat)),
    ).take(n as int));
}

} // verus!
