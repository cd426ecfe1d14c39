//! The steps of drawing a token.
//!
//! A token is drawn by working off a list of steps on the scores.  Most of them are arithmetic on
//! single-precision values, which is done elsewhere; which steps there are and in what order is
//! decided here.
use vstd::prelude::*;

use crate::engine::request::SamplerConfig;
use crate::sampler::{
    all_numbers, first_greatest, greedy_of, place_of_rank, plan_of, plan_sampling,
    without_below,
};

verus! {

/// One step of drawing a token.
#[derive(Debug, Clone, Copy, PartialEq, Eq, Structural)]
pub enum SampleStep {
    /// Start the random numbers anew from a seed.
    Reseed(u64),
    /// Lower the scores of earlier tokens.
    Penalise,
    /// Take the greatest score.
    Greedy,
    /// Divide the scores by the temperature.
    Temperature,
    /// Keep the greatest scores, so many of them.
    TopK(usize),
    /// Keep the scores near the greatest.
    MinP,
    /// Turn scores into probabilities.
    Softmax,
    /// Keep the likeliest part of the distribution.
    TopP,
    /// Keep the typical part of the distribution.
    TypicalP,
    /// Make the probabilities add up to one again.
    Normalise,
    /// Draw a random number and take the token that it hits.
    Draw,
}

/// A step where it takes effect, else none.
pub open spec fn step_if(applies: bool, step: SampleStep) -> Seq<SampleStep> {
    if applies {
        seq![step]
    } else {
        Seq::empty()
    }
}

/// The steps that turn scores into a distribution and draw from it.  What limits the scores stands
/// before the softmax, what limits the probabilities behind it.
pub open spec fn drawing_steps(c: SamplerConfig, n: usize) -> Seq<SampleStep> {
    let p = plan_of(c, n);
    seq![SampleStep::Temperature] + step_if(p.top_k, SampleStep::TopK(c.top_k)) + step_if(
        p.min_p,
        SampleStep::MinP,
    ) + seq![SampleStep::Softmax] + step_if(p.top_p, SampleStep::TopP) + step_if(
        p.typical_p,
        SampleStep::TypicalP,
    ) + seq![SampleStep::Normalise, SampleStep::Draw]
}

/// The steps of drawing one of `n` tokens: a seed takes effect first, the penalty comes before the
/// greedy choice, and at temperature zero nothing is drawn.
pub open spec fn steps_of(c: SamplerConfig, n: usize) -> Seq<SampleStep> {
    let p = plan_of(c, n);
    step_if(p.reseed, SampleStep::Reseed(c.seed)) + seq![SampleStep::Penalise] + if p.greedy {
        seq![SampleStep::Greedy]
    } else {
        drawing_steps(c, n)
    }
}

/// Steps behind `start` and `done` stand behind both.
proof fn lemma_behind(start: Seq<SampleStep>, done: Seq<SampleStep>, more: Seq<SampleStep>)
    ensures
        start + done + more == start + (done + more),
{
    assert(start + done + more =~= start + (done + more));
}

fn push_if(
    out: &mut Vec<SampleStep>,
    applies: bool,
    step: SampleStep,
    Ghost(start): Ghost<Seq<SampleStep>>,
    Ghost(done): Ghost<Seq<SampleStep>>,
)
    requires
        old(out)@ == start + done,
    ensures
        final(out)@ == start + (done + step_if(applies, step)),
{
    if applies {
        out.push(step);
    }
    assert(out@ =~= start + done + step_if(applies, step));
    proof {
        lemma_behind(start, done, step_if(applies, step));
    }
}

fn push_drawing_steps(out: &mut Vec<SampleStep>, config: &SamplerConfig, n: usize)
    ensures
        final(out)@ == old(out)@ + drawing_steps(*config, n),
{
    let p = plan_sampling(config, n);
    let ghost start = out@;
    out.push(SampleStep::Temperature);
    let ghost d0 = seq![SampleStep::Temperature];
    assert(out@ =~= start + d0);
    push_if(out, p.top_k, SampleStep::TopK(config.top_k), Ghost(start), Ghost(d0));
    let ghost d1 = d0 + step_if(p.top_k, SampleStep::TopK(config.top_k));
    push_if(out, p.min_p, SampleStep::MinP, Ghost(start), Ghost(d1));
    let ghost d2 = d1 + step_if(p.min_p, SampleStep::MinP);
    out.push(SampleStep::Softmax);
    let ghost d3 = d2 + seq![SampleStep::Softmax];
    assert(out@ =~= start + d3);
    push_if(out, p.top_p, SampleStep::TopP, Ghost(start), Ghost(d3));
    let ghost d4 = d3 + step_if(p.top_p, SampleStep::TopP);
    push_if(out, p.typical_p, SampleStep::TypicalP, Ghost(start), Ghost(d4));
    let ghost d5 = d4 + step_if(p.typical_p, SampleStep::TypicalP);
    out.push(SampleStep::Normalise);
    out.push(SampleStep::Draw);
    assert(out@ =~= start + (d5 + seq![SampleStep::Normalise, SampleStep::Draw]));
}

/// The steps of drawing one of `n` tokens.
pub fn sampling_steps(config: &SamplerConfig, n: usize) -> (r: Vec<SampleStep>)
    ensures
        r@ == steps_of(*config, n),
{
    let p = plan_sampling(config, n);
    let mut out: Vec<SampleStep> = Vec::new();
    if p.reseed {
        out.push(SampleStep::Reseed(config.seed));
    }
    out.push(SampleStep::Penalise);
    let ghost front = step_if(p.reseed, SampleStep::Reseed(config.seed)) + seq![
        SampleStep::Penalise,
    ];
    assert(out@ =~= front);
    if p.greedy {
        out.push(SampleStep::Greedy);
        assert(out@ =~= front + seq![SampleStep::Greedy]);
    } else {
        push_drawing_steps(&mut out, config, n);
    }
    out
}

/// The arithmetic and the random numbers that a draw uses, whatever they are: what a step makes of
/// the values and the earlier tokens, the generator that a seed starts, the next number of a
/// generator, and the first place whose cumulated probability exceeds a number.
#[verifier::reject_recursive_types(G)]
pub struct Numbers<G> {
    pub values: spec_fn(SampleStep, Seq<u32>, Seq<u32>) -> Seq<u32>,
    pub seeded: spec_fn(u64) -> G,
    pub next: spec_fn(G) -> (u32, G),
    pub hit: spec_fn(Seq<u32>, u32) -> Option<int>,
}

impl<G> Numbers<G> {
    /// Steps keep the number of values, and a hit is one of them.
    pub open spec fn fits(self) -> bool {
        &&& forall|s: SampleStep, v: Seq<u32>, past: Seq<u32>|
            (#[trigger] (self.values)(s, v, past)).len() == v.len()
        &&& forall|v: Seq<u32>, x: u32|
            (#[trigger] (self.hit)(v, x)) matches Some(i) ==> 0 <= i < v.len()
    }
}

/// What comes of a draw: the token, the values and the generator as they are left.
pub struct Drawn<G> {
    pub token: Option<int>,
    pub values: Seq<u32>,
    pub generator: G,
}

/// What working off `steps` on `v` comes to.
pub open spec fn drawn<G>(
    steps: Seq<SampleStep>,
    v: Seq<u32>,
    past: Seq<u32>,
    g: G,
    a: Numbers<G>,
) -> Drawn<G>
    decreases steps.len(),
{
    if steps.len() == 0 {
        Drawn { token: None, values: v, generator: g }
    } else {
        let rest = steps.drop_first();
        match steps.first() {
            SampleStep::Reseed(seed) => drawn(rest, v, past, (a.seeded)(seed), a),
            SampleStep::Greedy => Drawn {
                token: Some(greedy_of(v, v.len())),
                values: v,
                generator: g,
            },
            SampleStep::Draw => {
                let (x, next) = (a.next)(g);
                let token = match (a.hit)(v, x) {
                    Some(i) => i,
                    None => first_greatest(v, v.len()),
                };
                Drawn { token: Some(token), values: v, generator: next }
            },
            SampleStep::TopK(k) if all_numbers(v) => drawn(rest, top_k_of(v, k), past, g, a),
            step => drawn(rest, (a.values)(step, v, past), past, g, a),
        }
    }
}

/// The values that are left where the `k` greatest are kept.
pub open spec fn top_k_of(v: Seq<u32>, k: usize) -> Seq<u32> {
    if 0 < k < v.len() {
        without_below(v, v[place_of_rank(v, k - 1)])
    } else {
        v
    }
}

/// A seed settles the draw: whatever state the random numbers were in before, the same scores,
/// configuration and earlier tokens give the same token and leave the same values and the same
/// generator behind.  The token is one of the scores.
pub proof fn law_seed_settles_the_draw<G>(
    c: SamplerConfig,
    v: Seq<u32>,
    past: Seq<u32>,
    g: G,
    h: G,
    a: Numbers<G>,
)
    requires
        c.seed != 0,
        0 < v.len() <= usize::MAX,
        a.fits(),
    ensures
        ({
            let steps = steps_of(c, v.len() as usize);
            let (x, y) = (drawn(steps, v, past, g, a), drawn(steps, v, past, h, a));
            &&& x == y
            &&& x.token matches Some(t) && 0 <= t < v.len()
        }),
{
    let steps = steps_of(c, v.len() as usize);
    assert(steps.first() == SampleStep::Reseed(c.seed));
    law_token_is_one_of_the_scores(c, v, past, g, a);
}

/// Every draw ends with a token, and it is one of the scores.
pub proof fn law_token_is_one_of_the_scores<G>(
    c: SamplerConfig,
    v: Seq<u32>,
    past: Seq<u32>,
    g: G,
    a: Numbers<G>,
)
    requires
        0 < v.len() <= usize::MAX,
        a.fits(),
    ensures
        drawn(steps_of(c, v.len() as usize), v, past, g, a).token matches Some(t) && 0 <= t
            < v.len(),
{
    let n = v.len() as usize;
    let steps = steps_of(c, n);
    if plan_of(c, n).greedy {
        assert(steps.last() == SampleStep::Greedy);
    } else {
        assert(drawing_steps(c, n).last() == SampleStep::Draw);
        assert(steps.last() == SampleStep::Draw);
    }
    lemma_token(steps, v, past, g, a);
}

proof fn lemma_token<G>(
    steps: Seq<SampleStep>,
    v: Seq<u32>,
    past: Seq<u32>,
    g: G,
    a: Numbers<G>,
)
    requires
        0 < v.len(),
        a.fits(),
        steps.len() > 0,
        steps.last() is Greedy || steps.last() is Draw,
    ensures
        drawn(steps, v, past, g, a).token matches Some(t) && 0 <= t < v.len(),
    decreases steps.len(),
{
    let rest = steps.drop_first();
    if steps.len() > 1 {
        assert(rest.last() == steps.last());
    }
    match steps.first() {
        SampleStep::Reseed(seed) => {
            lemma_token(rest, v, past, (a.seeded)(seed), a);
        },
        SampleStep::Greedy => {
            lemma_greedy_inside(v, v.len());
        },
        SampleStep::Draw => {
            lemma_greatest_inside(v, v.len());
        },
        SampleStep::TopK(k) if all_numbers(v) => {
            lemma_token(rest, top_k_of(v, k), past, g, a);
        },
        step => {
            assert((a.values)(step, v, past).len() == v.len());
            lemma_token(rest, (a.values)(step, v, past), past, g, a);
        },
    }
}

proof fn lemma_greedy_inside(v: Seq<u32>, n: nat)
    requires
        0 < n,
    ensures
        0 <= greedy_of(v, n) < n,
    decreases n,
{
    if n > 1 {
        lemma_greedy_inside(v, (n - 1) as nat);
    }
}

proof fn lemma_greatest_inside(v: Seq<u32>, n: nat)
    ensures
        0 <= first_greatest(v, n),
        first_greatest(v, n) < n || first_greatest(v, n) == 0,
    decreases n,
{
    if n > 0 {
        lemma_greatest_inside(v, (n - 1) as nat);
    }
}

/// When a step has its turn.
pub open spec fn turn(step: SampleStep) -> int {
    match step {
        SampleStep::Reseed(_) => 0,
        SampleStep::Penalise => 1,
        SampleStep::Greedy => 2,
        SampleStep::Temperature => 3,
        SampleStep::TopK(_) => 4,
        SampleStep::MinP => 5,
        SampleStep::Softmax => 6,
        SampleStep::TopP => 7,
        SampleStep::TypicalP => 8,
        SampleStep::Normalise => 9,
        SampleStep::Draw => 10,
    }
}

/// Steps in the order of their turns, all from `lo` on and before `hi`.
pub open spec fn in_turn(s: Seq<SampleStep>, lo: int, hi: int) -> bool {
    &&& forall|i: int| 0 <= i < s.len() ==> lo <= turn(#[trigger] s[i]) < hi
    &&& forall|i: int, j: int| 0 <= i < j < s.len() ==> turn(#[trigger] s[i]) < turn(#[trigger] s[j])
}

proof fn lemma_in_turn(a: Seq<SampleStep>, b: Seq<SampleStep>, lo: int, mid: int, hi: int)
    requires
        in_turn(a, lo, mid),
        in_turn(b, mid, hi),
        lo <= mid <= hi,
    ensures
        in_turn(a + b, lo, hi),
{
    let c = a + b;
    assert forall|i: int| 0 <= i < c.len() implies lo <= turn(#[trigger] c[i]) < hi by {
        if i < a.len() {
            assert(c[i] == a[i]);
        } else {
            assert(c[i] == b[i - a.len()]);
        }
    }
    assert forall|i: int, j: int| 0 <= i < j < c.len() implies turn(#[trigger] c[i]) < turn(
        #[trigger] c[j],
    ) by {
        if j < a.len() {
            assert(c[i] == a[i] && c[j] == a[j]);
        } else if i >= a.len() {
            assert(c[i] == b[i - a.len()] && c[j] == b[j - a.len()]);
        } else {
            assert(c[i] == a[i] && c[j] == b[j - a.len()]);
        }
    }
}

proof fn lemma_either(a: Seq<SampleStep>, b: Seq<SampleStep>, x: SampleStep)
    ensures
        (a + b).contains(x) <==> a.contains(x) || b.contains(x),
{
    let c = a + b;
    if a.contains(x) {
        let i = choose|i: int| 0 <= i < a.len() && a[i] == x;
        assert(c[i] == x);
    }
    if b.contains(x) {
        let i = choose|i: int| 0 <= i < b.len() && b[i] == x;
        assert(c[a.len() + i] == x);
    }
}

/// Every step has its turn: the seed first, then the penalty, then the greedy choice, or the temperature,
/// the limits on scores, the softmax, the limits on probabilities, and the draw.  A step is there exactly
/// where it takes effect.
pub proof fn law_steps_have_their_turns(c: SamplerConfig, n: usize, x: SampleStep)
    ensures
        in_turn(steps_of(c, n), 0, 11),
        ({
            let (p, there) = (plan_of(c, n), steps_of(c, n).contains(x));
            match x {
                SampleStep::Reseed(seed) => there <==> p.reseed && seed == c.seed,
                SampleStep::Penalise => there,
                SampleStep::Greedy => there <==> p.greedy,
                SampleStep::TopK(k) => there <==> !p.greedy && p.top_k && k == c.top_k,
                SampleStep::MinP => there <==> !p.greedy && p.min_p,
                SampleStep::TopP => there <==> !p.greedy && p.top_p,
                SampleStep::TypicalP => there <==> !p.greedy && p.typical_p,
                _ => there <==> !p.greedy,
            }
        }),
{
    let p = plan_of(c, n);
    let d0 = seq![SampleStep::Temperature];
    let e1 = step_if(p.top_k, SampleStep::TopK(c.top_k));
    let e2 = step_if(p.min_p, SampleStep::MinP);
    let e3 = seq![SampleStep::Softmax];
    let e4 = step_if(p.top_p, SampleStep::TopP);
    let e5 = step_if(p.typical_p, SampleStep::TypicalP);
    let e6 = seq![SampleStep::Normalise, SampleStep::Draw];
    let (d1, d2) = (d0 + e1, d0 + e1 + e2);
    let (d3, d4) = (d2 + e3, d2 + e3 + e4);
    let d5 = d4 + e5;
    lemma_in_turn(d0, e1, 3, 4, 5);
    lemma_in_turn(d1, e2, 3, 5, 6);
    lemma_in_turn(d2, e3, 3, 6, 7);
    lemma_in_turn(d3, e4, 3, 7, 8);
    lemma_in_turn(d4, e5, 3, 8, 9);
    lemma_in_turn(d5, e6, 3, 9, 11);
    lemma_either(d0, e1, x);
    lemma_either(d1, e2, x);
    lemma_either(d2, e3, x);
    lemma_either(d3, e4, x);
    lemma_either(d4, e5, x);
    lemma_either(d5, e6, x);
    let f0 = step_if(p.reseed, SampleStep::Reseed(c.seed));
    let f1 = seq![SampleStep::Penalise];
    lemma_in_turn(f0, f1, 0, 1, 2);
    lemma_either(f0, f1, x);
    let rest = if p.greedy {
        seq![SampleStep::Greedy]
    } else {
        drawing_steps(c, n)
    };
    assert(in_turn(rest, 2, 11));
    lemma_in_turn(f0 + f1, rest, 0, 2, 11);
    lemma_either(f0 + f1, rest, x);
    lemma_lists(x, p.reseed, SampleStep::Reseed(c.seed));
    lemma_lists(x, p.top_k, SampleStep::TopK(c.top_k));
    lemma_lists(x, p.min_p, SampleStep::MinP);
    lemma_lists(x, p.top_p, SampleStep::TopP);
    lemma_lists(x, p.typical_p, SampleStep::TypicalP);
    lemma_lists(x, true, SampleStep::Temperature);
    lemma_lists(x, true, SampleStep::Softmax);
    lemma_lists(x, true, SampleStep::Penalise);
    lemma_lists(x, true, SampleStep::Greedy);
    lemma_lists(x, true, SampleStep::Normalise);
    lemma_lists(x, true, SampleStep::Draw);
    assert(e6 =~= seq![SampleStep::Normalise] + seq![SampleStep::Draw]);
    lemma_either(seq![SampleStep::Normalise], seq![SampleStep::Draw], x);
}

proof fn lemma_lists(x: SampleStep, applies: bool, step: SampleStep)
    ensures
        step_if(applies, step).contains(x) <==> applies && x == step,
        seq![step].contains(x) <==> x == step,
{
    assert(seq![step][0] == step);
    if applies {
        assert(step_if(applies, step)[0] == step);
    }
}

} // verus!
