//! What a run of text generation does, from beginning to end.
use vstd::prelude::*;

use crate::llm::generate::{drawn_step, next_step, run_inv, GenAction, GenModel, Phase};

verus! {

/// The state after `k` steps that nothing interrupts, and what was done in them.
pub open spec fn after(m: GenModel, k: nat) -> (GenModel, Seq<GenAction>)
    decreases k,
{
    if k == 0 {
        (m, Seq::empty())
    } else {
        let (before, done) = after(m, (k - 1) as nat);
        let (next, action) = next_step(before, false);
        (next, done.push(action))
    }
}

/// On the device the prompt is passed on token by token, each at its own position, in order.
pub proof fn law_device_takes_the_prompt_in_order(m: GenModel, k: nat)
    requires
        run_inv(m),
        m.phase is Begin,
        m.on_device,
        k <= m.input.len(),
    ensures
        after(m, k).1 == Seq::new(
            k,
            |i: int| GenAction::Forward { token: m.input[i], pos: i as usize, on_device: true },
        ),
        k > 0 ==> after(m, k).0 == (GenModel { phase: Phase::Prefill(k as usize), ..m }),
    decreases k,
{
    if k > 0 {
        law_device_takes_the_prompt_in_order(m, (k - 1) as nat);
    }
    assert(after(m, k).1 =~= Seq::new(
        k,
        |i: int| GenAction::Forward { token: m.input[i], pos: i as usize, on_device: true },
    ));
}

/// On the processor a prompt of several tokens is passed on at once, one of a single token by itself at
/// position zero; either way behind a pass to warm up.
pub proof fn law_processor_takes_the_prompt(m: GenModel)
    requires
        run_inv(m),
        m.phase is Begin,
        !m.on_device,
    ensures
        after(m, 2).1 == seq![
            GenAction::WarmUp { token: m.input[0] },
            if m.input.len() > 1 {
                GenAction::PrefillBatch
            } else {
                GenAction::Forward { token: m.input[0], pos: 0, on_device: false }
            },
        ],
{
    reveal_with_fuel(after, 3);
    assert(after(m, 2).1 =~= seq![
        GenAction::WarmUp { token: m.input[0] },
        if m.input.len() > 1 {
            GenAction::PrefillBatch
        } else {
            GenAction::Forward { token: m.input[0], pos: 0, on_device: false }
        },
    ]);
}

/// Behind the prompt a token is drawn, or the run ends where none was asked for.  Every token of the
/// prompt is counted, its last one is remembered, and the caches are shortened first where they are
/// full.
pub proof fn law_drawing_begins_behind_the_prompt(m: GenModel)
    requires
        run_inv(m),
        m.phase is Prefilled || m.phase == Phase::Prefill(m.input.len() as usize),
    ensures
        ({
            let (next, action) = next_step(m, false);
            &&& action == if m.max_new_tokens > 0 {
                GenAction::Sample { shorten: m.input.len() >= m.max_seq_len }
            } else {
                GenAction::Finish { tokens: m.input.len() as usize, with_rate: true }
            }
            &&& next.total_tokens == m.input.len()
            &&& next.past == seq![m.input.last()]
            &&& next.generated == 0
        }),
{
    assert(m.past.push(m.input.last()) =~= seq![m.input.last()]);
}

/// A round: a drawn token that ends nothing is shown and passed on directly behind all tokens before it,
/// and remembered.  Then the next one is drawn, with the caches shortened where they are full, unless as
/// many were shown as were asked for.
pub proof fn law_round_of_drawing(m: GenModel, token: u32, eos_id: u32)
    requires
        run_inv(m),
        m.phase is Sampling,
        token != eos_id,
    ensures
        ({
            let (shown, emit) = drawn_step(m, token, eos_id, false);
            let (next, action) = next_step(shown, false);
            let tokens = m.input.len() + m.generated;
            &&& emit == (GenAction::Emit { token, pos: tokens as usize, on_device: m.on_device })
            &&& shown.past == m.past.push(token)
            &&& action == if m.generated + 1 < m.max_new_tokens {
                GenAction::Sample { shorten: tokens + 1 >= m.max_seq_len }
            } else {
                GenAction::Finish { tokens: (tokens + 1) as usize, with_rate: true }
            }
            &&& next.generated == m.generated + 1
            &&& next.past == m.past.push(token)
            &&& next.input == m.input && next.max_new_tokens == m.max_new_tokens
        }),
{
}

/// A token that ends the run is not counted: the report is of the tokens before it.
pub proof fn law_last_token_is_not_counted(m: GenModel, token: u32, eos_id: u32, control: bool)
    requires
        run_inv(m),
        m.phase is Sampling,
        token == eos_id || control,
    ensures
        drawn_step(m, token, eos_id, control).1 == (GenAction::Finish {
            tokens: (m.input.len() + m.generated) as usize,
            with_rate: true,
        }),
{
}

/// Whoever cancels is heard at every step: nothing more is passed on or drawn.
pub proof fn law_cancelled_runs_stop(m: GenModel)
    requires
        run_inv(m),
        !(m.phase is Sampling),
        !(m.phase is Warm && m.input.len() > 1),
    ensures
        next_step(m, true).1 is Stop || next_step(m, true).1 is Finish,
        next_step(m, true).0.phase is Ended,
{
}

} // verus!
