//! Generating text: what is done next, one step at a time.
//!
//! The run is a state machine.  It says what to do, the caller does it and comes back for the
//! next step; a failure ends the run on the caller's side.
use vstd::prelude::*;

verus! {

/// What to do next.
#[derive(Debug, Clone, Copy, PartialEq, Eq, Structural)]
pub enum GenAction {
    /// A pass over one token on scratch caches, to get up to speed.
    WarmUp { token: u32 },
    /// A pass over the whole prompt.
    PrefillBatch,
    /// A pass over one token.
    Forward { token: u32, pos: usize, on_device: bool },
    /// Shorten the caches where asked to, then draw a token.
    Sample { shorten: bool },
    /// Show the token, then pass it on.
    Emit { token: u32, pos: usize, on_device: bool },
    /// Report the run, with the rate where it ended by itself.
    Finish { tokens: usize, with_rate: bool },
    /// End without a report.
    Stop,
}

/// Where a run is.
#[derive(Debug, Clone, Copy, PartialEq, Eq, Structural)]
pub enum Phase {
    Begin,
    Warm,
    Prefill(usize),
    Prefilled,
    Sampling,
    Emitted,
    Ended,
}

/// Positions that stay in the caches when they are shortened.
pub const KEEP_POSITIONS: usize = 64;

/// A run of text generation.
pub struct Generation {
    pub input: Vec<u32>,
    pub max_new_tokens: usize,
    pub max_seq_len: usize,
    pub on_device: bool,
    pub phase: Phase,
    pub generated: usize,
    pub total_tokens: usize,
    pub past: Vec<u32>,
}

/// Whether a run is on the device: it has all layers, and can take all weights.
pub fn runs_on_device(gpu_layers: usize, n_layers: usize, device: bool, takes_all: bool) -> (r: bool)
    ensures
        r == (gpu_layers >= n_layers && device && takes_all),
{
    gpu_layers >= n_layers && device && takes_all
}

/// State of a run, as numbers.
pub struct GenModel {
    pub input: Seq<u32>,
    pub max_new_tokens: usize,
    pub max_seq_len: usize,
    pub on_device: bool,
    pub phase: Phase,
    pub generated: usize,
    pub total_tokens: usize,
    pub past: Seq<u32>,
}

/// The same state in another phase.
pub open spec fn in_phase(m: GenModel, phase: Phase) -> GenModel {
    GenModel { phase, ..m }
}

/// The next step of prefilling from prompt token `i` on.
pub open spec fn prefill_step(m: GenModel, i: usize, cancelled: bool) -> (GenModel, GenAction) {
    if cancelled {
        (in_phase(m, Phase::Ended), GenAction::Stop)
    } else {
        (
            in_phase(m, Phase::Prefill((i + 1) as usize)),
            GenAction::Forward { token: m.input[i as int], pos: i, on_device: m.on_device },
        )
    }
}

/// The state once the prompt has been passed on.
pub open spec fn prefilled(m: GenModel) -> GenModel {
    GenModel {
        total_tokens: (m.total_tokens + m.input.len()) as usize,
        past: m.past.push(m.input.last()),
        ..m
    }
}

/// The next step of drawing tokens.
pub open spec fn draw_step(m: GenModel, cancelled: bool) -> (GenModel, GenAction) {
    if m.generated < m.max_new_tokens {
        if cancelled {
            (
                in_phase(m, Phase::Ended),
                GenAction::Finish { tokens: m.total_tokens, with_rate: false },
            )
        } else {
            (
                in_phase(m, Phase::Sampling),
                GenAction::Sample { shorten: m.input.len() + m.generated >= m.max_seq_len },
            )
        }
    } else {
        (
            in_phase(m, Phase::Ended),
            GenAction::Finish { tokens: m.total_tokens, with_rate: true },
        )
    }
}

/// What follows when the last action is done.
pub open spec fn next_step(m: GenModel, cancelled: bool) -> (GenModel, GenAction) {
    match m.phase {
        Phase::Begin => if cancelled {
            (in_phase(m, Phase::Ended), GenAction::Stop)
        } else if m.on_device {
            prefill_step(m, 0, cancelled)
        } else {
            (in_phase(m, Phase::Warm), GenAction::WarmUp { token: m.input[0] })
        },
        Phase::Warm => if m.input.len() > 1 {
            (in_phase(m, Phase::Prefilled), GenAction::PrefillBatch)
        } else {
            prefill_step(m, 0, cancelled)
        },
        Phase::Prefill(i) => if i < m.input.len() {
            prefill_step(m, i, cancelled)
        } else {
            draw_step(prefilled(m), cancelled)
        },
        Phase::Prefilled => draw_step(prefilled(m), cancelled),
        Phase::Emitted => draw_step(
            GenModel { total_tokens: (m.total_tokens + 1) as usize, ..m },
            cancelled,
        ),
        _ => (in_phase(m, Phase::Ended), GenAction::Stop),
    }
}

/// What follows when a token was drawn.
pub open spec fn drawn_step(m: GenModel, token: u32, eos_id: u32, control: bool) -> (
    GenModel,
    GenAction,
) {
    if token == eos_id || control {
        (
            in_phase(m, Phase::Ended),
            GenAction::Finish { tokens: m.total_tokens, with_rate: true },
        )
    } else {
        (
            GenModel {
                past: m.past.push(token),
                generated: (m.generated + 1) as usize,
                phase: Phase::Emitted,
                ..m
            },
            GenAction::Emit {
                token,
                pos: (m.input.len() + m.generated) as usize,
                on_device: m.on_device,
            },
        )
    }
}

impl View for Generation {
    type V = GenModel;

    open spec fn view(&self) -> GenModel {
        GenModel {
            input: self.input@,
            max_new_tokens: self.max_new_tokens,
            max_seq_len: self.max_seq_len,
            on_device: self.on_device,
            phase: self.phase,
            generated: self.generated,
            total_tokens: self.total_tokens,
            past: self.past@,
        }
    }
}

/// What holds between the steps of a run: the prompt is not empty, no more tokens are drawn than
/// asked for, every token is counted once it was passed on, and the penalty list is the end of the
/// prompt and what was drawn.
pub open spec fn run_inv(m: GenModel) -> bool {
    &&& 0 < m.input.len()
    &&& m.input.len() + m.max_new_tokens <= usize::MAX
    &&& m.generated <= m.max_new_tokens
    &&& match m.phase {
        Phase::Begin | Phase::Warm => m.generated == 0 && m.total_tokens == 0 && m.past.len() == 0,
        Phase::Prefill(i) => m.generated == 0 && m.total_tokens == 0 && m.past.len() == 0 && i
            <= m.input.len(),
        Phase::Prefilled => m.generated == 0 && m.total_tokens == 0 && m.past.len() == 0,
        Phase::Sampling => m.generated < m.max_new_tokens && m.total_tokens == m.input.len()
            + m.generated && m.past.len() == 1 + m.generated && m.past[0] == m.input.last(),
        Phase::Emitted => 0 < m.generated && m.total_tokens + 1 == m.input.len() + m.generated
            && m.past.len() == 1 + m.generated && m.past[0] == m.input.last(),
        Phase::Ended => true,
    }
}

impl Generation {
    /// Starts a run over a tokenised prompt.
    pub fn start(
        input: Vec<u32>,
        max_new_tokens: usize,
        max_seq_len: usize,
        on_device: bool,
    ) -> (r: Result<Generation, String>)
        requires
            input@.len() + max_new_tokens <= usize::MAX,
        ensures
            match r {
                Ok(g) => input@.len() > 0 && run_inv(g@) && g@ == (GenModel {
                    input: input@,
                    max_new_tokens,
                    max_seq_len,
                    on_device,
                    phase: Phase::Begin,
                    generated: 0,
                    total_tokens: 0,
                    past: Seq::empty(),
                }),
                Err(e) => input@.len() == 0 && e@ == "Empty prompt after tokenization"@,
            },
    {
        if input.len() == 0 {
            return Err("Empty prompt after tokenization".to_owned());
        }
        Ok(
            Generation {
                input,
                max_new_tokens,
                max_seq_len,
                on_device,
                phase: Phase::Begin,
                generated: 0,
                total_tokens: 0,
                past: Vec::new(),
            },
        )
    }

    fn prefill(&mut self, i: usize, cancelled: bool) -> (r: GenAction)
        requires
            i < old(self).input@.len(),
        ensures
            (final(self)@, r) == prefill_step(old(self)@, i, cancelled),
    {
        if cancelled {
            self.phase = Phase::Ended;
            GenAction::Stop
        } else {
            assert(i < self.input.len());
            self.phase = Phase::Prefill(i + 1);
            GenAction::Forward { token: self.input[i], pos: i, on_device: self.on_device }
        }
    }

    fn note_prefilled(&mut self)
        requires
            0 < old(self).input@.len(),
            old(self).total_tokens + old(self).input@.len() <= usize::MAX,
        ensures
            final(self)@ == prefilled(old(self)@),
    {
        self.total_tokens = self.total_tokens + self.input.len();
        let last: u32 = self.input[self.input.len() - 1];
        self.past.push(last);
    }

    fn draw(&mut self, cancelled: bool) -> (r: GenAction)
        requires
            old(self).input@.len() + old(self).generated <= usize::MAX,
        ensures
            (final(self)@, r) == draw_step(old(self)@, cancelled),
    {
        if self.generated < self.max_new_tokens {
            if cancelled {
                self.phase = Phase::Ended;
                GenAction::Finish { tokens: self.total_tokens, with_rate: false }
            } else {
                self.phase = Phase::Sampling;
                GenAction::Sample {
                    shorten: self.input.len() + self.generated >= self.max_seq_len,
                }
            }
        } else {
            self.phase = Phase::Ended;
            GenAction::Finish { tokens: self.total_tokens, with_rate: true }
        }
    }

    /// What to do next, once the last action is done.
    pub fn next(&mut self, cancelled: bool) -> (r: GenAction)
        requires
            run_inv(old(self)@),
            !(old(self).phase is Sampling),
        ensures
            run_inv(final(self)@),
            (final(self)@, r) == next_step(old(self)@, cancelled),
    {
        match self.phase {
            Phase::Begin => if cancelled {
                self.phase = Phase::Ended;
                GenAction::Stop
            } else if self.on_device {
                self.prefill(0, cancelled)
            } else {
                self.phase = Phase::Warm;
                GenAction::WarmUp { token: self.input[0] }
            },
            Phase::Warm => if self.input.len() > 1 {
                self.phase = Phase::Prefilled;
                GenAction::PrefillBatch
            } else {
                self.prefill(0, cancelled)
            },
            Phase::Prefill(i) => if i < self.input.len() {
                self.prefill(i, cancelled)
            } else {
                self.note_prefilled();
                self.draw(cancelled)
            },
            Phase::Prefilled => {
                self.note_prefilled();
                self.draw(cancelled)
            },
            Phase::Emitted => {
                self.total_tokens = self.total_tokens + 1;
                self.draw(cancelled)
            },
            _ => {
                self.phase = Phase::Ended;
                GenAction::Stop
            },
        }
    }

    /// What to do with a drawn token; `control` says whether it is a control token.
    pub fn drawn(&mut self, token: u32, eos_id: u32, control: bool) -> (r: GenAction)
        requires
            run_inv(old(self)@),
            old(self).phase is Sampling,
        ensures
            run_inv(final(self)@),
            (final(self)@, r) == drawn_step(old(self)@, token, eos_id, control),
    {
        if token == eos_id || control {
            self.phase = Phase::Ended;
            GenAction::Finish { tokens: self.total_tokens, with_rate: true }
        } else {
            let pos: usize = self.input.len() + self.generated;
            self.past.push(token);
            self.generated = self.generated + 1;
            self.phase = Phase::Emitted;
            GenAction::Emit { token, pos, on_device: self.on_device }
        }
    }
}

/// A run ends: whatever is drawn, each round of drawing and emitting brings it nearer to the number
/// of tokens that was asked for.
pub proof fn law_each_round_counts(m: GenModel, token: u32, eos_id: u32, control: bool)
    requires
        run_inv(m),
        m.phase is Sampling,
    ensures
        ({
            let (after, action) = drawn_step(m, token, eos_id, control);
            ||| after.phase is Ended && action is Finish
            ||| after.generated == m.generated + 1 && after.generated <= m.max_new_tokens
        }),
{
}

/// The end-of-text token and control tokens are never shown, and end the run.
pub proof fn law_end_tokens_are_not_shown(m: GenModel, token: u32, eos_id: u32, control: bool)
    requires
        run_inv(m),
        m.phase is Sampling,
        token == eos_id || control,
    ensures
        drawn_step(m, token, eos_id, control).0.phase is Ended,
        !(drawn_step(m, token, eos_id, control).1 is Emit),
{
}

/// Tokens are passed on at consecutive positions: the prompt from zero on, then each token that is
/// shown directly behind the one before.
pub proof fn law_positions_are_consecutive(m: GenModel, token: u32, eos_id: u32)
    requires
        run_inv(m),
        m.phase is Sampling,
        token != eos_id,
    ensures
        drawn_step(m, token, eos_id, false).1 == (GenAction::Emit {
            token,
            pos: m.total_tokens,
            on_device: m.on_device,
        }),
{
}

/// A run that is cancelled while drawing reports the tokens so far without a rate; one that is
/// cancelled before its prompt was passed on reports nothing.
pub proof fn law_cancelling(m: GenModel)
    requires
        run_inv(m),
    ensures
        m.phase is Begin ==> next_step(m, true).1 is Stop,
        m.phase is Emitted && m.generated < m.max_new_tokens ==> next_step(m, true).1 == (
        GenAction::Finish { tokens: (m.total_tokens + 1) as usize, with_rate: false }),
{
}

} // verus!
