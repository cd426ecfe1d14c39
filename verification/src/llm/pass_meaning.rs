//! What the steps of a pass do to the buffers.
//!
//! Arithmetic is left open: normalising, multiplying, rotating and attending are any functions.  What
//! is fixed is which values go into each of them and where its result goes.
use vstd::prelude::*;

use crate::llm::plan::{Names, PassKind, Span, Step};
use crate::llm::shape::{Buf, Shape};
use crate::llm::weight::{weight_name, Weight};
use crate::text::decimal;

verus! {

/// The activation of a product: the values, the values that were quantised for it with the number of
/// their rows, if any, and the layer that it is counted to, if any.
pub struct Activation<E> {
    pub values: Seq<E>,
    pub quantised: Option<(int, Seq<E>)>,
    pub layer: Option<usize>,
}

/// The arithmetic of a pass, over elements `E` and caches `C`.  Weights go by the names under which
/// they are stored.
#[verifier::reject_recursive_types(E)]
#[verifier::reject_recursive_types(C)]
pub struct Arithmetic<E, C> {
    /// The embedding of a token.
    pub embed: spec_fn(u32) -> Seq<E>,
    /// Rows, normalised with a weight.
    pub norm: spec_fn(Seq<char>, Seq<E>, int) -> Seq<E>,
    /// An activation of so many tokens, multiplied with a weight of so many rows and columns.
    pub product: spec_fn(Seq<char>, Activation<E>, int, int, int) -> Seq<E>,
    /// The heads of so many tokens, normalised with a weight.
    pub head_norm: spec_fn(Seq<char>, Seq<E>, int, int) -> Seq<E>,
    /// The heads of so many tokens, rotated by their positions from the first on.
    pub rope: spec_fn(Seq<E>, int, int, int) -> Seq<E>,
    /// A cache with the keys and values of so many tokens, from a position on.
    pub store: spec_fn(C, Seq<E>, Seq<E>, int, int) -> C,
    /// Queries of one token, attending to so many positions of a cache.
    pub attend: spec_fn(C, Seq<E>, int) -> Seq<E>,
    /// Queries of so many tokens, each attending to itself and those before it.
    pub attend_batch: spec_fn(C, Seq<E>, int) -> Seq<E>,
    pub plus: spec_fn(E, E) -> E,
    /// The activated gate times the rest.
    pub silu_mul: spec_fn(Seq<E>, Seq<E>) -> Seq<E>,
    /// What the experts of a layer make of a state.
    pub experts: spec_fn(usize, Seq<E>) -> Seq<E>,
    /// The average of the states of so many tokens.
    pub average: spec_fn(Seq<E>, int) -> Seq<E>,
    pub zero: E,
}

/// The first `n` elements.
pub open spec fn first<E>(x: Seq<E>, n: int) -> Seq<E> {
    Seq::new(n as nat, |i: int| x[i])
}

impl<E, C> Arithmetic<E, C> {
    pub open spec fn normed(self, w: Seq<char>, x: Seq<E>, rows: int) -> Seq<E> {
        first((self.norm)(w, x, rows), x.len() as int)
    }

    pub open spec fn times(
        self,
        w: Seq<char>,
        x: Activation<E>,
        tokens: int,
        rows: int,
        cols: int,
    ) -> Seq<E> {
        first((self.product)(w, x, tokens, rows, cols), tokens * rows)
    }

    pub open spec fn heads_normed(self, w: Seq<char>, x: Seq<E>, heads: int, tokens: int) -> Seq<E> {
        first((self.head_norm)(w, x, heads, tokens), x.len() as int)
    }

    pub open spec fn rotated(self, x: Seq<E>, heads: int, tokens: int, pos: int) -> Seq<E> {
        first((self.rope)(x, heads, tokens, pos), x.len() as int)
    }

    pub open spec fn added(self, x: Seq<E>, y: Seq<E>) -> Seq<E> {
        Seq::new(x.len(), |i: int| (self.plus)(x[i], y[i]))
    }

    pub open spec fn activated(self, gate: Seq<E>, up: Seq<E>) -> Seq<E> {
        first((self.silu_mul)(gate, up), gate.len() as int)
    }
}

/// Buffers, caches and the rest of what steps act on.
#[verifier::reject_recursive_types(E)]
#[verifier::reject_recursive_types(C)]
pub struct PassState<E, C> {
    pub bufs: spec_fn(Buf, int) -> E,
    pub quantised: (int, Seq<E>),
    pub caches: spec_fn(usize) -> C,
    /// How often it was asked whether to go on.
    pub polls: nat,
    /// How many positions the caches were last said to hold.
    pub len: Option<int>,
}

impl<E, C> PassState<E, C> {
    /// `len` elements of a buffer.
    pub open spec fn read(self, buf: Buf, start: int, len: int) -> Seq<E> {
        Seq::new(len as nat, |i: int| (self.bufs)(buf, start + i))
    }

    pub open spec fn part(self, s: Span) -> Seq<E> {
        self.read(s.buf, s.start as int, s.len as int)
    }

    /// With other values in a part of a buffer.
    pub open spec fn put(self, buf: Buf, start: int, len: int, x: Seq<E>) -> Self {
        let old = self.bufs;
        PassState {
            bufs: |b: Buf, i: int|
                if b == buf && start <= i < start + len {
                    x[i - start]
                } else {
                    old(b, i)
                },
            ..self
        }
    }

    pub open spec fn put_part(self, s: Span, x: Seq<E>) -> Self {
        self.put(s.buf, s.start as int, s.len as int, x)
    }

    /// With another cache for a layer.
    pub open spec fn put_cache(self, layer: usize, c: C) -> Self {
        let old = self.caches;
        PassState {
            caches: |l: usize|
                if l == layer {
                    c
                } else {
                    old(l)
                },
            ..self
        }
    }

    pub proof fn lemma_read_put(
        self,
        buf: Buf,
        start: int,
        len: int,
        x: Seq<E>,
        b: Buf,
        from: int,
        n: int,
    )
        requires
            0 <= len,
        ensures
            self.put(buf, start, len, x).read(buf, start, len) == first(x, len),
            b != buf ==> self.put(buf, start, len, x).read(b, from, n) == self.read(b, from, n),
    {
        assert(self.put(buf, start, len, x).read(buf, start, len) =~= first(x, len));
        if b != buf {
            assert(self.put(buf, start, len, x).read(b, from, n) =~= self.read(b, from, n));
        }
    }
}

/// What one step does.
pub open spec fn does<E, C>(
    st: PassState<E, C>,
    step: Step,
    a: Arithmetic<E, C>,
    s: Shape,
) -> PassState<E, C> {
    match step {
        Step::CheckCancel => PassState { polls: st.polls + 1, ..st },
        Step::Embed { slot, token } => st.put(
            Buf::Hidden,
            slot * s.d,
            s.d as int,
            first((a.embed)(token), s.d as int),
        ),
        Step::Copy { from, to } => st.put_part(to, st.part(from)),
        Step::Norm { weight, input, output, rows } => st.put_part(
            output,
            a.normed(weight_name(weight), st.part(input), rows as int),
        ),
        Step::Quantize { input, rows } => PassState {
            quantised: (rows as int, st.part(input)),
            ..st
        },
        Step::Qkv { layer, input, q, k, v } => {
            let x = Activation {
                values: st.part(input),
                quantised: Some(st.quantised),
                layer: Some(layer),
            };
            let cols = input.len as int;
            st.put_part(q, a.times(weight_name(Weight::AttnQ(layer)), x, 1, q.len as int, cols)).put_part(
                k,
                a.times(weight_name(Weight::AttnK(layer)), x, 1, k.len as int, cols),
            ).put_part(v, a.times(weight_name(Weight::AttnV(layer)), x, 1, v.len as int, cols))
        },
        Step::GateUp { layer, input, gate, up } => {
            let x = Activation {
                values: st.part(input),
                quantised: Some(st.quantised),
                layer: Some(layer),
            };
            let cols = input.len as int;
            st.put_part(
                gate,
                a.times(weight_name(Weight::FfnGate(layer)), x, 1, gate.len as int, cols),
            ).put_part(up, a.times(weight_name(Weight::FfnUp(layer)), x, 1, up.len as int, cols))
        },
        Step::Matmul { weight, layer, input, output, reuse } => {
            let x = Activation {
                values: st.part(input),
                quantised: if reuse {
                    Some((1int, st.part(input)))
                } else {
                    None
                },
                layer: Some(layer),
            };
            st.put_part(output, a.times(weight_name(weight), x, 1, output.len as int, input.len as int))
        },
        Step::MatmulBatch { weight, input, output, n_rows, n_cols, tokens } => {
            let x = Activation {
                values: st.part(input),
                quantised: Some(st.quantised),
                layer: None,
            };
            st.put_part(
                output,
                a.times(weight_name(weight), x, tokens as int, n_rows as int, n_cols as int),
            )
        },
        Step::HeadNorm { weight, buf, heads, tokens } => {
            let n = tokens * (heads * s.head_dim);
            st.put(
                buf,
                0,
                n,
                a.heads_normed(weight_name(weight), st.read(buf, 0, n), heads as int, tokens as int),
            )
        },
        Step::Rope { buf, heads, tokens, first_pos } => {
            let n = tokens * (heads * s.head_dim);
            st.put(
                buf,
                0,
                n,
                a.rotated(st.read(buf, 0, n), heads as int, tokens as int, first_pos as int),
            )
        },
        Step::WriteKv { layer, tokens, first_pos } => {
            let n = tokens * s.nkv();
            st.put_cache(
                layer,
                (a.store)(
                    (st.caches)(layer),
                    st.read(Buf::KHeads, 0, n),
                    st.read(Buf::VHeads, 0, n),
                    tokens as int,
                    first_pos as int,
                ),
            )
        },
        Step::Clear { span } => st.put_part(span, Seq::new(span.len as nat, |i: int| a.zero)),
        Step::Attend { layer, seq_len } => st.put(
            Buf::AttnOut,
            0,
            s.nq(),
            (a.attend)((st.caches)(layer), st.read(Buf::QHeads, 0, s.nq()), seq_len as int),
        ),
        Step::AttendBatch { layer, tokens } => st.put(
            Buf::AttnOut,
            0,
            tokens * s.nq(),
            (a.attend_batch)(
                (st.caches)(layer),
                st.read(Buf::QHeads, 0, tokens * s.nq()),
                tokens as int,
            ),
        ),
        Step::Add { into, from } => st.put_part(into, a.added(st.part(into), st.part(from))),
        Step::SiluMul { gate, up, output } => st.put_part(
            output,
            a.activated(st.part(gate), st.part(up)),
        ),
        Step::Experts { layer } => st.put(
            Buf::QBuf,
            0,
            s.d as int,
            (a.experts)(layer, st.read(Buf::Residual, 0, s.d as int)),
        ),
        Step::SetLen { len } => PassState { len: Some(len as int), ..st },
        Step::Average { tokens } => st.put(
            Buf::Pooled,
            0,
            s.d as int,
            (a.average)(st.read(Buf::States, 0, tokens * s.d), tokens as int),
        ),
        Step::Fail(_) => st,
    }
}

/// What a list of steps does, from front to back.
pub open spec fn run<E, C>(
    st: PassState<E, C>,
    steps: Seq<Step>,
    a: Arithmetic<E, C>,
    s: Shape,
) -> PassState<E, C>
    decreases steps.len(),
{
    if steps.len() == 0 {
        st
    } else {
        does(run(st, steps.drop_last(), a, s), steps.last(), a, s)
    }
}

pub proof fn lemma_run_push<E, C>(
    st: PassState<E, C>,
    steps: Seq<Step>,
    x: Step,
    a: Arithmetic<E, C>,
    s: Shape,
)
    ensures
        run(st, steps.push(x), a, s) == does(run(st, steps, a, s), x, a, s),
{
    assert(steps.push(x).drop_last() =~= steps);
}

pub proof fn lemma_run_chain<E, C>(
    st: PassState<E, C>,
    x: Seq<Step>,
    y: Seq<Step>,
    a: Arithmetic<E, C>,
    s: Shape,
)
    ensures
        run(st, x + y, a, s) == run(run(st, x, a, s), y, a, s),
    decreases y.len(),
{
    if y.len() == 0 {
        assert(x + y =~= x);
    } else {
        lemma_run_chain(st, x, y.drop_last(), a, s);
        assert((x + y).drop_last() =~= x + y.drop_last());
        assert((x + y).last() == y.last());
    }
}

/// What a layer leaves behind.
pub struct LayerOut<E, C> {
    pub hidden: Seq<E>,
    pub cache: C,
}

/// A layer: attention on the normalised state is added to the state, and then the feed-forward part of
/// the state normalised again.
pub open spec fn layer_out<E, C>(
    a: Arithmetic<E, C>,
    s: Shape,
    n: Names,
    layer: usize,
    kind: PassKind,
    tokens: int,
    pos: usize,
    seq_len: usize,
    h: Seq<E>,
    cache: C,
) -> LayerOut<E, C> {
    let named = |part: Seq<char>| "blk."@ + decimal(layer as nat) + part;
    let single = kind is Single;
    let place = if single {
        Some(layer)
    } else {
        None
    };
    let alone = |x: Seq<E>|
        Activation {
            values: x,
            quantised: if !single || s.d >= 2560 {
                Some((tokens, x))
            } else {
                None
            },
            layer: place,
        };
    let shared = |x: Seq<E>| Activation { values: x, quantised: Some((tokens, x)), layer: place };
    let n1 = a.normed(named(".attn_norm.weight"@), h, tokens);
    let q = a.times(named(".attn_q.weight"@), shared(n1), tokens, s.nq(), s.d as int);
    let k = a.times(named(".attn_k.weight"@), shared(n1), tokens, s.nkv(), s.d as int);
    let v = a.times(named(".attn_v.weight"@), shared(n1), tokens, s.nkv(), s.d as int);
    let q2 = if n.tensors.contains(named(".attn_q_norm.weight"@)) {
        a.heads_normed(named(".attn_q_norm.weight"@), q, s.n_heads as int, tokens)
    } else {
        q
    };
    let k2 = if n.tensors.contains(named(".attn_k_norm.weight"@)) {
        a.heads_normed(named(".attn_k_norm.weight"@), k, s.n_kv_heads as int, tokens)
    } else {
        k
    };
    let q3 = a.rotated(q2, s.n_heads as int, tokens, pos as int);
    let k3 = a.rotated(k2, s.n_kv_heads as int, tokens, pos as int);
    let held = (a.store)(cache, k3, v, tokens, pos as int);
    let attended = first(
        if single {
            (a.attend)(held, q3, seq_len as int)
        } else {
            (a.attend_batch)(held, q3, tokens)
        },
        tokens * s.nq(),
    );
    let h1 = a.added(
        h,
        a.times(named(".attn_output.weight"@), alone(attended), tokens, s.d as int, s.nq()),
    );
    let n2 = a.normed(named(".ffn_norm.weight"@), h1, tokens);
    if single && s.n_experts > 0 {
        LayerOut { hidden: h1, cache: held }
    } else {
        let gate = a.times(named(".ffn_gate.weight"@), shared(n2), tokens, s.ffn as int, s.d as int);
        let up = a.times(named(".ffn_up.weight"@), shared(n2), tokens, s.ffn as int, s.d as int);
        let down = a.times(
            named(".ffn_down.weight"@),
            alone(a.activated(gate, up)),
            tokens,
            s.d as int,
            s.ffn as int,
        );
        LayerOut { hidden: a.added(h1, down), cache: held }
    }
}

} // verus!
