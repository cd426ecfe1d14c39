//! The steps of a forward pass.
//!
//! A pass is a list of steps over named buffers.  It is worked off from front to back; a step that
//! fails ends it.  Which steps there are depends on the dimensions, on which weights the model has
//! and on which normalisation weights could be read.
use vstd::hash_map::StringHashMap;
use vstd::prelude::*;

use crate::llm::shape::{Buf, Shape};
use crate::llm::tensor::TensorEntry;
use crate::llm::weight::{weight_name, Weight};
use crate::text::concat2;

verus! {

/// Part of a buffer.
#[derive(Debug, Clone, Copy, PartialEq, Eq, Structural)]
pub struct Span {
    pub buf: Buf,
    pub start: usize,
    pub len: usize,
}

/// Why a pass cannot go on.
#[derive(Debug, Clone, Copy, PartialEq, Eq, Structural)]
pub enum Fault {
    MissingEmbedding,
    MissingNorm(Weight),
    NoTokens,
}

/// The text of a fault.
pub open spec fn fault_text(f: Fault) -> Seq<char> {
    match f {
        Fault::MissingEmbedding => "Missing token_embd.weight"@,
        Fault::MissingNorm(w) => "Norm weight not in cache: "@ + weight_name(w),
        Fault::NoTokens => "Empty token sequence"@,
    }
}

impl Fault {
    /// The text of the fault.
    pub fn message(&self) -> (r: String)
        ensures
            r@ == fault_text(*self),
    {
        match *self {
            Fault::MissingEmbedding => "Missing token_embd.weight".to_owned(),
            Fault::MissingNorm(w) => {
                let name = w.name();
                concat2("Norm weight not in cache: ", name.as_str())
            },
            Fault::NoTokens => "Empty token sequence".to_owned(),
        }
    }
}

/// One step of a pass.
#[derive(Debug, Clone, Copy, PartialEq, Eq, Structural)]
pub enum Step {
    /// Stop here where the run was cancelled.
    CheckCancel,
    /// Put the embedding of a token into a row of the hidden state.
    Embed { slot: usize, token: u32 },
    Copy { from: Span, to: Span },
    /// Normalise each of `rows` rows.
    Norm { weight: Weight, input: Span, output: Span, rows: usize },
    /// Quantise each of `rows` rows for the products that follow.
    Quantize { input: Span, rows: usize },
    Qkv { layer: usize, input: Span, q: Span, k: Span, v: Span },
    GateUp { layer: usize, input: Span, gate: Span, up: Span },
    /// A product; `reuse` says that the activation is quantised into a shared buffer first.
    Matmul { weight: Weight, layer: usize, input: Span, output: Span, reuse: bool },
    MatmulBatch {
        weight: Weight,
        input: Span,
        output: Span,
        n_rows: usize,
        n_cols: usize,
        tokens: usize,
    },
    /// Normalise each head of each token.
    HeadNorm { weight: Weight, buf: Buf, heads: usize, tokens: usize },
    /// Rotate each head of each token by its position.
    Rope { buf: Buf, heads: usize, tokens: usize, first_pos: usize },
    /// Store keys and values of each token.
    WriteKv { layer: usize, tokens: usize, first_pos: usize },
    Clear { span: Span },
    Attend { layer: usize, seq_len: usize },
    AttendBatch { layer: usize, tokens: usize },
    Add { into: Span, from: Span },
    SiluMul { gate: Span, up: Span, output: Span },
    Experts { layer: usize },
    /// Note in every cache how many positions it holds.
    SetLen { len: usize },
    /// Average the normalised states of all tokens.
    Average { tokens: usize },
    Fail(Fault),
}

/// What a pass is for.
#[derive(Debug, Clone, Copy, PartialEq, Eq, Structural)]
pub enum PassKind {
    /// The next token of a sequence.
    Single,
    /// All tokens of a prompt at once.
    Batch,
    /// The states of all tokens of a text.
    Encode,
}

/// Steps, and whether the pass goes on behind them.
pub struct Part {
    pub steps: Seq<Step>,
    pub ok: bool,
}

/// What the names of a model's tensors and of its readable normalisation weights are.
pub struct Names {
    pub tensors: Set<Seq<char>>,
    pub norms: Set<Seq<char>>,
}

pub open spec fn going(steps: Seq<Step>) -> Part {
    Part { steps, ok: true }
}

pub open spec fn failing(f: Fault) -> Part {
    Part { steps: seq![Step::Fail(f)], ok: false }
}

/// `a`, then `b` where the pass goes on.
pub open spec fn chain(a: Part, b: Part) -> Part {
    if a.ok {
        Part { steps: a.steps + b.steps, ok: b.ok }
    } else {
        a
    }
}

/// Steps behind a chain stand behind its first part and its second.
proof fn lemma_chain(start: Seq<Step>, a: Part, b: Part)
    ensures
        a.ok ==> start + chain(a, b).steps == start + a.steps + b.steps,
{
    assert(start + (a.steps + b.steps) =~= start + a.steps + b.steps);
}

pub open spec fn span_of(buf: Buf, start: int, len: int) -> Span {
    Span { buf, start: start as usize, len: len as usize }
}

/// The first `tokens` rows of a buffer.
pub open spec fn rows_of(s: Shape, buf: Buf, tokens: int) -> Span {
    span_of(buf, 0, tokens * s.width(buf))
}

/// The first `tokens * d` elements of a buffer.
pub open spec fn model_rows(s: Shape, buf: Buf, tokens: int) -> Span {
    span_of(buf, 0, tokens * s.d)
}

/// The weight where it is readable, else the end of the pass.
pub open spec fn with_norm(n: Names, w: Weight, steps: Seq<Step>) -> Part {
    if n.norms.contains(weight_name(w)) {
        going(steps)
    } else {
        failing(Fault::MissingNorm(w))
    }
}

/// Normalise the hidden state of `tokens` tokens into the residual.
#[verifier::opaque]
pub open spec fn norm_part(s: Shape, n: Names, w: Weight, tokens: int) -> Part {
    chain(
        going(
            seq![
                Step::Copy {
                    from: rows_of(s, Buf::Hidden, tokens),
                    to: rows_of(s, Buf::NormTmp, tokens),
                },
            ],
        ),
        with_norm(
            n,
            w,
            seq![
                Step::Norm {
                    weight: w,
                    input: rows_of(s, Buf::NormTmp, tokens),
                    output: rows_of(s, Buf::Residual, tokens),
                    rows: tokens as usize,
                },
            ],
        ),
    )
}

/// A product with the activations of all tokens.
pub open spec fn batch_step(s: Shape, w: Weight, input: Buf, output: Buf, rows: int, cols: int, tokens: int)
 -> Step {
    Step::MatmulBatch {
        weight: w,
        input: rows_of(s, input, tokens),
        output: span_of(output, 0, tokens * rows),
        n_rows: rows as usize,
        n_cols: cols as usize,
        tokens: tokens as usize,
    }
}

/// Queries, keys and values of a layer.
#[verifier::opaque]
pub open spec fn qkv_steps(s: Shape, layer: usize, kind: PassKind, tokens: int) -> Seq<Step> {
    let products = if kind is Single {
        seq![
            Step::Quantize { input: rows_of(s, Buf::Residual, 1), rows: 1 },
            Step::Qkv {
                layer,
                input: rows_of(s, Buf::Residual, 1),
                q: rows_of(s, Buf::QBuf, 1),
                k: rows_of(s, Buf::KBuf, 1),
                v: rows_of(s, Buf::VBuf, 1),
            },
        ]
    } else {
        seq![
            Step::Quantize { input: rows_of(s, Buf::Residual, tokens), rows: tokens as usize },
            batch_step(s, Weight::AttnQ(layer), Buf::Residual, Buf::QBuf, s.nq(), s.d as int, tokens),
            batch_step(s, Weight::AttnK(layer), Buf::Residual, Buf::KBuf, s.nkv(), s.d as int, tokens),
            batch_step(s, Weight::AttnV(layer), Buf::Residual, Buf::VBuf, s.nkv(), s.d as int, tokens),
        ]
    };
    products + seq![
        Step::Copy { from: rows_of(s, Buf::QBuf, tokens), to: rows_of(s, Buf::QHeads, tokens) },
        Step::Copy { from: rows_of(s, Buf::KBuf, tokens), to: rows_of(s, Buf::KHeads, tokens) },
        Step::Copy { from: rows_of(s, Buf::VBuf, tokens), to: rows_of(s, Buf::VHeads, tokens) },
    ]
}

/// Normalise heads, where the model has a weight for that.
#[verifier::opaque]
pub open spec fn head_norm_part(n: Names, w: Weight, buf: Buf, heads: usize, tokens: int) -> Part {
    if n.tensors.contains(weight_name(w)) {
        with_norm(
            n,
            w,
            seq![Step::HeadNorm { weight: w, buf, heads, tokens: tokens as usize }],
        )
    } else {
        going(Seq::empty())
    }
}

/// Rotate, store, attend, project and add.
#[verifier::opaque]
pub open spec fn attend_steps(
    s: Shape,
    layer: usize,
    kind: PassKind,
    tokens: int,
    pos: usize,
    seq_len: usize,
) -> Seq<Step> {
    let t = tokens as usize;
    let placed = seq![
        Step::Rope { buf: Buf::QHeads, heads: s.n_heads, tokens: t, first_pos: pos },
        Step::Rope { buf: Buf::KHeads, heads: s.n_kv_heads, tokens: t, first_pos: pos },
        Step::WriteKv { layer, tokens: t, first_pos: pos },
    ];
    let attended = if kind is Single {
        seq![
            Step::Clear { span: rows_of(s, Buf::AttnOut, 1) },
            Step::Attend { layer, seq_len },
            Step::Matmul {
                weight: Weight::AttnOutput(layer),
                layer,
                input: rows_of(s, Buf::AttnOut, 1),
                output: model_rows(s, Buf::QBuf, 1),
                reuse: s.d >= 2560,
            },
        ]
    } else {
        seq![
            Step::AttendBatch { layer, tokens: t },
            Step::Quantize { input: rows_of(s, Buf::AttnOut, tokens), rows: t },
            batch_step(s, Weight::AttnOutput(layer), Buf::AttnOut, Buf::QBuf, s.d as int, s.nq(), tokens),
        ]
    };
    placed + attended + seq![
        Step::Add { into: rows_of(s, Buf::Hidden, tokens), from: model_rows(s, Buf::QBuf, tokens) },
    ]
}

/// The feed-forward part of a layer.
#[verifier::opaque]
pub open spec fn ffn_steps(s: Shape, layer: usize, kind: PassKind, tokens: int) -> Seq<Step> {
    let t = tokens as usize;
    let added = seq![
        Step::Add { into: rows_of(s, Buf::Hidden, tokens), from: model_rows(s, Buf::QBuf, tokens) },
    ];
    let joined = seq![
        Step::SiluMul {
            gate: rows_of(s, Buf::Gate, tokens),
            up: rows_of(s, Buf::Up, tokens),
            output: rows_of(s, Buf::FfnTmp, tokens),
        },
    ];
    if kind is Single {
        if s.n_experts > 0 {
            seq![Step::Experts { layer }]
        } else {
            seq![
                Step::Quantize { input: rows_of(s, Buf::Residual, 1), rows: 1 },
                Step::GateUp {
                    layer,
                    input: rows_of(s, Buf::Residual, 1),
                    gate: rows_of(s, Buf::Gate, 1),
                    up: rows_of(s, Buf::Up, 1),
                },
            ] + joined + seq![
                Step::Matmul {
                    weight: Weight::FfnDown(layer),
                    layer,
                    input: rows_of(s, Buf::FfnTmp, 1),
                    output: model_rows(s, Buf::QBuf, 1),
                    reuse: s.d >= 2560,
                },
            ] + added
        }
    } else {
        seq![
            Step::Quantize { input: rows_of(s, Buf::Residual, tokens), rows: t },
            batch_step(s, Weight::FfnGate(layer), Buf::Residual, Buf::Gate, s.ffn as int, s.d as int, tokens),
            batch_step(s, Weight::FfnUp(layer), Buf::Residual, Buf::Up, s.ffn as int, s.d as int, tokens),
        ] + joined + seq![
            Step::Quantize { input: rows_of(s, Buf::FfnTmp, tokens), rows: t },
            batch_step(s, Weight::FfnDown(layer), Buf::FfnTmp, Buf::QBuf, s.d as int, s.ffn as int, tokens),
        ] + added
    }
}

/// One layer.
pub open spec fn layer_part(
    s: Shape,
    n: Names,
    layer: usize,
    kind: PassKind,
    tokens: int,
    pos: usize,
    seq_len: usize,
) -> Part {
    let polled = if kind is Encode {
        going(Seq::empty())
    } else {
        going(seq![Step::CheckCancel])
    };
    let normed = chain(polled, norm_part(s, n, Weight::AttnNorm(layer), tokens));
    let projected = chain(normed, going(qkv_steps(s, layer, kind, tokens)));
    let q_normed = chain(
        projected,
        head_norm_part(n, Weight::AttnQNorm(layer), Buf::QHeads, s.n_heads, tokens),
    );
    let k_normed = chain(
        q_normed,
        head_norm_part(n, Weight::AttnKNorm(layer), Buf::KHeads, s.n_kv_heads, tokens),
    );
    let attended = chain(k_normed, going(attend_steps(s, layer, kind, tokens, pos, seq_len)));
    let ffn_normed = chain(attended, norm_part(s, n, Weight::FfnNorm(layer), tokens));
    chain(ffn_normed, going(ffn_steps(s, layer, kind, tokens)))
}

/// The layers from `from` on.
pub open spec fn layers_part(
    s: Shape,
    n: Names,
    from: usize,
    kind: PassKind,
    tokens: int,
    pos: usize,
    seq_len: usize,
) -> Part
    decreases s.n_layers - from,
{
    if from >= s.n_layers {
        going(Seq::empty())
    } else {
        chain(
            layer_part(s, n, from, kind, tokens, pos, seq_len),
            layers_part(s, n, (from + 1) as usize, kind, tokens, pos, seq_len),
        )
    }
}

/// The embeddings of a run of tokens.
pub open spec fn embed_part(n: Names, ids: Seq<u32>) -> Part {
    if n.tensors.contains(weight_name(Weight::TokenEmbd)) {
        going(Seq::new(ids.len(), |i: int| Step::Embed { slot: i as usize, token: ids[i] }))
    } else {
        failing(Fault::MissingEmbedding)
    }
}

/// Normalise row `i` of the hidden state into a row of the states.
pub open spec fn state_steps(s: Shape, tokens: int) -> Seq<Step>
    decreases tokens,
{
    if tokens <= 0 {
        Seq::empty()
    } else {
        let i = tokens - 1;
        state_steps(s, i) + seq![
            Step::Copy {
                from: span_of(Buf::Hidden, i * s.d, s.d as int),
                to: rows_of(s, Buf::NormTmp, 1),
            },
            Step::Norm {
                weight: Weight::OutputNorm,
                input: rows_of(s, Buf::NormTmp, 1),
                output: span_of(Buf::States, i * s.d, s.d as int),
                rows: 1,
            },
        ]
    }
}

/// What follows the layers.
pub open spec fn tail_part(s: Shape, n: Names, kind: PassKind, tokens: int, head: Weight) -> Part {
    let w = Weight::OutputNorm;
    let scored = seq![
        Step::Norm {
            weight: w,
            input: rows_of(s, Buf::NormTmp, 1),
            output: rows_of(s, Buf::Residual, 1),
            rows: 1,
        },
        Step::Matmul {
            weight: head,
            layer: s.n_layers,
            input: rows_of(s, Buf::Residual, 1),
            output: span_of(Buf::Logits, 0, s.vocab as int),
            reuse: kind is Single && s.d >= 2560,
        },
    ];
    let last_row = Step::Copy {
        from: span_of(Buf::Hidden, (tokens - 1) * s.d, s.d as int),
        to: rows_of(s, Buf::NormTmp, 1),
    };
    match kind {
        PassKind::Single => chain(going(seq![last_row]), with_norm(n, w, scored)),
        PassKind::Batch => chain(
            going(seq![Step::SetLen { len: tokens as usize }, last_row]),
            with_norm(n, w, scored),
        ),
        PassKind::Encode => with_norm(
            n,
            w,
            state_steps(s, tokens) + seq![Step::Average { tokens: tokens as usize }],
        ),
    }
}

/// A whole pass over `ids`, the first of which stands at `pos`, with `seq_len` positions attended
/// to where a single token is passed on.
pub open spec fn pass_part(
    s: Shape,
    n: Names,
    kind: PassKind,
    ids: Seq<u32>,
    pos: usize,
    seq_len: usize,
    head: Weight,
) -> Part {
    let tokens = ids.len() as int;
    if kind is Encode && tokens == 0 {
        failing(Fault::NoTokens)
    } else {
        let opened = if kind is Single {
            going(seq![Step::CheckCancel])
        } else {
            going(Seq::empty())
        };
        chain(
            chain(
                chain(opened, embed_part(n, ids)),
                layers_part(s, n, 0, kind, tokens, pos, seq_len),
            ),
            tail_part(s, n, kind, tokens, head),
        )
    }
}

/// The names that two tables hold.
pub open spec fn names_of(
    tensors: Map<Seq<char>, TensorEntry>,
    norms: Map<Seq<char>, bool>,
) -> Names {
    Names { tensors: tensors.dom(), norms: norms.dom() }
}

/// What a pass is planned for.
pub struct Planner<'a> {
    pub shape: Shape,
    pub tensors: &'a StringHashMap<TensorEntry>,
    pub norms: &'a StringHashMap<bool>,
    pub kind: PassKind,
    pub tokens: usize,
    pub pos: usize,
    pub seq_len: usize,
}

impl<'a> Planner<'a> {
    pub open spec fn names(&self) -> Names {
        names_of(self.tensors@, self.norms@)
    }

    pub open spec fn wf(&self) -> bool {
        &&& self.shape.fits(self.tokens as int)
        &&& 1 <= self.tokens
        &&& self.kind is Single ==> self.tokens == 1
    }

    fn rows(&self, buf: Buf) -> (r: Span)
        requires
            self.wf(),
        ensures
            r == rows_of(self.shape, buf, self.tokens as int),
    {
        let s = self.shape;
        let len: usize = match buf {
            Buf::Hidden | Buf::Residual | Buf::NormTmp | Buf::States => self.tokens * s.d,
            Buf::AttnOut | Buf::QBuf | Buf::QHeads => self.tokens * (s.n_heads * s.head_dim),
            Buf::KBuf | Buf::VBuf | Buf::KHeads | Buf::VHeads => self.tokens * (s.n_kv_heads
                * s.head_dim),
            Buf::Gate | Buf::Up | Buf::FfnTmp => self.tokens * s.ffn,
            _ => {
                assert(self.tokens * 0 == 0) by (nonlinear_arith);
                0
            },
        };
        Span { buf, start: 0, len }
    }

    fn model_rows(&self, buf: Buf) -> (r: Span)
        requires
            self.wf(),
        ensures
            r == model_rows(self.shape, buf, self.tokens as int),
    {
        Span { buf, start: 0, len: self.tokens * self.shape.d }
    }

    /// The first row of the model's width.
    fn one_row(&self, buf: Buf) -> (r: Span)
        ensures
            self.shape.width(buf) == self.shape.d ==> r == rows_of(self.shape, buf, 1),
    {
        assert(1 * self.shape.d == self.shape.d);
        Span { buf, start: 0, len: self.shape.d }
    }

    fn has_norm(&self, w: Weight) -> (r: bool)
        ensures
            r == self.names().norms.contains(weight_name(w)),
    {
        let name = w.name();
        self.norms.contains_key(name.as_str())
    }

    fn push_norm(&self, w: Weight, out: &mut Vec<Step>) -> (ok: bool)
        requires
            self.wf(),
        ensures
            ({
                let p = norm_part(self.shape, self.names(), w, self.tokens as int);
                final(out)@ == old(out)@ + p.steps && ok == p.ok
            }),
    {
        reveal(norm_part);
        out.push(Step::Copy { from: self.rows(Buf::Hidden), to: self.rows(Buf::NormTmp) });
        let ok = self.has_norm(w);
        if ok {
            out.push(
                Step::Norm {
                    weight: w,
                    input: self.rows(Buf::NormTmp),
                    output: self.rows(Buf::Residual),
                    rows: self.tokens,
                },
            );
        } else {
            out.push(Step::Fail(Fault::MissingNorm(w)));
        }
        proof {
            let p = norm_part(self.shape, self.names(), w, self.tokens as int);
            assert(out@ =~= old(out)@ + p.steps);
        }
        ok
    }

    fn batch_matmul(&self, w: Weight, input: Buf, output: Buf, n_rows: usize, n_cols: usize) -> (r:
        Step)
        requires
            self.wf(),
            self.tokens * n_rows <= usize::MAX,
        ensures
            r == batch_step(
                self.shape,
                w,
                input,
                output,
                n_rows as int,
                n_cols as int,
                self.tokens as int,
            ),
    {
        Step::MatmulBatch {
            weight: w,
            input: self.rows(input),
            output: Span { buf: output, start: 0, len: self.tokens * n_rows },
            n_rows,
            n_cols,
            tokens: self.tokens,
        }
    }

    fn push_qkv(&self, layer: usize, out: &mut Vec<Step>)
        requires
            self.wf(),
        ensures
            final(out)@ == old(out)@ + qkv_steps(
                self.shape,
                layer,
                self.kind,
                self.tokens as int,
            ),
    {
        reveal(qkv_steps);
        let s = self.shape;
        let nq: usize = s.n_heads * s.head_dim;
        let nkv: usize = s.n_kv_heads * s.head_dim;
        out.push(Step::Quantize { input: self.rows(Buf::Residual), rows: self.tokens });
        if let PassKind::Single = self.kind {
            out.push(
                Step::Qkv {
                    layer,
                    input: self.rows(Buf::Residual),
                    q: self.rows(Buf::QBuf),
                    k: self.rows(Buf::KBuf),
                    v: self.rows(Buf::VBuf),
                },
            );
        } else {
            out.push(self.batch_matmul(Weight::AttnQ(layer), Buf::Residual, Buf::QBuf, nq, s.d));
            out.push(self.batch_matmul(Weight::AttnK(layer), Buf::Residual, Buf::KBuf, nkv, s.d));
            out.push(self.batch_matmul(Weight::AttnV(layer), Buf::Residual, Buf::VBuf, nkv, s.d));
        }
        out.push(Step::Copy { from: self.rows(Buf::QBuf), to: self.rows(Buf::QHeads) });
        out.push(Step::Copy { from: self.rows(Buf::KBuf), to: self.rows(Buf::KHeads) });
        out.push(Step::Copy { from: self.rows(Buf::VBuf), to: self.rows(Buf::VHeads) });
        assert(out@ =~= old(out)@ + qkv_steps(self.shape, layer, self.kind, self.tokens as int));
    }

    fn push_head_norm(&self, w: Weight, buf: Buf, heads: usize, out: &mut Vec<Step>) -> (ok: bool)
        ensures
            ({
                let p = head_norm_part(self.names(), w, buf, heads, self.tokens as int);
                final(out)@ == old(out)@ + p.steps && ok == p.ok
            }),
    {
        reveal(head_norm_part);
        let name = w.name();
        let mut ok = true;
        if self.tensors.contains_key(name.as_str()) {
            ok = self.has_norm(w);
            if ok {
                out.push(Step::HeadNorm { weight: w, buf, heads, tokens: self.tokens });
            } else {
                out.push(Step::Fail(Fault::MissingNorm(w)));
            }
        }
        proof {
            let p = head_norm_part(self.names(), w, buf, heads, self.tokens as int);
            assert(out@ =~= old(out)@ + p.steps);
        }
        ok
    }

    fn push_attend(&self, layer: usize, out: &mut Vec<Step>)
        requires
            self.wf(),
        ensures
            final(out)@ == old(out)@ + attend_steps(
                self.shape,
                layer,
                self.kind,
                self.tokens as int,
                self.pos,
                self.seq_len,
            ),
    {
        reveal(attend_steps);
        let s = self.shape;
        let t: usize = self.tokens;
        let first_pos: usize = self.pos;
        out.push(Step::Rope { buf: Buf::QHeads, heads: s.n_heads, tokens: t, first_pos });
        out.push(Step::Rope { buf: Buf::KHeads, heads: s.n_kv_heads, tokens: t, first_pos });
        out.push(Step::WriteKv { layer, tokens: t, first_pos });
        if let PassKind::Single = self.kind {
            out.push(Step::Clear { span: self.rows(Buf::AttnOut) });
            out.push(Step::Attend { layer, seq_len: self.seq_len });
            out.push(
                Step::Matmul {
                    weight: Weight::AttnOutput(layer),
                    layer,
                    input: self.rows(Buf::AttnOut),
                    output: self.model_rows(Buf::QBuf),
                    reuse: s.reuses_quantised(),
                },
            );
        } else {
            let nq: usize = s.n_heads * s.head_dim;
            out.push(Step::AttendBatch { layer, tokens: t });
            out.push(Step::Quantize { input: self.rows(Buf::AttnOut), rows: t });
            out.push(
                self.batch_matmul(Weight::AttnOutput(layer), Buf::AttnOut, Buf::QBuf, s.d, nq),
            );
        }
        out.push(Step::Add { into: self.rows(Buf::Hidden), from: self.model_rows(Buf::QBuf) });
        assert(out@ =~= old(out)@ + attend_steps(
            self.shape,
            layer,
            self.kind,
            self.tokens as int,
            self.pos,
            self.seq_len,
        ));
    }

    fn push_ffn(&self, layer: usize, out: &mut Vec<Step>)
        requires
            self.wf(),
        ensures
            final(out)@ == old(out)@ + ffn_steps(
                self.shape,
                layer,
                self.kind,
                self.tokens as int,
            ),
    {
        reveal(ffn_steps);
        let s = self.shape;
        let t: usize = self.tokens;
        let joined = Step::SiluMul {
            gate: self.rows(Buf::Gate),
            up: self.rows(Buf::Up),
            output: self.rows(Buf::FfnTmp),
        };
        let added = Step::Add { into: self.rows(Buf::Hidden), from: self.model_rows(Buf::QBuf) };
        if let PassKind::Single = self.kind {
            if s.n_experts > 0 {
                out.push(Step::Experts { layer });
            } else {
                out.push(Step::Quantize { input: self.rows(Buf::Residual), rows: t });
                out.push(
                    Step::GateUp {
                        layer,
                        input: self.rows(Buf::Residual),
                        gate: self.rows(Buf::Gate),
                        up: self.rows(Buf::Up),
                    },
                );
                out.push(joined);
                out.push(
                    Step::Matmul {
                        weight: Weight::FfnDown(layer),
                        layer,
                        input: self.rows(Buf::FfnTmp),
                        output: self.model_rows(Buf::QBuf),
                        reuse: s.reuses_quantised(),
                    },
                );
                out.push(added);
            }
        } else {
            out.push(Step::Quantize { input: self.rows(Buf::Residual), rows: t });
            out.push(
                self.batch_matmul(Weight::FfnGate(layer), Buf::Residual, Buf::Gate, s.ffn, s.d),
            );
            out.push(self.batch_matmul(Weight::FfnUp(layer), Buf::Residual, Buf::Up, s.ffn, s.d));
            out.push(joined);
            out.push(Step::Quantize { input: self.rows(Buf::FfnTmp), rows: t });
            out.push(
                self.batch_matmul(Weight::FfnDown(layer), Buf::FfnTmp, Buf::QBuf, s.d, s.ffn),
            );
            out.push(added);
        }
        assert(out@ =~= old(out)@ + ffn_steps(self.shape, layer, self.kind, self.tokens as int));
    }

    fn push_layer(&self, layer: usize, out: &mut Vec<Step>) -> (ok: bool)
        requires
            self.wf(),
        ensures
            ({
                let p = layer_part(
                    self.shape,
                    self.names(),
                    layer,
                    self.kind,
                    self.tokens as int,
                    self.pos,
                    self.seq_len,
                );
                final(out)@ == old(out)@ + p.steps && ok == p.ok
            }),
    {
        let ghost (s, n, t) = (self.shape, self.names(), self.tokens as int);
        let ghost polled = if self.kind is Encode {
            going(Seq::empty())
        } else {
            going(seq![Step::CheckCancel])
        };
        let ghost start = out@;
        match self.kind {
            PassKind::Encode => {},
            _ => {
                out.push(Step::CheckCancel);
            },
        }
        assert(out@ =~= start + polled.steps);
        let ghost a = norm_part(s, n, Weight::AttnNorm(layer), t);
        let ghost p1 = chain(polled, a);
        let ok1 = self.push_norm(Weight::AttnNorm(layer), out);
        proof {
            lemma_chain(start, polled, a);
        }
        if !ok1 {
            return false;
        }
        let ghost b = going(qkv_steps(s, layer, self.kind, t));
        let ghost p2 = chain(p1, b);
        self.push_qkv(layer, out);
        proof {
            lemma_chain(start, p1, b);
        }
        let ghost c = head_norm_part(n, Weight::AttnQNorm(layer), Buf::QHeads, s.n_heads, t);
        let ghost p3 = chain(p2, c);
        let ok2 = self.push_head_norm(
            Weight::AttnQNorm(layer),
            Buf::QHeads,
            self.shape.n_heads,
            out,
        );
        proof {
            lemma_chain(start, p2, c);
        }
        if !ok2 {
            return false;
        }
        let ghost d = head_norm_part(n, Weight::AttnKNorm(layer), Buf::KHeads, s.n_kv_heads, t);
        let ghost p4 = chain(p3, d);
        let ok3 = self.push_head_norm(
            Weight::AttnKNorm(layer),
            Buf::KHeads,
            self.shape.n_kv_heads,
            out,
        );
        proof {
            lemma_chain(start, p3, d);
        }
        if !ok3 {
            return false;
        }
        let ghost e = going(attend_steps(s, layer, self.kind, t, self.pos, self.seq_len));
        let ghost p5 = chain(p4, e);
        self.push_attend(layer, out);
        proof {
            lemma_chain(start, p4, e);
        }
        let ghost f = norm_part(s, n, Weight::FfnNorm(layer), t);
        let ghost p6 = chain(p5, f);
        let ok4 = self.push_norm(Weight::FfnNorm(layer), out);
        proof {
            lemma_chain(start, p5, f);
        }
        if !ok4 {
            return false;
        }
        let ghost g = going(ffn_steps(s, layer, self.kind, t));
        self.push_ffn(layer, out);
        proof {
            lemma_chain(start, p6, g);
        }
        true
    }

    fn push_layers(&self, out: &mut Vec<Step>) -> (ok: bool)
        requires
            self.wf(),
        ensures
            ({
                let p = layers_part(
                    self.shape,
                    self.names(),
                    0,
                    self.kind,
                    self.tokens as int,
                    self.pos,
                    self.seq_len,
                );
                final(out)@ == old(out)@ + p.steps && ok == p.ok
            }),
    {
        let ghost (s, n, t) = (self.shape, self.names(), self.tokens as int);
        let ghost whole = layers_part(s, n, 0, self.kind, t, self.pos, self.seq_len);
        let mut layer: usize = 0;
        while layer < self.shape.n_layers
            invariant
                self.wf(),
                s == self.shape,
                n == self.names(),
                t == self.tokens,
                whole == layers_part(s, n, 0, self.kind, t, self.pos, self.seq_len),
                layer <= s.n_layers,
                ({
                    let rest = layers_part(s, n, layer, self.kind, t, self.pos, self.seq_len);
                    old(out)@ + whole.steps == out@ + rest.steps && whole.ok == rest.ok
                }),
            decreases s.n_layers - layer,
        {
            let ghost before = out@;
            let ghost here = layer_part(s, n, layer, self.kind, t, self.pos, self.seq_len);
            let ghost later = layers_part(
                s,
                n,
                (layer + 1) as usize,
                self.kind,
                t,
                self.pos,
                self.seq_len,
            );
            let ok = self.push_layer(layer, out);
            if !ok {
                return false;
            }
            assert(before + (here.steps + later.steps) =~= out@ + later.steps);
            layer += 1;
        }
        assert(out@ + Seq::<Step>::empty() =~= out@);
        true
    }

    fn push_tail(&self, head: Weight, out: &mut Vec<Step>) -> (ok: bool)
        requires
            self.wf(),
        ensures
            ({
                let p = tail_part(self.shape, self.names(), self.kind, self.tokens as int, head);
                final(out)@ == old(out)@ + p.steps && ok == p.ok
            }),
    {
        let s = self.shape;
        let ghost whole = tail_part(s, self.names(), self.kind, self.tokens as int, head);
        let w = Weight::OutputNorm;
        assert(1 * s.d == s.d);
        if let PassKind::Encode = self.kind {
            if !self.has_norm(w) {
                out.push(Step::Fail(Fault::MissingNorm(w)));
                assert(out@ =~= old(out)@ + whole.steps);
                return false;
            }
            let mut i: usize = 0;
            assert(out@ + Seq::<Step>::empty() =~= out@);
            while i < self.tokens
                invariant
                    self.wf(),
                    s == self.shape,
                    w == Weight::OutputNorm,
                    i <= self.tokens,
                    out@ == old(out)@ + state_steps(s, i as int),
                decreases self.tokens - i,
            {
                proof {
                    assert(i * s.d + s.d <= self.tokens * s.d && 0 <= i * s.d) by (nonlinear_arith)
                        requires
                            0 <= i < self.tokens,
                            0 <= s.d,
                    {
                    }
                }
                let ghost before = out@;
                let start: usize = i * s.d;
                out.push(
                    Step::Copy {
                        from: Span { buf: Buf::Hidden, start, len: s.d },
                        to: self.one_row(Buf::NormTmp),
                    },
                );
                out.push(
                    Step::Norm {
                        weight: w,
                        input: self.one_row(Buf::NormTmp),
                        output: Span { buf: Buf::States, start, len: s.d },
                        rows: 1,
                    },
                );
                i += 1;
                assert(out@ =~= old(out)@ + state_steps(s, i as int));
            }
            out.push(Step::Average { tokens: self.tokens });
            assert(out@ =~= old(out)@ + whole.steps);
            return true;
        }
        proof {
            assert((self.tokens - 1) * s.d + s.d <= self.tokens * s.d && 0 <= (self.tokens - 1)
                * s.d) by (nonlinear_arith)
                requires
                    1 <= self.tokens,
                    0 <= s.d,
            {
            }
        }
        let batch = matches!(self.kind, PassKind::Batch);
        if batch {
            out.push(Step::SetLen { len: self.tokens });
        }
        let start: usize = (self.tokens - 1) * s.d;
        out.push(
            Step::Copy {
                from: Span { buf: Buf::Hidden, start, len: s.d },
                to: self.one_row(Buf::NormTmp),
            },
        );
        if !self.has_norm(w) {
            out.push(Step::Fail(Fault::MissingNorm(w)));
            assert(out@ =~= old(out)@ + whole.steps);
            return false;
        }
        out.push(
            Step::Norm {
                weight: w,
                input: self.one_row(Buf::NormTmp),
                output: self.one_row(Buf::Residual),
                rows: 1,
            },
        );
        out.push(
            Step::Matmul {
                weight: head,
                layer: s.n_layers,
                input: self.one_row(Buf::Residual),
                output: Span { buf: Buf::Logits, start: 0, len: s.vocab },
                reuse: !batch && s.reuses_quantised(),
            },
        );
        assert(out@ =~= old(out)@ + whole.steps);
        true
    }

    fn push_embed(&self, ids: &[u32], out: &mut Vec<Step>) -> (ok: bool)
        ensures
            ({
                let p = embed_part(self.names(), ids@);
                final(out)@ == old(out)@ + p.steps && ok == p.ok
            }),
    {
        let name = Weight::TokenEmbd.name();
        if !self.tensors.contains_key(name.as_str()) {
            out.push(Step::Fail(Fault::MissingEmbedding));
            assert(out@ =~= old(out)@ + embed_part(self.names(), ids@).steps);
            return false;
        }
        let ghost all = embed_part(self.names(), ids@).steps;
        let mut i: usize = 0;
        assert(out@ =~= old(out)@ + all.take(0));
        while i < ids.len()
            invariant
                i <= ids@.len(),
                all == Seq::new(
                    ids@.len(),
                    |k: int| Step::Embed { slot: k as usize, token: ids@[k] },
                ),
                out@ == old(out)@ + all.take(i as int),
            decreases ids@.len() - i,
        {
            out.push(Step::Embed { slot: i, token: ids[i] });
            i += 1;
            assert(out@ =~= old(out)@ + all.take(i as int));
        }
        assert(all.take(i as int) =~= all);
        true
    }
}

/// Plans a pass over `ids`.  A single token stands at `pos` and attends to `seq_len` positions;
/// the tokens of a batch stand at the positions from `pos` on.
pub fn plan_pass(
    shape: Shape,
    tensors: &StringHashMap<TensorEntry>,
    norms: &StringHashMap<bool>,
    kind: PassKind,
    ids: &[u32],
    pos: usize,
    seq_len: usize,
    head: Weight,
) -> (r: Vec<Step>)
    requires
        shape.fits(ids@.len() as int),
        kind is Single ==> ids@.len() == 1,
        kind is Batch ==> ids@.len() >= 1,
    ensures
        r@ == pass_part(
            shape,
            names_of(tensors@, norms@),
            kind,
            ids@,
            pos,
            seq_len,
            head,
        ).steps,
{
    let mut out: Vec<Step> = Vec::new();
    let ghost whole = pass_part(shape, names_of(tensors@, norms@), kind, ids@, pos, seq_len, head);
    if ids.len() == 0 {
        out.push(Step::Fail(Fault::NoTokens));
        assert(out@ =~= whole.steps);
        return out;
    }
    let p = Planner { shape, tensors, norms, kind, tokens: ids.len(), pos, seq_len };
    if let PassKind::Single = kind {
        out.push(Step::CheckCancel);
    }
    if !p.push_embed(ids, &mut out) {
        assert(out@ =~= whole.steps);
        return out;
    }
    if !p.push_layers(&mut out) {
        assert(out@ =~= whole.steps);
        return out;
    }
    p.push_tail(head, &mut out);
    assert(out@ =~= whole.steps);
    out
}

} // verus!
