//! What the steps of a pass on the device do to its buffers.
//!
//! Arithmetic is left open, as for passes on the processor; what is fixed is which values go into each
//! operation and where its result goes.
use vstd::prelude::*;

use crate::llm::device::{
    add_instead_part, attend_steps, chain, device_pass, first_half, fused_or, gate_up_instead_part,
    going, head_norm_part, holds, layers_part, need_part, qkv_instead_part, second_half, stride_of,
    tail_part, tensor_of, DeviceBuf, DeviceStep,
};
use crate::llm::shape::Shape;
use crate::llm::tensor::TensorEntry;
use crate::llm::weight::{weight_name, Weight};
use crate::text::decimal;

verus! {

/// The arithmetic of the device, over whatever buffers `V` and caches `C` hold.  Weights go by the
/// names under which they are stored.
#[verifier::reject_recursive_types(V)]
#[verifier::reject_recursive_types(C)]
pub struct DeviceArithmetic<V, C> {
    pub embed: spec_fn(u32) -> V,
    pub norm: spec_fn(Seq<char>, V) -> V,
    /// A value multiplied with a weight of so many rows and columns.
    pub product: spec_fn(Seq<char>, V, int, int) -> V,
    pub head_norm: spec_fn(Seq<char>, V, int) -> V,
    /// Heads, rotated by a position.
    pub rope: spec_fn(V, int, int) -> V,
    /// A cache with keys and values at a position, so many positions to a head.
    pub store: spec_fn(C, V, V, int, int) -> C,
    /// Queries that attend to so many positions of a cache whose values begin at a byte, from a
    /// position, with so many positions to a head.
    pub attend: spec_fn(C, V, int, int, int, int) -> V,
    /// So many elements of two values, added.
    pub plus: spec_fn(V, V, int) -> V,
    /// So many elements of the activated gate, times the rest.
    pub silu_mul: spec_fn(V, V, int) -> V,
}

/// Buffers, caches and the rest of what steps act on.
#[verifier::reject_recursive_types(V)]
#[verifier::reject_recursive_types(C)]
pub struct DeviceState<V, C> {
    pub bufs: Map<DeviceBuf, V>,
    pub caches: Map<usize, C>,
    pub polls: nat,
    /// What was read back, and how many elements of it.
    pub logits: Option<(V, int)>,
    /// How many batches of work were begun and not ended.
    pub open: int,
}

/// What a product of a step means: rows and columns as the tensor has them.
pub open spec fn multiplied<V, C>(
    a: DeviceArithmetic<V, C>,
    t: Map<Seq<char>, TensorEntry>,
    name: Seq<char>,
    x: V,
    cols: int,
) -> V {
    (a.product)(name, x, t[name].rows() as int, cols)
}

/// What one step does, where the device does what it is asked.
pub open spec fn does<V, C>(
    st: DeviceState<V, C>,
    step: DeviceStep,
    a: DeviceArithmetic<V, C>,
    s: Shape,
    t: Map<Seq<char>, TensorEntry>,
) -> DeviceState<V, C> {
    let b = st.bufs;
    match step {
        DeviceStep::CheckCancel => DeviceState { polls: st.polls + 1, ..st },
        DeviceStep::Embed { token } => DeviceState {
            bufs: b.insert(DeviceBuf::Hidden, (a.embed)(token)),
            ..st
        },
        DeviceStep::BeginBatch => DeviceState { open: st.open + 1, ..st },
        DeviceStep::Norm { weight, input, output } => DeviceState {
            bufs: b.insert(output, (a.norm)(weight_name(weight), b[input])),
            ..st
        },
        DeviceStep::TryQkv { layer } => {
            let x = b[DeviceBuf::NormTmp];
            let (q, k, v) = (
                weight_name(Weight::AttnQ(layer)),
                weight_name(Weight::AttnK(layer)),
                weight_name(Weight::AttnV(layer)),
            );
            DeviceState {
                bufs: b.insert(DeviceBuf::QOut, multiplied(a, t, q, x, s.d as int)).insert(
                    DeviceBuf::KOut,
                    multiplied(a, t, k, x, s.d as int),
                ).insert(DeviceBuf::VOut, multiplied(a, t, v, x, s.d as int)),
                ..st
            }
        },
        DeviceStep::Matmul { weight, kind, input, output, n_rows, n_cols, fault } => DeviceState {
            bufs: b.insert(
                output,
                (a.product)(weight_name(weight), b[input], n_rows as int, n_cols as int),
            ),
            ..st
        },
        DeviceStep::Copy { from, to } => DeviceState { bufs: b.insert(to, b[from]), ..st },
        DeviceStep::HeadNorm { weight, buf, heads } => DeviceState {
            bufs: b.insert(buf, (a.head_norm)(weight_name(weight), b[buf], heads as int)),
            ..st
        },
        DeviceStep::Rope { buf, heads, pos } => DeviceState {
            bufs: b.insert(buf, (a.rope)(b[buf], heads as int, pos as int)),
            ..st
        },
        DeviceStep::WriteCache { layer, pos, stride } => DeviceState {
            caches: st.caches.insert(
                layer,
                (a.store)(
                    st.caches[layer],
                    b[DeviceBuf::KOut],
                    b[DeviceBuf::VOut],
                    pos as int,
                    stride as int,
                ),
            ),
            ..st
        },
        DeviceStep::Attend { layer, v_offset, seq_len, stride, pos } => DeviceState {
            bufs: b.insert(
                DeviceBuf::AttnOut,
                (a.attend)(
                    st.caches[layer],
                    b[DeviceBuf::QOut],
                    v_offset as int,
                    seq_len as int,
                    stride as int,
                    pos as int,
                ),
            ),
            ..st
        },
        DeviceStep::TryMatmulAdd { weight, input, n_rows, n_cols } => DeviceState {
            bufs: b.insert(
                DeviceBuf::Hidden,
                (a.plus)(
                    b[DeviceBuf::Hidden],
                    (a.product)(weight_name(weight), b[input], n_rows as int, n_cols as int),
                    s.d as int,
                ),
            ),
            ..st
        },
        DeviceStep::Add { from, n } => DeviceState {
            bufs: b.insert(
                DeviceBuf::Hidden,
                (a.plus)(b[DeviceBuf::Hidden], b[from], n as int),
            ),
            ..st
        },
        DeviceStep::TryGateUp { layer } => {
            let x = b[DeviceBuf::FfnNormTmp];
            let (g, u) = (weight_name(Weight::FfnGate(layer)), weight_name(Weight::FfnUp(layer)));
            DeviceState {
                bufs: b.insert(DeviceBuf::GateOut, multiplied(a, t, g, x, s.d as int)).insert(
                    DeviceBuf::UpOut,
                    multiplied(a, t, u, x, s.d as int),
                ),
                ..st
            }
        },
        DeviceStep::SiluMul { n } => DeviceState {
            bufs: b.insert(
                DeviceBuf::FfnTmp,
                (a.silu_mul)(b[DeviceBuf::GateOut], b[DeviceBuf::UpOut], n as int),
            ),
            ..st
        },
        DeviceStep::EndBatch => DeviceState { open: st.open - 1, ..st },
        DeviceStep::ReadLogits { n } => DeviceState {
            logits: Some((b[DeviceBuf::Fresh(0)], n as int)),
            ..st
        },
        DeviceStep::Fail(_) => st,
    }
}

/// What a list of steps does, from front to back.
pub open spec fn run<V, C>(
    st: DeviceState<V, C>,
    steps: Seq<DeviceStep>,
    a: DeviceArithmetic<V, C>,
    s: Shape,
    t: Map<Seq<char>, TensorEntry>,
) -> DeviceState<V, C>
    decreases steps.len(),
{
    if steps.len() == 0 {
        st
    } else {
        does(run(st, steps.drop_last(), a, s, t), steps.last(), a, s, t)
    }
}

proof fn lemma_one<V, C>(
    st: DeviceState<V, C>,
    x: DeviceStep,
    a: DeviceArithmetic<V, C>,
    s: Shape,
    t: Map<Seq<char>, TensorEntry>,
)
    ensures
        run(st, seq![x], a, s, t) == does(st, x, a, s, t),
{
    assert(seq![x].drop_last() =~= Seq::empty());
    assert(run(st, Seq::empty(), a, s, t) == st);
}

proof fn lemma_run_chain<V, C>(
    st: DeviceState<V, C>,
    x: Seq<DeviceStep>,
    y: Seq<DeviceStep>,
    a: DeviceArithmetic<V, C>,
    s: Shape,
    t: Map<Seq<char>, TensorEntry>,
)
    ensures
        run(st, x + y, a, s, t) == run(run(st, x, a, s, t), y, a, s, t),
    decreases y.len(),
{
    if y.len() == 0 {
        assert(x + y =~= x);
    } else {
        lemma_run_chain(st, x, y.drop_last(), a, s, t);
        assert((x + y).drop_last() =~= x + y.drop_last());
        assert((x + y).last() == y.last());
    }
}

proof fn lemma_first<V, C>(
    st: DeviceState<V, C>,
    steps: Seq<DeviceStep>,
    a: DeviceArithmetic<V, C>,
    s: Shape,
    t: Map<Seq<char>, TensorEntry>,
)
    requires
        steps.len() > 0,
    ensures
        run(st, steps, a, s, t) == run(does(st, steps[0], a, s, t), steps.skip(1), a, s, t),
{
    lemma_one(st, steps[0], a, s, t);
    lemma_run_chain(st, seq![steps[0]], steps.skip(1), a, s, t);
    assert(seq![steps[0]] + steps.skip(1) =~= steps);
}

/// What a layer leaves behind.
pub struct DeviceLayerOut<V, C> {
    pub hidden: V,
    pub cache: C,
}

/// A layer for one token: attention on the normalised state is added to the state, and then the
/// feed-forward part of the state normalised again.
pub open spec fn device_layer_out<V, C>(
    a: DeviceArithmetic<V, C>,
    s: Shape,
    t: Map<Seq<char>, TensorEntry>,
    norms: Set<Seq<char>>,
    layer: usize,
    pos: usize,
    stride: usize,
    h: V,
    cache: C,
) -> DeviceLayerOut<V, C> {
    let named = |part: Seq<char>| "blk."@ + decimal(layer as nat) + part;
    let times = |part: Seq<char>, x: V, cols: int| multiplied(a, t, named(part), x, cols);
    let d = s.d as int;
    let heads_normed = |part: Seq<char>, x: V, heads: usize|
        if t.contains_key("blk."@ + decimal(0) + ".attn_q_norm.weight"@) && norms.contains(named(part)) {
            (a.head_norm)(named(part), x, heads as int)
        } else {
            x
        };
    let n1 = (a.norm)(named(".attn_norm.weight"@), h);
    let q = heads_normed(".attn_q_norm.weight"@, times(".attn_q.weight"@, n1, d), s.n_heads);
    let k = heads_normed(".attn_k_norm.weight"@, times(".attn_k.weight"@, n1, d), s.n_kv_heads);
    let v = times(".attn_v.weight"@, n1, d);
    let q2 = (a.rope)(q, s.n_heads as int, pos as int);
    let k2 = (a.rope)(k, s.n_kv_heads as int, pos as int);
    let held = (a.store)(cache, k2, v, pos as int, stride as int);
    let seen = (a.attend)(
        held,
        q2,
        s.n_kv_heads * stride * s.head_dim * 4,
        pos + 1,
        stride as int,
        pos as int,
    );
    let h1 = (a.plus)(h, times(".attn_output.weight"@, seen, s.nq()), d);
    let n2 = (a.norm)(named(".ffn_norm.weight"@), h1);
    let m = (a.silu_mul)(
        times(".ffn_gate.weight"@, n2, d),
        times(".ffn_up.weight"@, n2, d),
        s.ffn as int,
    );
    DeviceLayerOut { hidden: (a.plus)(h1, times(".ffn_down.weight"@, m, s.ffn as int), d), cache: held }
}

/// Steps that are taken where the device declines queries, keys and values at once do the same.
#[verifier::spinoff_prover]
#[verifier::rlimit(50)]
pub proof fn law_qkv_instead_does_the_same<V, C>(
    st: DeviceState<V, C>,
    a: DeviceArithmetic<V, C>,
    s: Shape,
    t: Map<Seq<char>, TensorEntry>,
    layer: usize,
)
    requires
        qkv_instead_part(t, layer, s.d).ok,
    ensures
        ({
            let r = run(st, qkv_instead_part(t, layer, s.d).steps, a, s, t);
            let w = does(st, DeviceStep::TryQkv { layer }, a, s, t);
            &&& forall|b: DeviceBuf| !(b is Fresh) ==> r.bufs[b] == w.bufs[b]
            &&& r.caches == w.caches
            &&& r.polls == w.polls
            &&& r.logits == w.logits
            &&& r.open == w.open
        }),
{
    let steps = qkv_instead_part(t, layer, s.d).steps;
    lemma_first(st, steps, a, s, t);
    let s1 = does(st, steps[0], a, s, t);
    let t1 = steps.skip(1);
    lemma_first(s1, t1, a, s, t);
    let s2 = does(s1, steps[1], a, s, t);
    let t2 = t1.skip(1);
    lemma_first(s2, t2, a, s, t);
    let s3 = does(s2, steps[2], a, s, t);
    let t3 = t2.skip(1);
    lemma_first(s3, t3, a, s, t);
    let s4 = does(s3, steps[3], a, s, t);
    let t4 = t3.skip(1);
    lemma_first(s4, t4, a, s, t);
    let s5 = does(s4, steps[4], a, s, t);
    let t5 = t4.skip(1);
    lemma_first(s5, t5, a, s, t);
    assert(t5.skip(1).len() == 0);
    assert(run(st, steps, a, s, t) == does(s5, steps[5], a, s, t));
}

/// The same of gate and up products.
#[verifier::spinoff_prover]
#[verifier::rlimit(50)]
pub proof fn law_gate_up_instead_does_the_same<V, C>(
    st: DeviceState<V, C>,
    a: DeviceArithmetic<V, C>,
    s: Shape,
    t: Map<Seq<char>, TensorEntry>,
    layer: usize,
)
    requires
        gate_up_instead_part(t, layer, s.d).ok,
    ensures
        ({
            let r = run(st, gate_up_instead_part(t, layer, s.d).steps, a, s, t);
            let w = does(st, DeviceStep::TryGateUp { layer }, a, s, t);
            &&& forall|b: DeviceBuf| !(b is Fresh) ==> r.bufs[b] == w.bufs[b]
            &&& r.caches == w.caches
            &&& r.polls == w.polls
            &&& r.logits == w.logits
            &&& r.open == w.open
        }),
{
    let steps = gate_up_instead_part(t, layer, s.d).steps;
    lemma_first(st, steps, a, s, t);
    let s1 = does(st, steps[0], a, s, t);
    let t1 = steps.skip(1);
    lemma_first(s1, t1, a, s, t);
    let s2 = does(s1, steps[1], a, s, t);
    let t2 = t1.skip(1);
    lemma_first(s2, t2, a, s, t);
    let s3 = does(s2, steps[2], a, s, t);
    let t3 = t2.skip(1);
    lemma_first(s3, t3, a, s, t);
    assert(t3.skip(1).len() == 0);
    assert(run(st, steps, a, s, t) == does(s3, steps[3], a, s, t));
}

/// The same of a product that is added to the hidden state.
#[verifier::spinoff_prover]
#[verifier::rlimit(50)]
pub proof fn law_add_instead_does_the_same<V, C>(
    st: DeviceState<V, C>,
    a: DeviceArithmetic<V, C>,
    s: Shape,
    t: Map<Seq<char>, TensorEntry>,
    w: Weight,
    input: DeviceBuf,
    n_cols: usize,
)
    requires
        add_instead_part(t, w, input, n_cols, s.d).ok,
    ensures
        ({
            let r = run(st, add_instead_part(t, w, input, n_cols, s.d).steps, a, s, t);
            let n_rows = tensor_of(t, w).rows();
            let step = DeviceStep::TryMatmulAdd { weight: w, input, n_rows, n_cols };
            let x = does(st, step, a, s, t);
            &&& forall|b: DeviceBuf| !(b is Fresh) ==> r.bufs[b] == x.bufs[b]
            &&& r.caches == x.caches
            &&& r.polls == x.polls
            &&& r.logits == x.logits
            &&& r.open == x.open
        }),
{
    let steps = add_instead_part(t, w, input, n_cols, s.d).steps;
    lemma_first(st, steps, a, s, t);
    let s1 = does(st, steps[0], a, s, t);
    let t1 = steps.skip(1);
    lemma_first(s1, t1, a, s, t);
    assert(t1.skip(1).len() == 0);
    assert(run(st, steps, a, s, t) == does(s1, steps[1], a, s, t));
}

proof fn lemma_head_norm<V, C>(
    st: DeviceState<V, C>,
    a: DeviceArithmetic<V, C>,
    s: Shape,
    t: Map<Seq<char>, TensorEntry>,
    norms: Set<Seq<char>>,
    w: Weight,
    buf: DeviceBuf,
    heads: usize,
)
    ensures
        ({
            let r = run(st, head_norm_part(t, norms, w, buf, heads).steps, a, s, t);
            let there = holds(t, Weight::AttnQNorm(0)) && norms.contains(weight_name(w));
            &&& r.bufs[buf] == if there {
                (a.head_norm)(weight_name(w), st.bufs[buf], heads as int)
            } else {
                st.bufs[buf]
            }
            &&& forall|b: DeviceBuf| b != buf ==> r.bufs[b] == st.bufs[b]
            &&& r.caches == st.caches
            &&& r.polls == st.polls
            &&& r.logits == st.logits
            &&& r.open == st.open
        }),
{
    let steps = head_norm_part(t, norms, w, buf, heads).steps;
    if steps.len() > 0 {
        lemma_one(st, steps[0], a, s, t);
        assert(steps =~= seq![steps[0]]);
    }
}

#[verifier::spinoff_prover]
#[verifier::rlimit(50)]
proof fn lemma_attend<V, C>(
    st: DeviceState<V, C>,
    a: DeviceArithmetic<V, C>,
    s: Shape,
    t: Map<Seq<char>, TensorEntry>,
    layer: usize,
    pos: usize,
    stride: usize,
)
    requires
        pos < usize::MAX,
        s.n_kv_heads * stride * s.head_dim * 4 <= u64::MAX,
    ensures
        ({
            let r = run(st, attend_steps(s, layer, pos, stride), a, s, t);
            let q = (a.rope)(st.bufs[DeviceBuf::QOut], s.n_heads as int, pos as int);
            let k = (a.rope)(st.bufs[DeviceBuf::KOut], s.n_kv_heads as int, pos as int);
            let held = (a.store)(
                st.caches[layer],
                k,
                st.bufs[DeviceBuf::VOut],
                pos as int,
                stride as int,
            );
            &&& r.bufs[DeviceBuf::AttnOut] == (a.attend)(
                held,
                q,
                s.n_kv_heads * stride * s.head_dim * 4,
                pos + 1,
                stride as int,
                pos as int,
            )
            &&& r.bufs[DeviceBuf::Hidden] == st.bufs[DeviceBuf::Hidden]
            &&& r.caches[layer] == held
            &&& forall|l: usize| l != layer ==> #[trigger] r.caches[l] == st.caches[l]
            &&& r.polls == st.polls
            &&& r.logits == st.logits
            &&& r.open == st.open
        }),
{
    let steps = attend_steps(s, layer, pos, stride);
    assert(0 <= s.n_kv_heads * stride * s.head_dim * 4) by (nonlinear_arith);
    lemma_first(st, steps, a, s, t);
    let s1 = does(st, steps[0], a, s, t);
    let t1 = steps.skip(1);
    lemma_first(s1, t1, a, s, t);
    let s2 = does(s1, steps[1], a, s, t);
    let t2 = t1.skip(1);
    lemma_first(s2, t2, a, s, t);
    let s3 = does(s2, steps[2], a, s, t);
    let t3 = t2.skip(1);
    lemma_first(s3, t3, a, s, t);
    assert(t3.skip(1).len() == 0);
    assert(run(st, steps, a, s, t) == does(s3, steps[3], a, s, t));
}

#[verifier::spinoff_prover]
#[verifier::rlimit(60)]
proof fn lemma_first_half<V, C>(
    st: DeviceState<V, C>,
    a: DeviceArithmetic<V, C>,
    s: Shape,
    t: Map<Seq<char>, TensorEntry>,
    norms: Set<Seq<char>>,
    layer: usize,
    pos: usize,
    stride: usize,
)
    requires
        pos < usize::MAX,
        s.n_kv_heads * stride * s.head_dim * 4 <= u64::MAX,
        first_half(s, t, norms, layer, pos, stride).ok,
    ensures
        ({
            let r = run(st, first_half(s, t, norms, layer, pos, stride).steps, a, s, t);
            let normed = |w: Weight, x: V, heads: usize|
                if holds(t, Weight::AttnQNorm(0)) && norms.contains(weight_name(w)) {
                    (a.head_norm)(weight_name(w), x, heads as int)
                } else {
                    x
                };
            let times = |w: Weight, x: V| multiplied(a, t, weight_name(w), x, s.d as int);
            let n1 = (a.norm)(weight_name(Weight::AttnNorm(layer)), st.bufs[DeviceBuf::Hidden]);
            let q = normed(
                Weight::AttnQNorm(layer),
                times(Weight::AttnQ(layer), n1),
                s.n_heads,
            );
            let k = normed(
                Weight::AttnKNorm(layer),
                times(Weight::AttnK(layer), n1),
                s.n_kv_heads,
            );
            let held = (a.store)(
                st.caches[layer],
                (a.rope)(k, s.n_kv_heads as int, pos as int),
                times(Weight::AttnV(layer), n1),
                pos as int,
                stride as int,
            );
            &&& r.bufs[DeviceBuf::AttnOut] == (a.attend)(
                held,
                (a.rope)(q, s.n_heads as int, pos as int),
                s.n_kv_heads * stride * s.head_dim * 4,
                pos + 1,
                stride as int,
                pos as int,
            )
            &&& r.bufs[DeviceBuf::Hidden] == st.bufs[DeviceBuf::Hidden]
            &&& r.caches[layer] == held
            &&& forall|l: usize| l != layer ==> #[trigger] r.caches[l] == st.caches[l]
            &&& r.polls == st.polls + 1
            &&& r.logits == st.logits
            &&& r.open == st.open
        }),
{
    let opened = going(
        seq![
            DeviceStep::CheckCancel,
            DeviceStep::Norm {
                weight: Weight::AttnNorm(layer),
                input: DeviceBuf::Hidden,
                output: DeviceBuf::NormTmp,
            },
        ],
    );
    let p1 = chain(opened, need_part(t, Weight::AttnQ(layer)));
    let p2 = chain(p1, need_part(t, Weight::AttnK(layer)));
    let p3 = chain(p2, need_part(t, Weight::AttnV(layer)));
    let fused = fused_or(
        t,
        Weight::AttnQ(layer),
        DeviceStep::TryQkv { layer },
        qkv_instead_part(t, layer, s.d),
    );
    let p4 = chain(p3, fused);
    let hq = head_norm_part(t, norms, Weight::AttnQNorm(layer), DeviceBuf::QOut, s.n_heads);
    let hk = head_norm_part(t, norms, Weight::AttnKNorm(layer), DeviceBuf::KOut, s.n_kv_heads);
    let p5 = chain(p4, hq);
    let p6 = chain(p5, hk);
    assert(p1.ok && p2.ok && p3.ok && p4.ok && p5.ok && p6.ok);
    assert(p3.steps =~= opened.steps);
    let att = attend_steps(s, layer, pos, stride);
    lemma_run_chain(st, p6.steps, att, a, s, t);
    lemma_run_chain(st, p5.steps, hk.steps, a, s, t);
    lemma_run_chain(st, p4.steps, hq.steps, a, s, t);
    lemma_run_chain(st, p3.steps, fused.steps, a, s, t);
    lemma_first(st, opened.steps, a, s, t);
    let o1 = does(st, opened.steps[0], a, s, t);
    assert(opened.steps.skip(1) =~= seq![opened.steps[1]]);
    lemma_one(o1, opened.steps[1], a, s, t);
    let s1 = run(st, p3.steps, a, s, t);
    let s2 = run(s1, fused.steps, a, s, t);
    let w = does(s1, DeviceStep::TryQkv { layer }, a, s, t);
    if fused.steps =~= seq![DeviceStep::TryQkv { layer }] {
        lemma_one(s1, DeviceStep::TryQkv { layer }, a, s, t);
    } else {
        law_qkv_instead_does_the_same(s1, a, s, t, layer);
    }
    assert(s2.bufs[DeviceBuf::QOut] == w.bufs[DeviceBuf::QOut]);
    assert(s2.bufs[DeviceBuf::KOut] == w.bufs[DeviceBuf::KOut]);
    assert(s2.bufs[DeviceBuf::VOut] == w.bufs[DeviceBuf::VOut]);
    assert(s2.bufs[DeviceBuf::Hidden] == w.bufs[DeviceBuf::Hidden]);
    lemma_head_norm(s2, a, s, t, norms, Weight::AttnQNorm(layer), DeviceBuf::QOut, s.n_heads);
    let s3 = run(s2, hq.steps, a, s, t);
    lemma_head_norm(s3, a, s, t, norms, Weight::AttnKNorm(layer), DeviceBuf::KOut, s.n_kv_heads);
    let s4 = run(s3, hk.steps, a, s, t);
    lemma_attend(s4, a, s, t, layer, pos, stride);
}

#[verifier::spinoff_prover]
#[verifier::rlimit(60)]
proof fn lemma_second_half<V, C>(
    st: DeviceState<V, C>,
    a: DeviceArithmetic<V, C>,
    s: Shape,
    t: Map<Seq<char>, TensorEntry>,
    layer: usize,
)
    requires
        0 <= s.nq() <= usize::MAX,
        second_half(s, t, layer).ok,
    ensures
        ({
            let r = run(st, second_half(s, t, layer).steps, a, s, t);
            let times = |w: Weight, x: V, cols: int| multiplied(a, t, weight_name(w), x, cols);
            let d = s.d as int;
            let h1 = (a.plus)(
                st.bufs[DeviceBuf::Hidden],
                times(Weight::AttnOutput(layer), st.bufs[DeviceBuf::AttnOut], s.nq()),
                d,
            );
            let n2 = (a.norm)(weight_name(Weight::FfnNorm(layer)), h1);
            let m = (a.silu_mul)(
                times(Weight::FfnGate(layer), n2, d),
                times(Weight::FfnUp(layer), n2, d),
                s.ffn as int,
            );
            &&& r.bufs[DeviceBuf::Hidden] == (a.plus)(
                h1,
                times(Weight::FfnDown(layer), m, s.ffn as int),
                d,
            )
            &&& r.caches == st.caches
            &&& r.polls == st.polls
            &&& r.logits == st.logits
            &&& r.open == st.open
        }),
{
    let p1 = chain(need_part(t, Weight::AttnOutput(layer)), need_part(t, Weight::FfnGate(layer)));
    let p2 = chain(p1, need_part(t, Weight::FfnUp(layer)));
    let p3 = chain(p2, need_part(t, Weight::FfnDown(layer)));
    let projected = seq![
        DeviceStep::TryMatmulAdd {
            weight: Weight::AttnOutput(layer),
            input: DeviceBuf::AttnOut,
            n_rows: tensor_of(t, Weight::AttnOutput(layer)).rows(),
            n_cols: s.nq() as usize,
        },
        DeviceStep::Norm {
            weight: Weight::FfnNorm(layer),
            input: DeviceBuf::Hidden,
            output: DeviceBuf::FfnNormTmp,
        },
    ];
    let p4 = chain(p3, going(projected));
    let fused = fused_or(
        t,
        Weight::FfnGate(layer),
        DeviceStep::TryGateUp { layer },
        gate_up_instead_part(t, layer, s.d),
    );
    let p5 = chain(p4, fused);
    assert(p1.ok && p2.ok && p3.ok && p4.ok && p5.ok);
    assert(p4.steps =~= projected);
    let last = seq![
        DeviceStep::SiluMul { n: s.ffn },
        DeviceStep::TryMatmulAdd {
            weight: Weight::FfnDown(layer),
            input: DeviceBuf::FfnTmp,
            n_rows: tensor_of(t, Weight::FfnDown(layer)).rows(),
            n_cols: s.ffn,
        },
    ];
    lemma_run_chain(st, p5.steps, last, a, s, t);
    lemma_run_chain(st, p4.steps, fused.steps, a, s, t);
    lemma_first(st, projected, a, s, t);
    let o1 = does(st, projected[0], a, s, t);
    assert(projected.skip(1) =~= seq![projected[1]]);
    lemma_one(o1, projected[1], a, s, t);
    let s1 = run(st, p4.steps, a, s, t);
    let s2 = run(s1, fused.steps, a, s, t);
    let w = does(s1, DeviceStep::TryGateUp { layer }, a, s, t);
    if fused.steps =~= seq![DeviceStep::TryGateUp { layer }] {
        lemma_one(s1, DeviceStep::TryGateUp { layer }, a, s, t);
    } else {
        law_gate_up_instead_does_the_same(s1, a, s, t, layer);
    }
    assert(s2.bufs[DeviceBuf::GateOut] == w.bufs[DeviceBuf::GateOut]);
    assert(s2.bufs[DeviceBuf::UpOut] == w.bufs[DeviceBuf::UpOut]);
    assert(s2.bufs[DeviceBuf::Hidden] == w.bufs[DeviceBuf::Hidden]);
    lemma_first(s2, last, a, s, t);
    assert(last.skip(1) =~= seq![last[1]]);
    lemma_one(does(s2, last[0], a, s, t), last[1], a, s, t);
}

/// A layer on the device computes what a layer is.
#[verifier::spinoff_prover]
#[verifier::rlimit(60)]
pub proof fn law_device_layer_is_computed<V, C>(
    st: DeviceState<V, C>,
    a: DeviceArithmetic<V, C>,
    s: Shape,
    t: Map<Seq<char>, TensorEntry>,
    norms: Set<Seq<char>>,
    layer: usize,
    pos: usize,
    stride: usize,
)
    requires
        pos < usize::MAX,
        0 <= s.nq() <= usize::MAX,
        s.n_kv_heads * stride * s.head_dim * 4 <= u64::MAX,
        chain(first_half(s, t, norms, layer, pos, stride), second_half(s, t, layer)).ok,
    ensures
        ({
            let p = chain(first_half(s, t, norms, layer, pos, stride), second_half(s, t, layer));
            let r = run(st, p.steps, a, s, t);
            let out = device_layer_out(
                a,
                s,
                t,
                norms,
                layer,
                pos,
                stride,
                st.bufs[DeviceBuf::Hidden],
                st.caches[layer],
            );
            &&& r.bufs[DeviceBuf::Hidden] == out.hidden
            &&& r.caches[layer] == out.cache
            &&& forall|l: usize| l != layer ==> #[trigger] r.caches[l] == st.caches[l]
            &&& r.polls == st.polls + 1
            &&& r.logits == st.logits
            &&& r.open == st.open
        }),
{
    let (x, y) = (first_half(s, t, norms, layer, pos, stride), second_half(s, t, layer));
    lemma_run_chain(st, x.steps, y.steps, a, s, t);
    lemma_first_half(st, a, s, t, norms, layer, pos, stride);
    lemma_second_half(run(st, x.steps, a, s, t), a, s, t, layer);
}

/// The hidden state behind the layers from `from` on.
pub open spec fn device_layers_out<V, C>(
    a: DeviceArithmetic<V, C>,
    s: Shape,
    t: Map<Seq<char>, TensorEntry>,
    norms: Set<Seq<char>>,
    from: usize,
    pos: usize,
    stride: usize,
    h: V,
    caches: spec_fn(usize) -> C,
) -> V
    decreases s.n_layers - from,
{
    if from >= s.n_layers {
        h
    } else {
        let out = device_layer_out(a, s, t, norms, from, pos, stride, h, caches(from));
        device_layers_out(a, s, t, norms, (from + 1) as usize, pos, stride, out.hidden, caches)
    }
}

proof fn lemma_layers<V, C>(
    st: DeviceState<V, C>,
    a: DeviceArithmetic<V, C>,
    s: Shape,
    t: Map<Seq<char>, TensorEntry>,
    norms: Set<Seq<char>>,
    from: usize,
    pos: usize,
    stride: usize,
    caches: spec_fn(usize) -> C,
)
    requires
        pos < usize::MAX,
        0 <= s.nq() <= usize::MAX,
        s.n_kv_heads * stride * s.head_dim * 4 <= u64::MAX,
        layers_part(s, t, norms, from, pos, stride).ok,
        forall|l: usize| l >= from ==> #[trigger] st.caches[l] == caches(l),
    ensures
        ({
            let r = run(st, layers_part(s, t, norms, from, pos, stride).steps, a, s, t);
            &&& r.bufs[DeviceBuf::Hidden] == device_layers_out(
                a,
                s,
                t,
                norms,
                from,
                pos,
                stride,
                st.bufs[DeviceBuf::Hidden],
                caches,
            )
            &&& r.polls == st.polls + if from >= s.n_layers {
                0
            } else {
                s.n_layers - from
            }
            &&& r.logits == st.logits
            &&& r.open == st.open
        }),
    decreases s.n_layers - from,
{
    if from < s.n_layers {
        let p = chain(first_half(s, t, norms, from, pos, stride), second_half(s, t, from));
        let q = layers_part(s, t, norms, (from + 1) as usize, pos, stride);
        lemma_run_chain(st, p.steps, q.steps, a, s, t);
        law_device_layer_is_computed(st, a, s, t, norms, from, pos, stride);
        let mid = run(st, p.steps, a, s, t);
        assert(st.caches[from] == caches(from));
        assert forall|l: usize| l >= (from + 1) as usize implies #[trigger] mid.caches[l] == caches(
            l,
        ) by {
            assert(mid.caches[l] == st.caches[l]);
        }
        lemma_layers(mid, a, s, t, norms, (from + 1) as usize, pos, stride, caches);
    }
}

/// A pass on the device computes what a pass is: the embedding goes through all layers, one after the
/// other, and the state behind them, normalised and multiplied with the head, gives the scores.  The
/// work is one batch, which is ended before the scores are read.
#[verifier::spinoff_prover]
#[verifier::rlimit(60)]
pub proof fn law_device_pass_is_computed<V, C>(
    st: DeviceState<V, C>,
    a: DeviceArithmetic<V, C>,
    s: Shape,
    t: Map<Seq<char>, TensorEntry>,
    norms: Set<Seq<char>>,
    device: bool,
    token: u32,
    pos: usize,
    cache_max_seq: usize,
    head: Weight,
    caches: spec_fn(usize) -> C,
)
    requires
        pos < usize::MAX,
        0 <= s.nq() <= usize::MAX,
        s.n_kv_heads * stride_of(s, cache_max_seq) * s.head_dim * 4 <= u64::MAX,
        device_pass(s, t, norms, device, token, pos, cache_max_seq, head).ok,
        forall|l: usize| #[trigger] st.caches[l] == caches(l),
    ensures
        ({
            let p = device_pass(s, t, norms, device, token, pos, cache_max_seq, head);
            let r = run(st, p.steps, a, s, t);
            let stride = if cache_max_seq < s.max_seq {
                cache_max_seq
            } else {
                s.max_seq
            };
            let h = device_layers_out(
                a,
                s,
                t,
                norms,
                0,
                pos,
                stride,
                (a.embed)(token),
                caches,
            );
            let scores = (a.product)(
                weight_name(head),
                (a.norm)("output_norm.weight"@, h),
                s.vocab as int,
                s.d as int,
            );
            &&& r.logits == Some((scores, s.vocab as int))
            &&& r.polls == st.polls + s.n_layers + 1
            &&& r.open == st.open
        }),
{
    let stride = stride_of(s, cache_max_seq);
    let polled = going(seq![DeviceStep::CheckCancel]);
    let opening = going(seq![DeviceStep::Embed { token }, DeviceStep::BeginBatch]);
    let c1 = chain(polled, opening);
    let lp = layers_part(s, t, norms, 0, pos, stride);
    let c2 = chain(c1, lp);
    let tp = tail_part(s, t, head);
    assert(c1.ok && c2.ok && lp.ok && tp.ok);
    lemma_run_chain(st, c2.steps, tp.steps, a, s, t);
    lemma_run_chain(st, c1.steps, lp.steps, a, s, t);
    lemma_run_chain(st, polled.steps, opening.steps, a, s, t);
    lemma_one(st, DeviceStep::CheckCancel, a, s, t);
    let s0 = run(st, polled.steps, a, s, t);
    lemma_first(s0, opening.steps, a, s, t);
    let s1 = does(s0, opening.steps[0], a, s, t);
    assert(opening.steps.skip(1) =~= seq![opening.steps[1]]);
    lemma_one(s1, opening.steps[1], a, s, t);
    let s2 = run(st, c1.steps, a, s, t);
    lemma_layers(s2, a, s, t, norms, 0, pos, stride, caches);
    let s3 = run(s2, lp.steps, a, s, t);
    let steps = tp.steps;
    assert(steps.len() == 4);
    lemma_first(s3, steps, a, s, t);
    let s4 = does(s3, steps[0], a, s, t);
    let t1 = steps.skip(1);
    lemma_first(s4, t1, a, s, t);
    let s5 = does(s4, steps[1], a, s, t);
    let t2 = t1.skip(1);
    lemma_first(s5, t2, a, s, t);
    let s6 = does(s5, steps[2], a, s, t);
    let t3 = t2.skip(1);
    lemma_first(s6, t3, a, s, t);
    assert(t3.skip(1).len() == 0);
    assert(run(s3, steps, a, s, t) == does(s6, steps[3], a, s, t));
}

} // verus!
