//! What holds of every pass on the device.
use vstd::prelude::*;

use crate::llm::device::{
    add_instead_part, attend_steps, chain, device_pass, failing, first_half, fused_or,
    gate_up_instead_part, going, head_norm_part, holds, layers_part, matmul_part, need_part,
    norms_present, qkv_instead_part, rows_part, second_half, stride_of, tail_part, tensor_of,
    DeviceBuf, DeviceFault, DevicePart, DeviceStep,
};
use crate::llm::shape::Shape;
use crate::llm::tensor::TensorEntry;
use crate::llm::weight::{weight_name, Weight};

verus! {

/// The weights that a step reads are there, and so are those that it would read where the device
/// declines it.
pub open spec fn supported(
    t: Map<Seq<char>, TensorEntry>,
    norms: Set<Seq<char>>,
    step: DeviceStep,
) -> bool {
    match step {
        DeviceStep::Embed { .. } => holds(t, Weight::TokenEmbd),
        DeviceStep::Norm { weight, .. } => norms.contains(weight_name(weight)),
        DeviceStep::HeadNorm { weight, .. } => norms.contains(weight_name(weight)),
        DeviceStep::Matmul { weight, .. } => holds(t, weight),
        DeviceStep::TryMatmulAdd { weight, .. } => holds(t, weight),
        DeviceStep::TryQkv { layer } => {
            holds(t, Weight::AttnQ(layer)) && holds(t, Weight::AttnK(layer)) && holds(
                t,
                Weight::AttnV(layer),
            )
        },
        DeviceStep::TryGateUp { layer } => {
            holds(t, Weight::FfnGate(layer)) && holds(t, Weight::FfnUp(layer))
        },
        _ => true,
    }
}

/// Every step is supported, and a failure can only come last, exactly where the pass does not go
/// on.
pub open spec fn sound(
    t: Map<Seq<char>, TensorEntry>,
    norms: Set<Seq<char>>,
    p: DevicePart,
) -> bool {
    &&& forall|i: int| 0 <= i < p.steps.len() ==> supported(t, norms, #[trigger] p.steps[i])
    &&& forall|i: int| 0 <= i < p.steps.len() - 1 ==> !((#[trigger] p.steps[i]) is Fail)
    &&& p.ok <==> p.steps.len() == 0 || !(p.steps.last() is Fail)
}

proof fn lemma_chain_sound(
    t: Map<Seq<char>, TensorEntry>,
    norms: Set<Seq<char>>,
    a: DevicePart,
    b: DevicePart,
)
    requires
        sound(t, norms, a),
        a.ok ==> sound(t, norms, b),
    ensures
        sound(t, norms, chain(a, b)),
{
    let c = chain(a, b);
    if a.ok {
        assert forall|i: int| 0 <= i < c.steps.len() implies supported(
            t,
            norms,
            #[trigger] c.steps[i],
        ) by {
            if i < a.steps.len() {
                assert(c.steps[i] == a.steps[i]);
            } else {
                assert(c.steps[i] == b.steps[i - a.steps.len()]);
            }
        }
        assert forall|i: int| 0 <= i < c.steps.len() - 1 implies !((#[trigger] c.steps[i])
            is Fail) by {
            if i < a.steps.len() {
                assert(c.steps[i] == a.steps[i]);
                if i == a.steps.len() - 1 {
                    assert(a.steps.last() == a.steps[i]);
                }
            } else {
                assert(c.steps[i] == b.steps[i - a.steps.len()]);
            }
        }
        if b.steps.len() > 0 {
            assert(c.steps.last() == b.steps.last());
        } else {
            assert(c.steps =~= a.steps);
        }
    }
}

proof fn lemma_rows_sound(
    t: Map<Seq<char>, TensorEntry>,
    norms: Set<Seq<char>>,
    w: Weight,
    input: DeviceBuf,
    output: DeviceBuf,
    n_cols: usize,
)
    requires
        holds(t, w),
    ensures
        sound(t, norms, rows_part(t, w, input, output, n_cols)),
{
}

/// Steps that stand in for queries, keys and values at once are supported where those weights are
/// there.
pub proof fn law_qkv_instead_is_sound(
    t: Map<Seq<char>, TensorEntry>,
    norms: Set<Seq<char>>,
    layer: usize,
    d: usize,
)
    requires
        holds(t, Weight::AttnQ(layer)),
        holds(t, Weight::AttnK(layer)),
        holds(t, Weight::AttnV(layer)),
    ensures
        sound(t, norms, qkv_instead_part(t, layer, d)),
{
    let (n, f0, f1, f2) = (
        DeviceBuf::NormTmp,
        DeviceBuf::Fresh(0),
        DeviceBuf::Fresh(1),
        DeviceBuf::Fresh(2),
    );
    let q = rows_part(t, Weight::AttnQ(layer), n, f0, d);
    let k = rows_part(t, Weight::AttnK(layer), n, f1, d);
    let v = rows_part(t, Weight::AttnV(layer), n, f2, d);
    let copies = going(
        seq![
            DeviceStep::Copy { from: f0, to: DeviceBuf::QOut },
            DeviceStep::Copy { from: f1, to: DeviceBuf::KOut },
            DeviceStep::Copy { from: f2, to: DeviceBuf::VOut },
        ],
    );
    lemma_rows_sound(t, norms, Weight::AttnQ(layer), n, f0, d);
    lemma_rows_sound(t, norms, Weight::AttnK(layer), n, f1, d);
    lemma_rows_sound(t, norms, Weight::AttnV(layer), n, f2, d);
    lemma_chain_sound(t, norms, q, k);
    lemma_chain_sound(t, norms, chain(q, k), v);
    lemma_chain_sound(t, norms, chain(chain(q, k), v), copies);
}

/// Steps that stand in for gate and up products at once are supported where those weights are
/// there.
pub proof fn law_gate_up_instead_is_sound(
    t: Map<Seq<char>, TensorEntry>,
    norms: Set<Seq<char>>,
    layer: usize,
    d: usize,
)
    requires
        holds(t, Weight::FfnGate(layer)),
        holds(t, Weight::FfnUp(layer)),
    ensures
        sound(t, norms, gate_up_instead_part(t, layer, d)),
{
    let (n, f0, f1) = (DeviceBuf::FfnNormTmp, DeviceBuf::Fresh(0), DeviceBuf::Fresh(1));
    let g = rows_part(t, Weight::FfnGate(layer), n, f0, d);
    let u = rows_part(t, Weight::FfnUp(layer), n, f1, d);
    let copies = going(
        seq![
            DeviceStep::Copy { from: f0, to: DeviceBuf::GateOut },
            DeviceStep::Copy { from: f1, to: DeviceBuf::UpOut },
        ],
    );
    lemma_rows_sound(t, norms, Weight::FfnGate(layer), n, f0, d);
    lemma_rows_sound(t, norms, Weight::FfnUp(layer), n, f1, d);
    lemma_chain_sound(t, norms, g, u);
    lemma_chain_sound(t, norms, chain(g, u), copies);
}

/// Steps that stand in for a product with an addition are supported where the weight is there.
pub proof fn law_add_instead_is_sound(
    t: Map<Seq<char>, TensorEntry>,
    norms: Set<Seq<char>>,
    w: Weight,
    input: DeviceBuf,
    n_cols: usize,
    d: usize,
)
    requires
        holds(t, w),
    ensures
        sound(t, norms, add_instead_part(t, w, input, n_cols, d)),
{
    let f0 = DeviceBuf::Fresh(0);
    lemma_rows_sound(t, norms, w, input, f0, n_cols);
    lemma_chain_sound(
        t,
        norms,
        rows_part(t, w, input, f0, n_cols),
        going(seq![DeviceStep::Add { from: f0, n: d }]),
    );
}

proof fn lemma_need_sound(t: Map<Seq<char>, TensorEntry>, norms: Set<Seq<char>>, w: Weight)
    ensures
        sound(t, norms, need_part(t, w)),
        need_part(t, w).ok == holds(t, w),
{
}

proof fn lemma_first_half(
    s: Shape,
    t: Map<Seq<char>, TensorEntry>,
    norms: Set<Seq<char>>,
    layer: usize,
    pos: usize,
    stride: usize,
)
    requires
        norms_present(s, norms),
        layer < s.n_layers,
    ensures
        sound(t, norms, first_half(s, t, norms, layer, pos, stride)),
{
    let (q, k, v) = (Weight::AttnQ(layer), Weight::AttnK(layer), Weight::AttnV(layer));
    assert(norms.contains(weight_name(Weight::AttnNorm(layer))));
    let opened = going(
        seq![
            DeviceStep::CheckCancel,
            DeviceStep::Norm {
                weight: Weight::AttnNorm(layer),
                input: DeviceBuf::Hidden,
                output: DeviceBuf::NormTmp,
            },
        ],
    );
    lemma_need_sound(t, norms, q);
    lemma_need_sound(t, norms, k);
    lemma_need_sound(t, norms, v);
    let p1 = chain(opened, need_part(t, q));
    lemma_chain_sound(t, norms, opened, need_part(t, q));
    let p2 = chain(p1, need_part(t, k));
    lemma_chain_sound(t, norms, p1, need_part(t, k));
    let p3 = chain(p2, need_part(t, v));
    lemma_chain_sound(t, norms, p2, need_part(t, v));
    let fused = fused_or(t, q, DeviceStep::TryQkv { layer }, qkv_instead_part(t, layer, s.d));
    if p3.ok {
        law_qkv_instead_is_sound(t, norms, layer, s.d);
    }
    let p4 = chain(p3, fused);
    lemma_chain_sound(t, norms, p3, fused);
    let qn = head_norm_part(t, norms, Weight::AttnQNorm(layer), DeviceBuf::QOut, s.n_heads);
    let kn = head_norm_part(t, norms, Weight::AttnKNorm(layer), DeviceBuf::KOut, s.n_kv_heads);
    let p5 = chain(p4, qn);
    lemma_chain_sound(t, norms, p4, qn);
    let p6 = chain(p5, kn);
    lemma_chain_sound(t, norms, p5, kn);
    lemma_chain_sound(t, norms, p6, going(attend_steps(s, layer, pos, stride)));
}

proof fn lemma_second_half(
    s: Shape,
    t: Map<Seq<char>, TensorEntry>,
    norms: Set<Seq<char>>,
    layer: usize,
)
    requires
        norms_present(s, norms),
        layer < s.n_layers,
    ensures
        sound(t, norms, second_half(s, t, layer)),
{
    let (a, g, u, d) = (
        Weight::AttnOutput(layer),
        Weight::FfnGate(layer),
        Weight::FfnUp(layer),
        Weight::FfnDown(layer),
    );
    assert(norms.contains(weight_name(Weight::AttnNorm(layer))));
    assert(norms.contains(weight_name(Weight::FfnNorm(layer))));
    lemma_need_sound(t, norms, a);
    lemma_need_sound(t, norms, g);
    lemma_need_sound(t, norms, u);
    lemma_need_sound(t, norms, d);
    let p1 = chain(need_part(t, a), need_part(t, g));
    lemma_chain_sound(t, norms, need_part(t, a), need_part(t, g));
    let p2 = chain(p1, need_part(t, u));
    lemma_chain_sound(t, norms, p1, need_part(t, u));
    let p3 = chain(p2, need_part(t, d));
    lemma_chain_sound(t, norms, p2, need_part(t, d));
    let projected = going(
        seq![
            DeviceStep::TryMatmulAdd {
                weight: a,
                input: DeviceBuf::AttnOut,
                n_rows: tensor_of(t, a).rows(),
                n_cols: s.nq() as usize,
            },
            DeviceStep::Norm {
                weight: Weight::FfnNorm(layer),
                input: DeviceBuf::Hidden,
                output: DeviceBuf::FfnNormTmp,
            },
        ],
    );
    let p4 = chain(p3, projected);
    lemma_chain_sound(t, norms, p3, projected);
    let fused = fused_or(t, g, DeviceStep::TryGateUp { layer }, gate_up_instead_part(t, layer, s.d));
    if p4.ok {
        law_gate_up_instead_is_sound(t, norms, layer, s.d);
    }
    let p5 = chain(p4, fused);
    lemma_chain_sound(t, norms, p4, fused);
    let last = going(
        seq![
            DeviceStep::SiluMul { n: s.ffn },
            DeviceStep::TryMatmulAdd {
                weight: d,
                input: DeviceBuf::FfnTmp,
                n_rows: tensor_of(t, d).rows(),
                n_cols: s.ffn,
            },
        ],
    );
    lemma_chain_sound(t, norms, p5, last);
}

proof fn lemma_layers(
    s: Shape,
    t: Map<Seq<char>, TensorEntry>,
    norms: Set<Seq<char>>,
    from: usize,
    pos: usize,
    stride: usize,
)
    requires
        norms_present(s, norms),
    ensures
        sound(t, norms, layers_part(s, t, norms, from, pos, stride)),
    decreases s.n_layers - from,
{
    if from < s.n_layers {
        let (a, b) = (first_half(s, t, norms, from, pos, stride), second_half(s, t, from));
        lemma_first_half(s, t, norms, from, pos, stride);
        lemma_second_half(s, t, norms, from);
        lemma_chain_sound(t, norms, a, b);
        lemma_layers(s, t, norms, (from + 1) as usize, pos, stride);
        lemma_chain_sound(
            t,
            norms,
            chain(a, b),
            layers_part(s, t, norms, (from + 1) as usize, pos, stride),
        );
    }
}

/// A pass on the device asks only for weights that are there, and where it fails, it ends: no step
/// follows a failure, and a pass without one runs to its end.
pub proof fn law_device_pass_is_sound(
    s: Shape,
    t: Map<Seq<char>, TensorEntry>,
    norms: Set<Seq<char>>,
    device: bool,
    token: u32,
    pos: usize,
    cache_max_seq: usize,
    head: Weight,
)
    requires
        norms_present(s, norms),
    ensures
        sound(t, norms, device_pass(s, t, norms, device, token, pos, cache_max_seq, head)),
{
    let polled = going(seq![DeviceStep::CheckCancel]);
    if !device {
        lemma_chain_sound(t, norms, polled, failing(DeviceFault::NoDevice));
    } else if !holds(t, Weight::TokenEmbd) {
        lemma_chain_sound(t, norms, polled, failing(DeviceFault::MissingEmbedding));
    } else {
        let opening = going(seq![DeviceStep::Embed { token }, DeviceStep::BeginBatch]);
        lemma_chain_sound(t, norms, polled, opening);
        let layers = layers_part(s, t, norms, 0, pos, stride_of(s, cache_max_seq));
        lemma_layers(s, t, norms, 0, pos, stride_of(s, cache_max_seq));
        lemma_chain_sound(t, norms, chain(polled, opening), layers);
        let normed = going(
            seq![
                DeviceStep::Norm {
                    weight: Weight::OutputNorm,
                    input: DeviceBuf::Hidden,
                    output: DeviceBuf::OutNormTmp,
                },
            ],
        );
        lemma_need_sound(t, norms, head);
        lemma_chain_sound(t, norms, normed, need_part(t, head));
        let p1 = chain(normed, need_part(t, head));
        let product = matmul_part(
            t,
            head,
            DeviceBuf::OutNormTmp,
            DeviceBuf::Fresh(0),
            s.vocab,
            s.d,
            DeviceFault::FailedHead,
        );
        lemma_chain_sound(t, norms, p1, product);
        lemma_chain_sound(
            t,
            norms,
            chain(p1, product),
            going(seq![DeviceStep::EndBatch, DeviceStep::ReadLogits { n: s.vocab }]),
        );
        lemma_chain_sound(t, norms, chain(chain(polled, opening), layers), tail_part(s, t, head));
    }
}

} // verus!
