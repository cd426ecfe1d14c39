//! The steps of a forward pass on a graphics device.
//!
//! Some steps ask the device for a fused operation that it may decline; the steps to take instead
//! are planned separately.  A step that fails ends the pass.
use vstd::hash_map::StringHashMap;
use vstd::prelude::*;

use crate::compute::{kind_of, QuantKind};
use crate::gguf::ggml::GgmlDType;
use crate::llm::shape::Shape;
use crate::llm::tensor::TensorEntry;
use crate::llm::weight::{weight_name, Weight};
use crate::text::{concat2, decimal, decimal_string};

verus! {

/// A buffer on the device.
#[derive(Debug, Clone, Copy, PartialEq, Eq, Structural)]
pub enum DeviceBuf {
    Hidden,
    NormTmp,
    FfnNormTmp,
    OutNormTmp,
    QOut,
    KOut,
    VOut,
    AttnOut,
    GateOut,
    UpOut,
    FfnTmp,
    Fresh(usize),
}

/// Why a pass on the device cannot go on.
#[derive(Debug, Clone, Copy, PartialEq, Eq, Structural)]
pub enum DeviceFault {
    NoDevice,
    MissingEmbedding,
    Missing(Weight),
    Unsupported(Weight),
    FailedMatmul(Weight),
    FailedAttention(usize),
    FailedHead,
}

/// The text of a fault.
pub open spec fn device_fault_text(f: DeviceFault) -> Seq<char> {
    match f {
        DeviceFault::NoDevice => "GPU not available"@,
        DeviceFault::MissingEmbedding => "Missing token_embd.weight"@,
        DeviceFault::Missing(w) => "Missing "@ + weight_name(w),
        DeviceFault::Unsupported(w) => "Unsupported dtype for "@ + weight_name(w),
        DeviceFault::FailedMatmul(w) => "Failed matmul "@ + weight_name(w),
        DeviceFault::FailedAttention(l) => "flash_attention failed layer "@ + decimal(l as nat),
        DeviceFault::FailedHead => "Failed lm_head matmul"@,
    }
}

impl DeviceFault {
    /// The text of the fault.
    pub fn message(&self) -> (r: String)
        ensures
            r@ == device_fault_text(*self),
    {
        match *self {
            DeviceFault::NoDevice => "GPU not available".to_owned(),
            DeviceFault::MissingEmbedding => "Missing token_embd.weight".to_owned(),
            DeviceFault::Missing(w) => {
                let n = w.name();
                concat2("Missing ", n.as_str())
            },
            DeviceFault::Unsupported(w) => {
                let n = w.name();
                concat2("Unsupported dtype for ", n.as_str())
            },
            DeviceFault::FailedMatmul(w) => {
                let n = w.name();
                concat2("Failed matmul ", n.as_str())
            },
            DeviceFault::FailedAttention(l) => {
                let n = decimal_string(l as u64);
                concat2("flash_attention failed layer ", n.as_str())
            },
            DeviceFault::FailedHead => "Failed lm_head matmul".to_owned(),
        }
    }
}

/// One step of a pass on the device.
#[derive(Debug, Clone, Copy, PartialEq, Eq, Structural)]
pub enum DeviceStep {
    CheckCancel,
    Embed { token: u32 },
    BeginBatch,
    Norm { weight: Weight, input: DeviceBuf, output: DeviceBuf },
    /// Ask for queries, keys and values at once; where declined, see `qkv_instead`.
    TryQkv { layer: usize },
    /// A product; `fault` is the failure where the device cannot do it.
    Matmul {
        weight: Weight,
        kind: QuantKind,
        input: DeviceBuf,
        output: DeviceBuf,
        n_rows: usize,
        n_cols: usize,
        fault: DeviceFault,
    },
    Copy { from: DeviceBuf, to: DeviceBuf },
    HeadNorm { weight: Weight, buf: DeviceBuf, heads: usize },
    Rope { buf: DeviceBuf, heads: usize, pos: usize },
    WriteCache { layer: usize, pos: usize, stride: usize },
    /// Attention over a layer's cache, whose values begin at byte `v_offset`.
    Attend { layer: usize, v_offset: u64, seq_len: usize, stride: usize, pos: usize },
    /// Ask for a product that is added to the hidden state; where declined, see `add_instead`.
    TryMatmulAdd { weight: Weight, input: DeviceBuf, n_rows: usize, n_cols: usize },
    Add { from: DeviceBuf, n: usize },
    /// Ask for gate and up products at once; where declined, see `gate_up_instead`.
    TryGateUp { layer: usize },
    SiluMul { n: usize },
    EndBatch,
    ReadLogits { n: usize },
    Fail(DeviceFault),
}

/// Steps, and whether the pass goes on behind them.
pub struct DevicePart {
    pub steps: Seq<DeviceStep>,
    pub ok: bool,
}

pub open spec fn going(steps: Seq<DeviceStep>) -> DevicePart {
    DevicePart { steps, ok: true }
}

pub open spec fn failing(f: DeviceFault) -> DevicePart {
    DevicePart { steps: seq![DeviceStep::Fail(f)], ok: false }
}

/// `a`, then `b` where the pass goes on.
pub open spec fn chain(a: DevicePart, b: DevicePart) -> DevicePart {
    if a.ok {
        DevicePart { steps: a.steps + b.steps, ok: b.ok }
    } else {
        a
    }
}

proof fn lemma_chain(start: Seq<DeviceStep>, a: DevicePart, b: DevicePart)
    ensures
        a.ok ==> start + chain(a, b).steps == start + a.steps + b.steps,
{
    assert(start + (a.steps + b.steps) =~= start + a.steps + b.steps);
}

/// The tensor of a weight.
pub open spec fn tensor_of(t: Map<Seq<char>, TensorEntry>, w: Weight) -> TensorEntry {
    t[weight_name(w)]
}

pub open spec fn holds(t: Map<Seq<char>, TensorEntry>, w: Weight) -> bool {
    t.contains_key(weight_name(w))
}

/// The pass ends unless the weight is there.
pub open spec fn need_part(t: Map<Seq<char>, TensorEntry>, w: Weight) -> DevicePart {
    if holds(t, w) {
        going(Seq::empty())
    } else {
        failing(DeviceFault::Missing(w))
    }
}

/// A product with a weight, where the device knows its format.
pub open spec fn matmul_part(
    t: Map<Seq<char>, TensorEntry>,
    w: Weight,
    input: DeviceBuf,
    output: DeviceBuf,
    n_rows: usize,
    n_cols: usize,
    fault: DeviceFault,
) -> DevicePart {
    match kind_of(tensor_of(t, w).dtype) {
        Some(kind) => going(
            seq![DeviceStep::Matmul { weight: w, kind, input, output, n_rows, n_cols, fault }],
        ),
        None => failing(DeviceFault::Unsupported(w)),
    }
}

/// A product with all rows of a weight.
pub open spec fn rows_part(
    t: Map<Seq<char>, TensorEntry>,
    w: Weight,
    input: DeviceBuf,
    output: DeviceBuf,
    n_cols: usize,
) -> DevicePart {
    matmul_part(t, w, input, output, tensor_of(t, w).rows(), n_cols, DeviceFault::FailedMatmul(w))
}

/// Queries, keys and values one after the other.
pub open spec fn qkv_instead_part(t: Map<Seq<char>, TensorEntry>, layer: usize, d: usize) -> DevicePart {
    let q = rows_part(t, Weight::AttnQ(layer), DeviceBuf::NormTmp, DeviceBuf::Fresh(0), d);
    let k = rows_part(t, Weight::AttnK(layer), DeviceBuf::NormTmp, DeviceBuf::Fresh(1), d);
    let v = rows_part(t, Weight::AttnV(layer), DeviceBuf::NormTmp, DeviceBuf::Fresh(2), d);
    chain(
        chain(chain(q, k), v),
        going(
            seq![
                DeviceStep::Copy { from: DeviceBuf::Fresh(0), to: DeviceBuf::QOut },
                DeviceStep::Copy { from: DeviceBuf::Fresh(1), to: DeviceBuf::KOut },
                DeviceStep::Copy { from: DeviceBuf::Fresh(2), to: DeviceBuf::VOut },
            ],
        ),
    )
}

/// Gate and up products one after the other.
pub open spec fn gate_up_instead_part(
    t: Map<Seq<char>, TensorEntry>,
    layer: usize,
    d: usize,
) -> DevicePart {
    let g = rows_part(t, Weight::FfnGate(layer), DeviceBuf::FfnNormTmp, DeviceBuf::Fresh(0), d);
    let u = rows_part(t, Weight::FfnUp(layer), DeviceBuf::FfnNormTmp, DeviceBuf::Fresh(1), d);
    chain(
        chain(g, u),
        going(
            seq![
                DeviceStep::Copy { from: DeviceBuf::Fresh(0), to: DeviceBuf::GateOut },
                DeviceStep::Copy { from: DeviceBuf::Fresh(1), to: DeviceBuf::UpOut },
            ],
        ),
    )
}

/// A product, then an addition to the hidden state.
pub open spec fn add_instead_part(
    t: Map<Seq<char>, TensorEntry>,
    w: Weight,
    input: DeviceBuf,
    n_cols: usize,
    d: usize,
) -> DevicePart {
    chain(
        rows_part(t, w, input, DeviceBuf::Fresh(0), n_cols),
        going(seq![DeviceStep::Add { from: DeviceBuf::Fresh(0), n: d }]),
    )
}

/// The fused form where the weight is binary, else the separate steps.
pub open spec fn fused_or(
    t: Map<Seq<char>, TensorEntry>,
    w: Weight,
    fused: DeviceStep,
    instead: DevicePart,
) -> DevicePart {
    if kind_of(tensor_of(t, w).dtype) == Some(QuantKind::Q1_0G128) {
        going(seq![fused])
    } else {
        instead
    }
}

/// Normalise heads, where the first layer has a weight for that and this layer's can be read.
pub open spec fn head_norm_part(
    t: Map<Seq<char>, TensorEntry>,
    norms: Set<Seq<char>>,
    w: Weight,
    buf: DeviceBuf,
    heads: usize,
) -> DevicePart {
    if holds(t, Weight::AttnQNorm(0)) && norms.contains(weight_name(w)) {
        going(seq![DeviceStep::HeadNorm { weight: w, buf, heads }])
    } else {
        going(Seq::empty())
    }
}

/// Positions per head in the device's cache.
pub open spec fn stride_of(s: Shape, cache_max_seq: usize) -> usize {
    if cache_max_seq < s.max_seq {
        cache_max_seq
    } else {
        s.max_seq
    }
}

/// Rotate, store and attend.
pub open spec fn attend_steps(s: Shape, layer: usize, pos: usize, stride: usize) -> Seq<DeviceStep> {
    seq![
        DeviceStep::Rope { buf: DeviceBuf::QOut, heads: s.n_heads, pos },
        DeviceStep::Rope { buf: DeviceBuf::KOut, heads: s.n_kv_heads, pos },
        DeviceStep::WriteCache { layer, pos, stride },
        DeviceStep::Attend {
            layer,
            v_offset: (s.n_kv_heads * stride * s.head_dim * 4) as u64,
            seq_len: (pos + 1) as usize,
            stride,
            pos,
        },
    ]
}

/// The first half of a layer: normalisation, projections, attention.
pub open spec fn first_half(
    s: Shape,
    t: Map<Seq<char>, TensorEntry>,
    norms: Set<Seq<char>>,
    layer: usize,
    pos: usize,
    stride: usize,
) -> DevicePart {
    let opened = going(
        seq![
            DeviceStep::CheckCancel,
            DeviceStep::Norm {
                weight: Weight::AttnNorm(layer),
                input: DeviceBuf::Hidden,
                output: DeviceBuf::NormTmp,
            },
        ],
    );
    let p1 = chain(opened, need_part(t, Weight::AttnQ(layer)));
    let p2 = chain(p1, need_part(t, Weight::AttnK(layer)));
    let p3 = chain(p2, need_part(t, Weight::AttnV(layer)));
    let p4 = chain(
        p3,
        fused_or(
            t,
            Weight::AttnQ(layer),
            DeviceStep::TryQkv { layer },
            qkv_instead_part(t, layer, s.d),
        ),
    );
    let p5 = chain(
        p4,
        head_norm_part(t, norms, Weight::AttnQNorm(layer), DeviceBuf::QOut, s.n_heads),
    );
    let p6 = chain(
        p5,
        head_norm_part(t, norms, Weight::AttnKNorm(layer), DeviceBuf::KOut, s.n_kv_heads),
    );
    chain(p6, going(attend_steps(s, layer, pos, stride)))
}

/// The second half of a layer: output projection and feed-forward part.
pub open spec fn second_half(s: Shape, t: Map<Seq<char>, TensorEntry>, layer: usize) -> DevicePart {
    let p1 = chain(need_part(t, Weight::AttnOutput(layer)), need_part(t, Weight::FfnGate(layer)));
    let p2 = chain(p1, need_part(t, Weight::FfnUp(layer)));
    let p3 = chain(p2, need_part(t, Weight::FfnDown(layer)));
    let projected = going(
        seq![
            DeviceStep::TryMatmulAdd {
                weight: Weight::AttnOutput(layer),
                input: DeviceBuf::AttnOut,
                n_rows: tensor_of(t, Weight::AttnOutput(layer)).rows(),
                n_cols: s.nq() as usize,
            },
            DeviceStep::Norm {
                weight: Weight::FfnNorm(layer),
                input: DeviceBuf::Hidden,
                output: DeviceBuf::FfnNormTmp,
            },
        ],
    );
    let p4 = chain(p3, projected);
    let p5 = chain(
        p4,
        fused_or(
            t,
            Weight::FfnGate(layer),
            DeviceStep::TryGateUp { layer },
            gate_up_instead_part(t, layer, s.d),
        ),
    );
    chain(
        p5,
        going(
            seq![
                DeviceStep::SiluMul { n: s.ffn },
                DeviceStep::TryMatmulAdd {
                    weight: Weight::FfnDown(layer),
                    input: DeviceBuf::FfnTmp,
                    n_rows: tensor_of(t, Weight::FfnDown(layer)).rows(),
                    n_cols: s.ffn,
                },
            ],
        ),
    )
}

/// The layers from `from` on.
pub open spec fn layers_part(
    s: Shape,
    t: Map<Seq<char>, TensorEntry>,
    norms: Set<Seq<char>>,
    from: usize,
    pos: usize,
    stride: usize,
) -> DevicePart
    decreases s.n_layers - from,
{
    if from >= s.n_layers {
        going(Seq::empty())
    } else {
        chain(
            chain(first_half(s, t, norms, from, pos, stride), second_half(s, t, from)),
            layers_part(s, t, norms, (from + 1) as usize, pos, stride),
        )
    }
}

/// What follows the layers.
pub open spec fn tail_part(s: Shape, t: Map<Seq<char>, TensorEntry>, head: Weight) -> DevicePart {
    let normed = going(
        seq![
            DeviceStep::Norm {
                weight: Weight::OutputNorm,
                input: DeviceBuf::Hidden,
                output: DeviceBuf::OutNormTmp,
            },
        ],
    );
    let p1 = chain(normed, need_part(t, head));
    let p2 = chain(
        p1,
        matmul_part(
            t,
            head,
            DeviceBuf::OutNormTmp,
            DeviceBuf::Fresh(0),
            s.vocab,
            s.d,
            DeviceFault::FailedHead,
        ),
    );
    chain(p2, going(seq![DeviceStep::EndBatch, DeviceStep::ReadLogits { n: s.vocab }]))
}

/// A whole pass for one token at `pos`.
pub open spec fn device_pass(
    s: Shape,
    t: Map<Seq<char>, TensorEntry>,
    norms: Set<Seq<char>>,
    device: bool,
    token: u32,
    pos: usize,
    cache_max_seq: usize,
    head: Weight,
) -> DevicePart {
    let polled = going(seq![DeviceStep::CheckCancel]);
    if !device {
        chain(polled, failing(DeviceFault::NoDevice))
    } else if !holds(t, Weight::TokenEmbd) {
        chain(polled, failing(DeviceFault::MissingEmbedding))
    } else {
        let opened = chain(
            polled,
            going(seq![DeviceStep::Embed { token }, DeviceStep::BeginBatch]),
        );
        let layers = chain(opened, layers_part(s, t, norms, 0, pos, stride_of(s, cache_max_seq)));
        chain(layers, tail_part(s, t, head))
    }
}

/// Every layer has its normalisation weights, and so has the output.
pub open spec fn norms_present(s: Shape, norms: Set<Seq<char>>) -> bool {
    &&& forall|i: usize|
        i < s.n_layers ==> norms.contains(#[trigger] weight_name(Weight::AttnNorm(i)))
            && norms.contains(weight_name(Weight::FfnNorm(i)))
    &&& norms.contains(weight_name(Weight::OutputNorm))
}

/// Whether every layer has its normalisation weights, and so has the output, as a pass on the
/// device needs.
pub fn has_device_norms(shape: &Shape, norms: &StringHashMap<bool>) -> (r: bool)
    ensures
        r == norms_present(*shape, norms@.dom()),
{
    let last = Weight::OutputNorm.name();
    if !norms.contains_key(last.as_str()) {
        return false;
    }
    let mut i: usize = 0;
    while i < shape.n_layers
        invariant
            i <= shape.n_layers,
            norms@.dom().contains(weight_name(Weight::OutputNorm)),
            forall|k: usize|
                k < i ==> norms@.dom().contains(#[trigger] weight_name(Weight::AttnNorm(k)))
                    && norms@.dom().contains(weight_name(Weight::FfnNorm(k))),
        decreases shape.n_layers - i,
    {
        let a = Weight::AttnNorm(i).name();
        let f = Weight::FfnNorm(i).name();
        if !norms.contains_key(a.as_str()) || !norms.contains_key(f.as_str()) {
            assert(!norms@.dom().contains(weight_name(Weight::AttnNorm(i)))
                || !norms@.dom().contains(weight_name(Weight::FfnNorm(i))));
            return false;
        }
        i += 1;
    }
    assert forall|k: usize| k < shape.n_layers implies norms@.dom().contains(
        #[trigger] weight_name(Weight::AttnNorm(k)),
    ) && norms@.dom().contains(weight_name(Weight::FfnNorm(k))) by {}
    assert(norms@.dom().contains(weight_name(Weight::OutputNorm)));
    assert(norms_present(*shape, norms@.dom()));
    true
}

/// What a pass on the device is planned with.
pub struct DevicePlanner<'a> {
    pub shape: Shape,
    pub tensors: &'a StringHashMap<TensorEntry>,
    pub norms: &'a StringHashMap<bool>,
}

impl<'a> DevicePlanner<'a> {
    fn contains(&self, w: Weight) -> (r: bool)
        ensures
            r == holds(self.tensors@, w),
    {
        let name = w.name();
        self.tensors.contains_key(name.as_str())
    }

    fn push_need(&self, w: Weight, out: &mut Vec<DeviceStep>) -> (ok: bool)
        ensures
            final(out)@ == old(out)@ + need_part(self.tensors@, w).steps,
            ok == need_part(self.tensors@, w).ok,
            ok == holds(self.tensors@, w),
    {
        let ok = self.contains(w);
        if !ok {
            out.push(DeviceStep::Fail(DeviceFault::Missing(w)));
        }
        assert(out@ =~= old(out)@ + need_part(self.tensors@, w).steps);
        ok
    }

    fn rows_of(&self, w: Weight) -> (r: usize)
        requires
            holds(self.tensors@, w),
        ensures
            r == tensor_of(self.tensors@, w).rows(),
    {
        let name = w.name();
        self.tensors.get(name.as_str()).unwrap().n_rows()
    }

    fn kind_of_weight(&self, w: Weight) -> (r: Option<QuantKind>)
        requires
            holds(self.tensors@, w),
        ensures
            r == kind_of(tensor_of(self.tensors@, w).dtype),
    {
        let name = w.name();
        QuantKind::from_gguf_dtype(self.tensors.get(name.as_str()).unwrap().dtype)
    }

    fn push_matmul(
        &self,
        w: Weight,
        input: DeviceBuf,
        output: DeviceBuf,
        n_rows: usize,
        n_cols: usize,
        fault: DeviceFault,
        out: &mut Vec<DeviceStep>,
    ) -> (ok: bool)
        requires
            holds(self.tensors@, w),
        ensures
            ({
                let p = matmul_part(self.tensors@, w, input, output, n_rows, n_cols, fault);
                final(out)@ == old(out)@ + p.steps && ok == p.ok
            }),
    {
        let ghost p = matmul_part(self.tensors@, w, input, output, n_rows, n_cols, fault);
        match self.kind_of_weight(w) {
            Some(kind) => {
                out.push(
                    DeviceStep::Matmul { weight: w, kind, input, output, n_rows, n_cols, fault },
                );
                assert(out@ =~= old(out)@ + p.steps);
                true
            },
            None => {
                out.push(DeviceStep::Fail(DeviceFault::Unsupported(w)));
                assert(out@ =~= old(out)@ + p.steps);
                false
            },
        }
    }

    fn push_rows(&self, w: Weight, input: DeviceBuf, output: DeviceBuf, n_cols: usize, out: &mut Vec<
        DeviceStep,
    >) -> (ok: bool)
        requires
            holds(self.tensors@, w),
        ensures
            ({
                let p = rows_part(self.tensors@, w, input, output, n_cols);
                final(out)@ == old(out)@ + p.steps && ok == p.ok
            }),
    {
        let n_rows: usize = self.rows_of(w);
        self.push_matmul(w, input, output, n_rows, n_cols, DeviceFault::FailedMatmul(w), out)
    }

    /// Plans queries, keys and values one after the other.
    pub fn qkv_instead(&self, layer: usize, out: &mut Vec<DeviceStep>) -> (ok: bool)
        requires
            holds(self.tensors@, Weight::AttnQ(layer)),
            holds(self.tensors@, Weight::AttnK(layer)),
            holds(self.tensors@, Weight::AttnV(layer)),
        ensures
            ({
                let p = qkv_instead_part(self.tensors@, layer, self.shape.d);
                final(out)@ == old(out)@ + p.steps && ok == p.ok
            }),
    {
        let d: usize = self.shape.d;
        let ghost p = qkv_instead_part(self.tensors@, layer, d);
        let input = DeviceBuf::NormTmp;
        if !self.push_rows(Weight::AttnQ(layer), input, DeviceBuf::Fresh(0), d, out) {
            return false;
        }
        if !self.push_rows(Weight::AttnK(layer), input, DeviceBuf::Fresh(1), d, out) {
            assert(out@ =~= old(out)@ + p.steps);
            return false;
        }
        if !self.push_rows(Weight::AttnV(layer), input, DeviceBuf::Fresh(2), d, out) {
            assert(out@ =~= old(out)@ + p.steps);
            return false;
        }
        out.push(DeviceStep::Copy { from: DeviceBuf::Fresh(0), to: DeviceBuf::QOut });
        out.push(DeviceStep::Copy { from: DeviceBuf::Fresh(1), to: DeviceBuf::KOut });
        out.push(DeviceStep::Copy { from: DeviceBuf::Fresh(2), to: DeviceBuf::VOut });
        assert(out@ =~= old(out)@ + p.steps);
        true
    }

    /// Plans gate and up products one after the other.
    pub fn gate_up_instead(&self, layer: usize, out: &mut Vec<DeviceStep>) -> (ok: bool)
        requires
            holds(self.tensors@, Weight::FfnGate(layer)),
            holds(self.tensors@, Weight::FfnUp(layer)),
        ensures
            ({
                let p = gate_up_instead_part(self.tensors@, layer, self.shape.d);
                final(out)@ == old(out)@ + p.steps && ok == p.ok
            }),
    {
        let d: usize = self.shape.d;
        let ghost p = gate_up_instead_part(self.tensors@, layer, d);
        let input = DeviceBuf::FfnNormTmp;
        if !self.push_rows(Weight::FfnGate(layer), input, DeviceBuf::Fresh(0), d, out) {
            return false;
        }
        if !self.push_rows(Weight::FfnUp(layer), input, DeviceBuf::Fresh(1), d, out) {
            assert(out@ =~= old(out)@ + p.steps);
            return false;
        }
        out.push(DeviceStep::Copy { from: DeviceBuf::Fresh(0), to: DeviceBuf::GateOut });
        out.push(DeviceStep::Copy { from: DeviceBuf::Fresh(1), to: DeviceBuf::UpOut });
        assert(out@ =~= old(out)@ + p.steps);
        true
    }

    /// Plans a product and its addition to the hidden state.
    pub fn add_instead(&self, w: Weight, input: DeviceBuf, n_cols: usize, out: &mut Vec<DeviceStep>)
     -> (ok: bool)
        requires
            holds(self.tensors@, w),
        ensures
            ({
                let p = add_instead_part(self.tensors@, w, input, n_cols, self.shape.d);
                final(out)@ == old(out)@ + p.steps && ok == p.ok
            }),
    {
        let ghost p = add_instead_part(self.tensors@, w, input, n_cols, self.shape.d);
        if !self.push_rows(w, input, DeviceBuf::Fresh(0), n_cols, out) {
            return false;
        }
        out.push(DeviceStep::Add { from: DeviceBuf::Fresh(0), n: self.shape.d });
        assert(out@ =~= old(out)@ + p.steps);
        true
    }

    fn push_head_norm(&self, w: Weight, buf: DeviceBuf, heads: usize, out: &mut Vec<DeviceStep>)
        ensures
            final(out)@ == old(out)@ + head_norm_part(
                self.tensors@,
                self.norms@.dom(),
                w,
                buf,
                heads,
            ).steps,
    {
        let name = w.name();
        if self.contains(Weight::AttnQNorm(0)) && self.norms.contains_key(name.as_str()) {
            out.push(DeviceStep::HeadNorm { weight: w, buf, heads });
        }
        assert(out@ =~= old(out)@ + head_norm_part(
            self.tensors@,
            self.norms@.dom(),
            w,
            buf,
            heads,
        ).steps);
    }

    fn push_first_half(&self, layer: usize, pos: usize, stride: usize, out: &mut Vec<DeviceStep>)
     -> (ok: bool)
        requires
            pos < usize::MAX,
            self.shape.n_kv_heads * stride <= usize::MAX,
            self.shape.n_kv_heads * stride * self.shape.head_dim <= usize::MAX,
            self.shape.n_kv_heads * stride * self.shape.head_dim * 4 <= u64::MAX,
        ensures
            ({
                let p = first_half(
                    self.shape,
                    self.tensors@,
                    self.norms@.dom(),
                    layer,
                    pos,
                    stride,
                );
                final(out)@ == old(out)@ + p.steps && ok == p.ok
            }),
    {
        let s = self.shape;
        let ghost t = self.tensors@;
        let ghost norms = self.norms@.dom();
        let ghost start = out@;
        let ghost opened = going(
            seq![
                DeviceStep::CheckCancel,
                DeviceStep::Norm {
                    weight: Weight::AttnNorm(layer),
                    input: DeviceBuf::Hidden,
                    output: DeviceBuf::NormTmp,
                },
            ],
        );
        out.push(DeviceStep::CheckCancel);
        out.push(
            DeviceStep::Norm {
                weight: Weight::AttnNorm(layer),
                input: DeviceBuf::Hidden,
                output: DeviceBuf::NormTmp,
            },
        );
        assert(out@ =~= start + opened.steps);
        let ghost nq = need_part(t, Weight::AttnQ(layer));
        let ghost nk = need_part(t, Weight::AttnK(layer));
        let ghost nv = need_part(t, Weight::AttnV(layer));
        let ghost p1 = chain(opened, nq);
        let ghost p2 = chain(p1, nk);
        let ghost p3 = chain(p2, nv);
        proof {
            lemma_chain(start, opened, nq);
            lemma_chain(start, p1, nk);
            lemma_chain(start, p2, nv);
        }
        if !self.push_need(Weight::AttnQ(layer), out) {
            return false;
        }
        if !self.push_need(Weight::AttnK(layer), out) {
            return false;
        }
        if !self.push_need(Weight::AttnV(layer), out) {
            return false;
        }
        let ghost f = fused_or(
            t,
            Weight::AttnQ(layer),
            DeviceStep::TryQkv { layer },
            qkv_instead_part(t, layer, s.d),
        );
        let ghost p4 = chain(p3, f);
        let ghost before = out@;
        let fused = match self.kind_of_weight(Weight::AttnQ(layer)) {
            Some(k) => k == QuantKind::Q1_0G128,
            None => false,
        };
        let mut ok = true;
        if fused {
            out.push(DeviceStep::TryQkv { layer });
        } else {
            ok = self.qkv_instead(layer, out);
        }
        proof {
            assert(out@ =~= before + f.steps);
            lemma_chain(start, p3, f);
        }
        if !ok {
            return false;
        }
        let ghost hq = head_norm_part(
            t,
            norms,
            Weight::AttnQNorm(layer),
            DeviceBuf::QOut,
            s.n_heads,
        );
        let ghost hk = head_norm_part(
            t,
            norms,
            Weight::AttnKNorm(layer),
            DeviceBuf::KOut,
            s.n_kv_heads,
        );
        let ghost p5 = chain(p4, hq);
        let ghost p6 = chain(p5, hk);
        self.push_head_norm(Weight::AttnQNorm(layer), DeviceBuf::QOut, s.n_heads, out);
        self.push_head_norm(Weight::AttnKNorm(layer), DeviceBuf::KOut, s.n_kv_heads, out);
        proof {
            lemma_chain(start, p4, hq);
            lemma_chain(start, p5, hk);
            assert(0 <= s.n_kv_heads * stride) by (nonlinear_arith);
            assert(0 <= s.n_kv_heads * stride * s.head_dim) by (nonlinear_arith)
                requires
                    0 <= s.n_kv_heads * stride,
            {
            }
        }
        let ghost at = going(attend_steps(s, layer, pos, stride));
        let ghost before2 = out@;
        let v_offset: u64 = (s.n_kv_heads * stride * s.head_dim) as u64 * 4;
        out.push(DeviceStep::Rope { buf: DeviceBuf::QOut, heads: s.n_heads, pos });
        out.push(DeviceStep::Rope { buf: DeviceBuf::KOut, heads: s.n_kv_heads, pos });
        out.push(DeviceStep::WriteCache { layer, pos, stride });
        out.push(DeviceStep::Attend { layer, v_offset, seq_len: pos + 1, stride, pos });
        proof {
            assert(out@ =~= before2 + at.steps);
            lemma_chain(start, p6, at);
        }
        true
    }

    fn push_second_half(&self, layer: usize, out: &mut Vec<DeviceStep>) -> (ok: bool)
        requires
            self.shape.nq() <= usize::MAX,
        ensures
            ({
                let p = second_half(self.shape, self.tensors@, layer);
                final(out)@ == old(out)@ + p.steps && ok == p.ok
            }),
    {
        let s = self.shape;
        let ghost t = self.tensors@;
        let ghost start = out@;
        let ghost na = need_part(t, Weight::AttnOutput(layer));
        let ghost ng = need_part(t, Weight::FfnGate(layer));
        let ghost nu = need_part(t, Weight::FfnUp(layer));
        let ghost nd = need_part(t, Weight::FfnDown(layer));
        let ghost p1 = chain(na, ng);
        let ghost p2 = chain(p1, nu);
        let ghost p3 = chain(p2, nd);
        proof {
            lemma_chain(start, na, ng);
            lemma_chain(start, p1, nu);
            lemma_chain(start, p2, nd);
        }
        if !self.push_need(Weight::AttnOutput(layer), out) {
            return false;
        }
        if !self.push_need(Weight::FfnGate(layer), out) {
            return false;
        }
        if !self.push_need(Weight::FfnUp(layer), out) {
            return false;
        }
        if !self.push_need(Weight::FfnDown(layer), out) {
            return false;
        }
        let ghost before = out@;
        let add_out = DeviceStep::TryMatmulAdd {
            weight: Weight::AttnOutput(layer),
            input: DeviceBuf::AttnOut,
            n_rows: self.rows_of(Weight::AttnOutput(layer)),
            n_cols: s.n_heads * s.head_dim,
        };
        let norm = DeviceStep::Norm {
            weight: Weight::FfnNorm(layer),
            input: DeviceBuf::Hidden,
            output: DeviceBuf::FfnNormTmp,
        };
        let ghost projected = going(seq![add_out, norm]);
        let ghost p4 = chain(p3, projected);
        out.push(add_out);
        out.push(norm);
        proof {
            assert(out@ =~= before + projected.steps);
            lemma_chain(start, p3, projected);
        }
        let ghost f = fused_or(
            t,
            Weight::FfnGate(layer),
            DeviceStep::TryGateUp { layer },
            gate_up_instead_part(t, layer, s.d),
        );
        let ghost p5 = chain(p4, f);
        let ghost before2 = out@;
        let fused = match self.kind_of_weight(Weight::FfnGate(layer)) {
            Some(k) => k == QuantKind::Q1_0G128,
            None => false,
        };
        let mut ok = true;
        if fused {
            out.push(DeviceStep::TryGateUp { layer });
        } else {
            ok = self.gate_up_instead(layer, out);
        }
        proof {
            assert(out@ =~= before2 + f.steps);
            lemma_chain(start, p4, f);
        }
        if !ok {
            return false;
        }
        let ghost before3 = out@;
        let down = DeviceStep::TryMatmulAdd {
            weight: Weight::FfnDown(layer),
            input: DeviceBuf::FfnTmp,
            n_rows: self.rows_of(Weight::FfnDown(layer)),
            n_cols: s.ffn,
        };
        let ghost last = going(seq![DeviceStep::SiluMul { n: s.ffn }, down]);
        out.push(DeviceStep::SiluMul { n: s.ffn });
        out.push(down);
        proof {
            assert(out@ =~= before3 + last.steps);
            lemma_chain(start, p5, last);
        }
        true
    }

    fn push_layers(&self, pos: usize, stride: usize, out: &mut Vec<DeviceStep>) -> (ok: bool)
        requires
            pos < usize::MAX,
            self.shape.nq() <= usize::MAX,
            self.shape.n_kv_heads * stride <= usize::MAX,
            self.shape.n_kv_heads * stride * self.shape.head_dim <= usize::MAX,
            self.shape.n_kv_heads * stride * self.shape.head_dim * 4 <= u64::MAX,
        ensures
            ({
                let p = layers_part(
                    self.shape,
                    self.tensors@,
                    self.norms@.dom(),
                    0,
                    pos,
                    stride,
                );
                final(out)@ == old(out)@ + p.steps && ok == p.ok
            }),
    {
        let ghost (s, t, norms) = (self.shape, self.tensors@, self.norms@.dom());
        let ghost whole = layers_part(s, t, norms, 0, pos, stride);
        let ghost begin = out@;
        let mut layer: usize = 0;
        while layer < self.shape.n_layers
            invariant
                pos < usize::MAX,
                self.shape.nq() <= usize::MAX,
                self.shape.n_kv_heads * stride <= usize::MAX,
                self.shape.n_kv_heads * stride * self.shape.head_dim <= usize::MAX,
                self.shape.n_kv_heads * stride * self.shape.head_dim * 4 <= u64::MAX,
                s == self.shape,
                t == self.tensors@,
                norms == self.norms@.dom(),
                begin == old(out)@,
                whole == layers_part(s, t, norms, 0, pos, stride),
                layer <= s.n_layers,
                ({
                    let rest = layers_part(s, t, norms, layer, pos, stride);
                    begin + whole.steps == out@ + rest.steps && whole.ok == rest.ok
                }),
            decreases s.n_layers - layer,
        {
            let ghost start = out@;
            let ghost a = first_half(s, t, norms, layer, pos, stride);
            let ghost b = second_half(s, t, layer);
            let ghost c = layers_part(s, t, norms, (layer + 1) as usize, pos, stride);
            proof {
                lemma_chain(start, a, b);
                lemma_chain(start, chain(a, b), c);
            }
            if !self.push_first_half(layer, pos, stride, out) {
                return false;
            }
            if !self.push_second_half(layer, out) {
                return false;
            }
            layer += 1;
        }
        assert(out@ + Seq::<DeviceStep>::empty() =~= out@);
        true
    }

    fn push_tail(&self, head: Weight, out: &mut Vec<DeviceStep>) -> (ok: bool)
        ensures
            ({
                let p = tail_part(self.shape, self.tensors@, head);
                final(out)@ == old(out)@ + p.steps && ok == p.ok
            }),
    {
        let s = self.shape;
        let ghost p = tail_part(s, self.tensors@, head);
        out.push(
            DeviceStep::Norm {
                weight: Weight::OutputNorm,
                input: DeviceBuf::Hidden,
                output: DeviceBuf::OutNormTmp,
            },
        );
        if !self.push_need(head, out) {
            assert(out@ =~= old(out)@ + p.steps);
            return false;
        }
        if !self.push_matmul(
            head,
            DeviceBuf::OutNormTmp,
            DeviceBuf::Fresh(0),
            s.vocab,
            s.d,
            DeviceFault::FailedHead,
            out,
        ) {
            assert(out@ =~= old(out)@ + p.steps);
            return false;
        }
        out.push(DeviceStep::EndBatch);
        out.push(DeviceStep::ReadLogits { n: s.vocab });
        assert(out@ =~= old(out)@ + p.steps);
        true
    }

    /// Plans a pass for one token at `pos`.  `device` says whether there is a device at all, and
    /// `cache_max_seq` how many positions its cache has.
    pub fn plan(
        &self,
        device: bool,
        token: u32,
        pos: usize,
        cache_max_seq: usize,
        head: Weight,
    ) -> (r: Vec<DeviceStep>)
        requires
            pos < usize::MAX,
            self.shape.nq() <= usize::MAX,
            self.shape.n_kv_heads * self.shape.max_seq <= usize::MAX,
            self.shape.n_kv_heads * self.shape.max_seq * self.shape.head_dim <= usize::MAX,
            self.shape.n_kv_heads * self.shape.max_seq * self.shape.head_dim * 4 <= u64::MAX,
        ensures
            r@ == device_pass(
                self.shape,
                self.tensors@,
                self.norms@.dom(),
                device,
                token,
                pos,
                cache_max_seq,
                head,
            ).steps,
    {
        let s = self.shape;
        let ghost (t, norms) = (self.tensors@, self.norms@.dom());
        let ghost whole = device_pass(s, t, norms, device, token, pos, cache_max_seq, head);
        let mut out: Vec<DeviceStep> = Vec::new();
        out.push(DeviceStep::CheckCancel);
        if !device {
            out.push(DeviceStep::Fail(DeviceFault::NoDevice));
            assert(out@ =~= whole.steps);
            return out;
        }
        if !self.contains(Weight::TokenEmbd) {
            out.push(DeviceStep::Fail(DeviceFault::MissingEmbedding));
            assert(out@ =~= whole.steps);
            return out;
        }
        let ghost start = Seq::<DeviceStep>::empty();
        let ghost polled = going(seq![DeviceStep::CheckCancel]);
        let ghost opened = chain(
            polled,
            going(seq![DeviceStep::Embed { token }, DeviceStep::BeginBatch]),
        );
        out.push(DeviceStep::Embed { token });
        out.push(DeviceStep::BeginBatch);
        assert(out@ =~= start + opened.steps);
        let stride: usize = if cache_max_seq < s.max_seq { cache_max_seq } else { s.max_seq };
        proof {
            let (k, a, m, h) = (
                s.n_kv_heads as int,
                stride as int,
                s.max_seq as int,
                s.head_dim as int,
            );
            assert(0 <= k * a <= k * m && 0 <= k * a * h <= k * m * h) by (nonlinear_arith)
                requires
                    0 <= k,
                    0 <= a <= m,
                    0 <= h,
            {
            }
        }
        let ghost l = layers_part(s, t, norms, 0, pos, stride);
        let ghost tail = tail_part(s, t, head);
        let ok = self.push_layers(pos, stride, &mut out);
        proof {
            lemma_chain(start, opened, l);
            lemma_chain(start, chain(opened, l), tail);
        }
        if !ok {
            assert(out@ =~= whole.steps);
            return out;
        }
        self.push_tail(head, &mut out);
        assert(out@ =~= whole.steps);
        out
    }
}

/// Whether the device can take the whole model: every weight is plain, or in a format that it can
/// expand.
pub open spec fn device_takes(d: GgmlDType, expands: bool) -> bool {
    d is F32 || d is F16 || (kind_of(d) is Some && expands)
}

/// Whether the device can take a weight; `expands` says whether it can expand the weight's format.
pub fn device_takes_weight(d: GgmlDType, expands: bool) -> (r: bool)
    ensures
        r == device_takes(d, expands),
{
    match d {
        GgmlDType::F32 | GgmlDType::F16 => true,
        _ => QuantKind::from_gguf_dtype(d).is_some() && expands,
    }
}

/// The form in which a weight is handed to the device.
#[derive(Debug, Clone, Copy, PartialEq, Eq, Structural)]
pub enum UploadForm {
    /// Its single-precision values.
    Singles,
    /// Its half-precision values, packed.
    PackedHalves,
    /// Its half-precision values, widened.
    WidenedHalves,
    /// Its brain-float values, widened.
    WidenedBrains,
    /// Its blocks as they are.
    Blocks,
}

/// The form in which a weight is handed to the device; `has_half` says whether the device
/// multiplies in half precision.
pub fn upload_form(d: GgmlDType, has_half: bool) -> (r: UploadForm)
    ensures
        r == match d {
            GgmlDType::F32 => UploadForm::Singles,
            GgmlDType::F16 => if has_half {
                UploadForm::PackedHalves
            } else {
                UploadForm::WidenedHalves
            },
            GgmlDType::BF16 => UploadForm::WidenedBrains,
            _ => UploadForm::Blocks,
        },
{
    match d {
        GgmlDType::F32 => UploadForm::Singles,
        GgmlDType::F16 => if has_half {
            UploadForm::PackedHalves
        } else {
            UploadForm::WidenedHalves
        },
        GgmlDType::BF16 => UploadForm::WidenedBrains,
        _ => UploadForm::Blocks,
    }
}

} // verus!
