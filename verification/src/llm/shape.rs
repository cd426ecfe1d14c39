//! Dimensions of a model in memory, and what follows from them when it is loaded.
use vstd::prelude::*;

use crate::engine::request::LoadStrategy;
use crate::llm::config::ModelConfig;
use crate::llm::pool::{div_ceil, div_up};

verus! {

/// The dimensions that a forward pass works with.
#[derive(Debug, Clone, Copy, PartialEq, Eq, Structural)]
pub struct Shape {
    pub d: usize,
    pub n_heads: usize,
    pub n_kv_heads: usize,
    pub head_dim: usize,
    pub n_layers: usize,
    pub ffn: usize,
    pub vocab: usize,
    pub max_seq: usize,
    pub rope_dim: usize,
    pub n_experts: usize,
    pub n_experts_per_tok: usize,
}

/// The width of a head: what the query weights of the first layer show, where their rows divide
/// evenly among the heads, and else what the configuration states.
pub open spec fn head_width(q_rows: Option<usize>, n_heads: usize, head_dim: usize) -> usize {
    match q_rows {
        Some(rows) => if rows as int % n_heads as int == 0 {
            (rows as int / n_heads as int) as usize
        } else {
            head_dim
        },
        None => head_dim,
    }
}

/// The width of a head, from the rows of the first layer's query weights.
pub fn resolve_head_dim(q_rows: Option<usize>, n_heads: usize, head_dim: usize) -> (r: usize)
    requires
        0 < n_heads,
    ensures
        r == head_width(q_rows, n_heads, head_dim),
{
    match q_rows {
        Some(rows) => {
            let computed: usize = rows / n_heads;
            proof {
                vstd::arithmetic::div_mod::lemma_fundamental_div_mod(rows as int, n_heads as int);
                assert(computed * n_heads == n_heads * computed) by (nonlinear_arith);
                assert(0 <= computed * n_heads <= rows) by {
                    vstd::arithmetic::div_mod::lemma_mod_bound(rows as int, n_heads as int);
                    assert(0 <= computed * n_heads) by (nonlinear_arith);
                }
            }
            if computed * n_heads == rows {
                computed
            } else {
                head_dim
            }
        },
        None => head_dim,
    }
}

/// The dimensions of a configuration.
pub fn shape_of(config: &ModelConfig) -> (r: Shape)
    ensures
        r == (Shape {
            d: config.d_model as usize,
            n_heads: config.n_heads as usize,
            n_kv_heads: config.n_kv_heads as usize,
            head_dim: config.head_dim as usize,
            n_layers: config.n_layers as usize,
            ffn: config.d_ffn as usize,
            vocab: config.vocab_size as usize,
            max_seq: config.max_seq_len as usize,
            rope_dim: config.rope_dim as usize,
            n_experts: config.n_experts as usize,
            n_experts_per_tok: config.n_experts_per_tok as usize,
        }),
{
    Shape {
        d: config.d_model as usize,
        n_heads: config.n_heads as usize,
        n_kv_heads: config.n_kv_heads as usize,
        head_dim: config.head_dim as usize,
        n_layers: config.n_layers as usize,
        ffn: config.d_ffn as usize,
        vocab: config.vocab_size as usize,
        max_seq: config.max_seq_len as usize,
        rope_dim: config.rope_dim as usize,
        n_experts: config.n_experts as usize,
        n_experts_per_tok: config.n_experts_per_tok as usize,
    }
}

/// A buffer of a forward pass.
#[derive(Debug, Clone, Copy, PartialEq, Eq, Structural)]
pub enum Buf {
    Hidden,
    Residual,
    AttnOut,
    QBuf,
    KBuf,
    VBuf,
    QHeads,
    KHeads,
    VHeads,
    Gate,
    Up,
    FfnTmp,
    NormTmp,
    HeadNormTmp,
    AttnScores,
    Logits,
    States,
    Pooled,
}

impl Shape {
    /// Elements of all query heads of a token.
    pub open spec fn nq(&self) -> int {
        self.n_heads * self.head_dim
    }

    /// Elements of all key heads, or value heads, of a token.
    pub open spec fn nkv(&self) -> int {
        self.n_kv_heads * self.head_dim
    }

    /// Elements per token of a buffer that has a row for each token.
    pub open spec fn width(&self, buf: Buf) -> int {
        match buf {
            Buf::Hidden | Buf::Residual | Buf::NormTmp | Buf::States => self.d as int,
            Buf::AttnOut | Buf::QBuf | Buf::QHeads => self.nq(),
            Buf::KBuf | Buf::VBuf | Buf::KHeads | Buf::VHeads => self.nkv(),
            Buf::Gate | Buf::Up | Buf::FfnTmp => self.ffn as int,
            _ => 0,
        }
    }

    /// Whether every buffer for a pass over `tokens` tokens can be addressed.
    pub fn is_addressable(&self, tokens: usize) -> (r: bool)
        ensures
            r == self.fits(tokens as int),
    {
        let nq: usize = match self.n_heads.checked_mul(self.head_dim) {
            Some(x) => x,
            None => return false,
        };
        let nkv: usize = match self.n_kv_heads.checked_mul(self.head_dim) {
            Some(x) => x,
            None => return false,
        };
        tokens.checked_mul(self.d).is_some() && tokens.checked_mul(nq).is_some()
            && tokens.checked_mul(nkv).is_some() && tokens.checked_mul(self.ffn).is_some()
    }

    /// Elements that a buffer needs for a pass over `tokens` tokens.
    pub open spec fn need(&self, buf: Buf, tokens: int) -> int {
        match buf {
            Buf::HeadNormTmp => self.head_dim as int,
            Buf::AttnScores => if self.max_seq < tokens {
                tokens
            } else {
                self.max_seq as int
            },
            Buf::Logits => self.vocab as int,
            Buf::Pooled => self.d as int,
            _ => tokens * self.width(buf),
        }
    }

    /// Buffers for `tokens` tokens can be addressed.
    pub open spec fn fits(&self, tokens: int) -> bool {
        &&& self.nq() <= usize::MAX
        &&& self.nkv() <= usize::MAX
        &&& tokens * self.d <= usize::MAX
        &&& tokens * self.nq() <= usize::MAX
        &&& tokens * self.nkv() <= usize::MAX
        &&& tokens * self.ffn <= usize::MAX
    }

    /// Elements that a buffer needs for a pass over `tokens` tokens.
    pub fn buffer_len(&self, buf: Buf, tokens: usize) -> (r: usize)
        requires
            self.fits(tokens as int),
        ensures
            r == self.need(buf, tokens as int),
    {
        match buf {
            Buf::Hidden | Buf::Residual | Buf::NormTmp | Buf::States => tokens * self.d,
            Buf::AttnOut | Buf::QBuf | Buf::QHeads => tokens * (self.n_heads * self.head_dim),
            Buf::KBuf | Buf::VBuf | Buf::KHeads | Buf::VHeads => tokens * (self.n_kv_heads
                * self.head_dim),
            Buf::Gate | Buf::Up | Buf::FfnTmp => tokens * self.ffn,
            Buf::HeadNormTmp => self.head_dim,
            Buf::AttnScores => if self.max_seq < tokens {
                tokens
            } else {
                self.max_seq
            },
            Buf::Logits => self.vocab,
            Buf::Pooled => self.d,
        }
    }

    /// Bytes that `tokens` quantised rows of `dim` elements take.
    pub fn q8_len(&self, tokens: usize, dim: usize) -> (r: usize)
        requires
            tokens * (div_up(dim as int, 32) * 34) <= usize::MAX,
            div_up(dim as int, 32) * 34 <= usize::MAX,
        ensures
            r == tokens * (div_up(dim as int, 32) * 34),
    {
        tokens * (div_ceil(dim, 32) * 34)
    }

    /// Elements of the widest weight row.
    pub fn max_row(&self) -> (r: usize)
        ensures
            r >= self.d && r >= self.ffn && r >= self.head_dim,
            r == self.d || r == self.ffn || r == self.head_dim,
    {
        let a: usize = if self.d < self.ffn { self.ffn } else { self.d };
        if a < self.head_dim {
            self.head_dim
        } else {
            a
        }
    }

    /// Whether quantised activations are kept in a shared buffer between products.
    pub fn reuses_quantised(&self) -> (r: bool)
        ensures
            r == (self.d >= 2560),
    {
        self.d >= 2560
    }
}

/// Where head `h` of token `t` begins in a buffer with `heads` heads per token.
pub open spec fn head_place(s: Shape, heads: int, t: int, h: int) -> int {
    t * (heads * s.head_dim) + h * s.head_dim
}

/// Where head `h` of token `t` begins in a buffer with `heads` heads per token.
pub fn head_start(s: &Shape, heads: usize, tokens: usize, t: usize, h: usize) -> (r: usize)
    requires
        t < tokens,
        h < heads,
        heads * s.head_dim <= usize::MAX,
        tokens * (heads * s.head_dim) <= usize::MAX,
    ensures
        r == head_place(*s, heads as int, t as int, h as int),
        r + s.head_dim <= tokens * (heads * s.head_dim),
{
    proof {
        let (w, d) = (heads * s.head_dim, s.head_dim as int);
        assert(0 <= h * d && h * d + d <= w && 0 <= t * w && t * w + w <= tokens * w)
            by (nonlinear_arith)
            requires
                0 <= h < heads,
                0 <= d,
                w == heads * d,
                0 <= t < tokens,
        {
        }
    }
    t * (heads * s.head_dim) + h * s.head_dim
}

/// Where layers live, and under which strategy, once it is known whether there is a device.
pub open spec fn placement(
    strategy: LoadStrategy,
    device: bool,
    n_layers: usize,
) -> (usize, LoadStrategy) {
    if !device {
        (0, LoadStrategy::CpuOnly)
    } else {
        match strategy {
            LoadStrategy::GpuFull | LoadStrategy::CpuOffload => (n_layers, LoadStrategy::GpuFull),
            LoadStrategy::LayerSplit(n) => (n, LoadStrategy::LayerSplit(n)),
            LoadStrategy::CpuOnly => (0, LoadStrategy::CpuOnly),
        }
    }
}

/// Where layers live, and under which strategy, once it is known whether there is a device.
pub fn place_layers(strategy: LoadStrategy, device: bool, n_layers: usize) -> (r: (
    usize,
    LoadStrategy,
))
    ensures
        r == placement(strategy, device, n_layers),
{
    if !device {
        return (0, LoadStrategy::CpuOnly);
    }
    match strategy {
        LoadStrategy::GpuFull | LoadStrategy::CpuOffload => (n_layers, LoadStrategy::GpuFull),
        LoadStrategy::LayerSplit(n) => (n, LoadStrategy::LayerSplit(n)),
        LoadStrategy::CpuOnly => (0, LoadStrategy::CpuOnly),
    }
}

/// Whether a strategy looks for a device at all.
pub fn wants_device(strategy: LoadStrategy) -> (r: bool)
    ensures
        r == !(strategy is CpuOnly),
{
    !matches!(strategy, LoadStrategy::CpuOnly)
}

/// Whether the device attends for a layer of a pass on the processor: the layer is one of its own,
/// it takes the model's weights, and the cache holds plain values.
pub fn attends_on_device(layer: usize, device_layers: usize, takes_all: bool, quantised: bool) -> (r:
    bool)
    ensures
        r == (layer < device_layers && takes_all && !quantised),
{
    layer < device_layers && takes_all && !quantised
}

/// Without a device every strategy runs on the processor alone, with no layer elsewhere.
pub proof fn law_no_device_means_cpu(strategy: LoadStrategy, n_layers: usize)
    ensures
        placement(strategy, false, n_layers) == (0usize, LoadStrategy::CpuOnly),
{
}

/// Positions of the device's cache, and elements per layer for keys and values together.
pub fn device_cache_size(shape: &Shape) -> (r: (usize, u64))
    requires
        shape.n_kv_heads * 512 * shape.head_dim * 2 <= u64::MAX,
        shape.n_kv_heads * 512 * shape.head_dim <= usize::MAX,
        shape.n_kv_heads * 512 <= usize::MAX,
    ensures
        r.0 == if shape.max_seq < 512 {
            shape.max_seq
        } else {
            512
        },
        r.1 == shape.n_kv_heads * r.0 * shape.head_dim * 2,
{
    let positions: usize = if shape.max_seq < 512 { shape.max_seq } else { 512 };
    proof {
        let (k, p, h) = (shape.n_kv_heads as int, positions as int, shape.head_dim as int);
        assert(0 <= k * p <= k * 512 && 0 <= k * p * h <= k * 512 * h) by (nonlinear_arith)
            requires
                0 <= k,
                0 <= p <= 512,
                0 <= h,
        {
        }
    }
    (positions, (shape.n_kv_heads * positions * shape.head_dim) as u64 * 2)
}

} // verus!
