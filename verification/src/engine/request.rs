//! What a model can be asked for.
use vstd::prelude::*;

use crate::engine::error::{error_text, ModelError};

verus! {

/// How tokens are drawn.  Real numbers are held as the bit patterns of single-precision values.
#[derive(Debug, Clone, Copy, PartialEq, Eq, Structural)]
pub struct SamplerConfig {
    pub temperature_bits: u32,
    pub top_k: usize,
    pub top_p_bits: u32,
    pub repeat_pen_bits: u32,
    pub min_p_bits: u32,
    pub typical_p_bits: u32,
    pub seed: u64,
}

impl Default for SamplerConfig {
    /// Temperature 0.7, the 40 likeliest tokens, a probability mass of 0.9, a repetition penalty
    /// of 1.1, no other limits, and a seed drawn anew for each run.
    fn default() -> (r: Self)
        ensures
            r == (SamplerConfig {
                temperature_bits: 0x3f33_3333,
                top_k: 40,
                top_p_bits: 0x3f66_6666,
                repeat_pen_bits: 0x3f8c_cccd,
                min_p_bits: 0,
                typical_p_bits: 0,
                seed: 0,
            }),
    {
        SamplerConfig {
            temperature_bits: 0x3f33_3333,
            top_k: 40,
            top_p_bits: 0x3f66_6666,
            repeat_pen_bits: 0x3f8c_cccd,
            min_p_bits: 0,
            typical_p_bits: 0,
            seed: 0,
        }
    }
}

/// A request to a model.
pub enum PipelineRequest {
    TextGen { prompt: String, sampler: SamplerConfig, max_new_tokens: usize },
    ImageGen {
        prompt: String,
        negative: String,
        steps: u32,
        cfg_scale_bits: u32,
        width: u32,
        height: u32,
        seed: u64,
    },
    VideoGen { prompt: String, frames: u32, fps: u32, width: u32, height: u32, seed: u64 },
    Embed { text: String },
}

impl PipelineRequest {
    /// The prompt, the way tokens are drawn and the number of tokens that a language model is asked
    /// for; other requests are refused.
    pub fn for_language_model(&self) -> (r: Result<(&str, SamplerConfig, usize), ModelError>)
        ensures
            match r {
                Ok((p, s, n)) => *self matches PipelineRequest::TextGen {
                    prompt,
                    sampler,
                    max_new_tokens,
                } && prompt@ == p@ && sampler == s && max_new_tokens == n,
                Err(e) => !(*self is TextGen) && error_text(e)
                    == "Runtime error: "@ + "Unsupported request type for LlamaModel"@ && e is RuntimeError,
            },
    {
        match self {
            PipelineRequest::TextGen { prompt, sampler, max_new_tokens } => Ok(
                (prompt.as_str(), *sampler, *max_new_tokens),
            ),
            _ => Err(
                ModelError::RuntimeError("Unsupported request type for LlamaModel".to_owned()),
            ),
        }
    }
}

/// Where a model's layers live.
#[derive(Debug, Clone, Copy, PartialEq, Eq, Structural)]
pub enum LoadStrategy {
    GpuFull,
    CpuOffload,
    LayerSplit(usize),
    CpuOnly,
}

/// Whether a model fits.
#[derive(Debug)]
pub enum ModelFit {
    GpuFull,
    CpuRam,
    TooBig(String),
}

} // verus!
