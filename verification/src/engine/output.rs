//! What a model hands back.
use vstd::prelude::*;

use crate::engine::error::ModelError;

verus! {

/// How a run went; the rate is the bit pattern of a single-precision value.
#[derive(Debug, Clone, Copy, PartialEq, Eq, Structural)]
pub struct RunStats {
    pub elapsed_ms: u128,
    pub tokens: usize,
    pub tokens_per_s_bits: u32,
}

/// One piece of output.
pub enum EngineOutput {
    TextToken(String),
    ImageStep { step: u32, total: u32, preview: Option<Vec<u8>> },
    ImageDone { rgba: Vec<u8>, width: u32, height: u32, stats: RunStats },
    VideoFrame { index: u32, total: u32, rgba: Vec<u8>, width: u32, height: u32 },
    Done(RunStats),
    Error(ModelError),
}

} // verus!
