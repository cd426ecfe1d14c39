//! Requests, outputs and errors that models and their users exchange.
pub mod error;
pub mod output;
pub mod request;

pub use error::ModelError;
pub use output::{EngineOutput, RunStats};
pub use request::{LoadStrategy, ModelFit, PipelineRequest, SamplerConfig};
