//! Hearth: the logic of a local inference engine for language and image models.
//!
//! The crate holds what the engine decides and computes on plain values: the GGUF container,
//! tokenisation and chat templates, model configuration, the key/value cache, the integer side of
//! the quantised formats, the work plans of a forward pass, and image encoding.  Real-valued
//! quantities appear as their IEEE-754 bit patterns.
pub mod chat;
pub mod compute;
pub mod diffusion;
pub mod engine;
pub mod gguf;
pub mod llm;
pub mod quant;
pub mod rank;
pub mod sampler;
pub mod sampling;
pub mod text;
pub mod tokenizer;

pub use vstd::hash_map::StringHashMap;
