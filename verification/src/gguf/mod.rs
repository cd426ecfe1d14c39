//! The GGUF container: element types, metadata, tensor table.
pub mod file;
pub mod ggml;
pub mod meta;
pub mod reader;
pub mod tensor;
pub mod write_laws;

pub use file::{GgufError, GgufFile};
pub use ggml::GgmlDType;
pub use meta::MetaValue;
pub use tensor::TensorInfo;
