//! What can go wrong with a model.
use vstd::prelude::*;

use crate::text::concat2;

verus! {

#[derive(Debug, Clone)]
pub enum ModelError {
    FileNotFound(String),
    ParseError(String),
    UnsupportedArchitecture(String),
    UnsupportedDtype(String),
    LoadError(String),
    RuntimeError(String),
    OutOfMemory(String),
}

/// The text of an error.
pub open spec fn error_text(e: ModelError) -> Seq<char> {
    match e {
        ModelError::FileNotFound(p) => "File not found: "@ + p@,
        ModelError::ParseError(m) => "Parse error: "@ + m@,
        ModelError::UnsupportedArchitecture(a) => "Unsupported architecture: "@ + a@,
        ModelError::UnsupportedDtype(d) => "Unsupported dtype: "@ + d@,
        ModelError::LoadError(m) => "Load error: "@ + m@,
        ModelError::RuntimeError(m) => "Runtime error: "@ + m@,
        ModelError::OutOfMemory(m) => "Out of memory: "@ + m@,
    }
}

impl ModelError {
    /// The text of the error.
    pub fn message(&self) -> (r: String)
        ensures
            r@ == error_text(*self),
    {
        match self {
            ModelError::FileNotFound(p) => concat2("File not found: ", p.as_str()),
            ModelError::ParseError(m) => concat2("Parse error: ", m.as_str()),
            ModelError::UnsupportedArchitecture(a) => concat2(
                "Unsupported architecture: ",
                a.as_str(),
            ),
            ModelError::UnsupportedDtype(d) => concat2("Unsupported dtype: ", d.as_str()),
            ModelError::LoadError(m) => concat2("Load error: ", m.as_str()),
            ModelError::RuntimeError(m) => concat2("Runtime error: ", m.as_str()),
            ModelError::OutOfMemory(m) => concat2("Out of memory: ", m.as_str()),
        }
    }
}

} // verus!
