//! What a graphics device can be asked to work on.
use vstd::prelude::*;

use crate::gguf::ggml::GgmlDType;

verus! {

/// Weight formats that device kernels know.
#[derive(Debug, Clone, Copy, PartialEq, Eq, Structural)]
pub enum QuantKind {
    F32,
    F16,
    Q4_0,
    Q8_0,
    Q4K,
    Q1_0,
    Q1_0G128,
    Q2_0,
}

/// The device format of an element type.
pub open spec fn kind_of(d: GgmlDType) -> Option<QuantKind> {
    match d {
        GgmlDType::F32 => Some(QuantKind::F32),
        GgmlDType::F16 => Some(QuantKind::F16),
        GgmlDType::Q4_0 => Some(QuantKind::Q4_0),
        GgmlDType::Q8_0 => Some(QuantKind::Q8_0),
        GgmlDType::Q4_K => Some(QuantKind::Q4K),
        GgmlDType::Q1_0 => Some(QuantKind::Q1_0),
        GgmlDType::Q2_0 => Some(QuantKind::Q2_0),
        GgmlDType::Q1_0_G128 => Some(QuantKind::Q1_0G128),
        _ => None,
    }
}

impl QuantKind {
    /// The device format of an element type, if there is one.
    pub fn from_gguf_dtype(dtype: GgmlDType) -> (r: Option<QuantKind>)
        ensures
            r == kind_of(dtype),
    {
        match dtype {
            GgmlDType::F32 => Some(QuantKind::F32),
            GgmlDType::F16 => Some(QuantKind::F16),
            GgmlDType::Q4_0 => Some(QuantKind::Q4_0),
            GgmlDType::Q8_0 => Some(QuantKind::Q8_0),
            GgmlDType::Q4_K => Some(QuantKind::Q4K),
            GgmlDType::Q1_0 => Some(QuantKind::Q1_0),
            GgmlDType::Q2_0 => Some(QuantKind::Q2_0),
            GgmlDType::Q1_0_G128 => Some(QuantKind::Q1_0G128),
            _ => None,
        }
    }
}

/// Different element types have different device formats.
pub proof fn law_kinds_are_distinct(a: GgmlDType, b: GgmlDType)
    requires
        kind_of(a) is Some,
        kind_of(a) == kind_of(b),
    ensures
        a == b,
{
}

/// A device format is that of the element type: plain ones for plain types, and of the quantised ones
/// each for the type of its name.
pub proof fn law_kinds_go_by_their_names(d: GgmlDType)
    ensures
        match kind_of(d) {
            Some(QuantKind::F32) => d is F32,
            Some(QuantKind::F16) => d is F16,
            Some(QuantKind::Q4_0) => d is Q4_0,
            Some(QuantKind::Q8_0) => d is Q8_0,
            Some(QuantKind::Q4K) => d is Q4_K,
            Some(QuantKind::Q1_0) => d is Q1_0,
            Some(QuantKind::Q1_0G128) => d is Q1_0_G128,
            Some(QuantKind::Q2_0) => d is Q2_0,
            None => !(d is F32 || d is F16 || d is Q4_0 || d is Q8_0 || d is Q4_K || d is Q1_0 || d
                is Q1_0_G128 || d is Q2_0),
        },
{
}

} // verus!
