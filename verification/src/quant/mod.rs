//! Quantised weight formats: what their bytes say, in integers.
pub mod codes;
pub mod dot;
pub mod expand;
pub mod format_laws;
pub mod widen;
