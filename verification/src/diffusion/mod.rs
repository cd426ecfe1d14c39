//! Image generation.
pub mod bilinear;
pub mod block_laws;
pub mod block_meaning;
pub mod flux;
pub mod flux_laws;
pub mod grid;
pub mod noise;
pub mod png;
pub mod vae;
pub mod weights;
pub mod write_laws;
