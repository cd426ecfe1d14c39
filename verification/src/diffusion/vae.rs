//! The image decoder's dimensions.
use vstd::prelude::*;

verus! {

/// The shape of a decoder.
pub struct VaeDecoder {
    pub z_channels: usize,
    pub ch: usize,
    pub ch_mult: Vec<usize>,
    pub num_res_blocks: usize,
}

impl VaeDecoder {
    /// A decoder for latents of `z_channels` channels.
    pub fn new(z_channels: usize) -> (r: Self)
        ensures
            r.z_channels == z_channels,
            r.ch == 128,
            r.ch_mult@ == seq![1usize, 2, 4, 4],
            r.num_res_blocks == 2,
    {
        let ch_mult: Vec<usize> = vec![1, 2, 4, 4];
        assert(ch_mult@ =~= seq![1usize, 2, 4, 4]);
        VaeDecoder { z_channels, ch: 128, ch_mult, num_res_blocks: 2 }
    }
}

} // verus!
