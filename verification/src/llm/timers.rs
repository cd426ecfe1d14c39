//! Where the time of a forward pass goes.
use vstd::prelude::*;

verus! {

/// Microseconds spent in each part of a pass.
#[derive(Clone, Copy, Debug, PartialEq, Eq, Structural)]
pub struct ForwardTimers {
    pub embed_us: u128,
    pub attn_norm_us: u128,
    pub qkv_quant_us: u128,
    pub qkv_matmul_us: u128,
    pub qk_head_norm_us: u128,
    pub rope_us: u128,
    pub kv_cache_write_us: u128,
    pub attention_us: u128,
    pub attn_output_matmul_us: u128,
    pub ffn_norm_us: u128,
    pub ffn_quant_us: u128,
    pub ffn_gate_up_matmul_us: u128,
    pub silu_mul_us: u128,
    pub ffn_down_matmul_us: u128,
    pub output_norm_us: u128,
    pub lm_head_matmul_us: u128,
    pub total_us: u128,
}

/// Timers that have measured nothing.
pub open spec fn no_time() -> ForwardTimers {
    ForwardTimers {
        embed_us: 0,
        attn_norm_us: 0,
        qkv_quant_us: 0,
        qkv_matmul_us: 0,
        qk_head_norm_us: 0,
        rope_us: 0,
        kv_cache_write_us: 0,
        attention_us: 0,
        attn_output_matmul_us: 0,
        ffn_norm_us: 0,
        ffn_quant_us: 0,
        ffn_gate_up_matmul_us: 0,
        silu_mul_us: 0,
        ffn_down_matmul_us: 0,
        output_norm_us: 0,
        lm_head_matmul_us: 0,
        total_us: 0,
    }
}

impl Default for ForwardTimers {
    fn default() -> (r: Self)
        ensures
            r == no_time(),
    {
        ForwardTimers {
            embed_us: 0,
            attn_norm_us: 0,
            qkv_quant_us: 0,
            qkv_matmul_us: 0,
            qk_head_norm_us: 0,
            rope_us: 0,
            kv_cache_write_us: 0,
            attention_us: 0,
            attn_output_matmul_us: 0,
            ffn_norm_us: 0,
            ffn_quant_us: 0,
            ffn_gate_up_matmul_us: 0,
            silu_mul_us: 0,
            ffn_down_matmul_us: 0,
            output_norm_us: 0,
            lm_head_matmul_us: 0,
            total_us: 0,
        }
    }
}

impl ForwardTimers {
    /// Sets every timer to zero.
    pub fn reset(&mut self)
        ensures
            *final(self) == no_time(),
    {
        *self = ForwardTimers::default();
    }
}

} // verus!
