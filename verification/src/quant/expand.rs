//! Expanding stored weights.
use vstd::prelude::*;

use crate::gguf::ggml::{block_bytes_of, block_size_of, name_of, GgmlDType};
use crate::quant::codes::{element, element_of, has_codes, Element};
use crate::text::concat3;

verus! {

/// How the values of an element type are obtained.
#[derive(Debug, Clone, Copy, PartialEq, Eq, Structural)]
pub enum ExpandForm {
    /// Single-precision values as they stand.
    Single,
    /// Half-precision values, widened.
    Half,
    /// Brain-float values, widened.
    Brain,
    /// Double-precision values, rounded.
    Double,
    /// Codes with factors.
    Codes,
}

/// How the values of an element type are obtained, or why they cannot be.
pub open spec fn form_of(d: GgmlDType) -> Result<ExpandForm, Seq<char>> {
    match d {
        GgmlDType::F32 => Ok(ExpandForm::Single),
        GgmlDType::F16 => Ok(ExpandForm::Half),
        GgmlDType::BF16 => Ok(ExpandForm::Brain),
        GgmlDType::F64 => Ok(ExpandForm::Double),
        GgmlDType::Q8_1 | GgmlDType::Q8_K => Err(
            "Dequant for "@ + name_of(d)
                + " not yet implemented - try a Q8_0 or Q4_K model instead"@,
        ),
        _ => if has_codes(d) {
            Ok(ExpandForm::Codes)
        } else {
            Err(
                "Unsupported quantization type: "@ + name_of(d) + " (requires a dequant kernel)"@,
            )
        },
    }
}

/// How the values of an element type are obtained, or why they cannot be.
pub fn expand_form(d: GgmlDType) -> (r: Result<ExpandForm, String>)
    ensures
        match r {
            Ok(f) => form_of(d) == Ok::<ExpandForm, Seq<char>>(f),
            Err(e) => form_of(d) == Err::<ExpandForm, Seq<char>>(e@),
        },
{
    match d {
        GgmlDType::F32 => Ok(ExpandForm::Single),
        GgmlDType::F16 => Ok(ExpandForm::Half),
        GgmlDType::BF16 => Ok(ExpandForm::Brain),
        GgmlDType::F64 => Ok(ExpandForm::Double),
        GgmlDType::Q8_1 | GgmlDType::Q8_K => Err(
            concat3(
                "Dequant for ",
                d.name(),
                " not yet implemented - try a Q8_0 or Q4_K model instead",
            ),
        ),
        GgmlDType::Q8_0 | GgmlDType::Q4_0 | GgmlDType::Q4_1 | GgmlDType::Q5_0 | GgmlDType::Q5_1
        | GgmlDType::Q4_K | GgmlDType::Q2_0 | GgmlDType::Q1_0 | GgmlDType::Q1_0_G128
        | GgmlDType::Q2_K | GgmlDType::Q3_K | GgmlDType::Q5_K | GgmlDType::Q6_K => Ok(ExpandForm::Codes),
        _ => Err(
            concat3(
                "Unsupported quantization type: ",
                d.name(),
                " (requires a dequant kernel)",
            ),
        ),
    }
}

/// How many elements whole blocks hold, at most `limit`.
pub open spec fn expanded_len(d: GgmlDType, bytes: int, limit: int) -> int {
    let held = bytes / block_bytes_of(d) as int * block_size_of(d);
    if held < limit {
        held
    } else {
        limit
    }
}

/// The elements of the whole blocks of `data`, at most `limit`.
pub fn expand_codes(d: GgmlDType, data: &[u8], limit: usize) -> (r: Vec<Element>)
    requires
        has_codes(d),
    ensures
        r@ == Seq::new(
            expanded_len(d, data@.len() as int, limit as int) as nat,
            |i: int| element_of(d, data@, i),
        ),
{
    assert(data@.len() == data.len());
    let bytes: usize = d.block_bytes();
    let size: usize = d.block_size();
    let blocks: usize = data.len() / bytes;
    let ghost (b, z, q) = (bytes as int, size as int, blocks as int);
    proof {
        vstd::arithmetic::div_mod::lemma_fundamental_div_mod(data@.len() as int, b);
        vstd::arithmetic::div_mod::lemma_mod_bound(data@.len() as int, b);
    }
    let mut out: Vec<Element> = Vec::new();
    let mut k: usize = 0;
    while k < blocks && out.len() < limit
        invariant
            has_codes(d),
            data@.len() == data.len(),
            bytes == block_bytes_of(d),
            size == block_size_of(d),
            b == bytes && z == size && q == blocks,
            q == data@.len() as int / b,
            b * q <= data@.len(),
            0 < z,
            k <= blocks,
            out@.len() == if k * z < limit {
                k * z
            } else {
                limit as int
            },
            forall|j: int| 0 <= j < out@.len() ==> #[trigger] out@[j] == element_of(d, data@, j),
        decreases blocks - k,
    {
        let mut i: usize = 0;
        assert(k * z < limit) by (nonlinear_arith)
            requires
                out@.len() < limit,
                out@.len() == if k * z < limit {
                    k * z
                } else {
                    limit as int
                },
        {
        }
        while i < size && out.len() < limit
            invariant
                has_codes(d),
                data@.len() == data.len(),
                bytes == block_bytes_of(d),
                size == block_size_of(d),
                b == bytes && z == size && q == blocks,
                q == data@.len() as int / b,
                b * q <= data@.len(),
                0 < z,
                k < blocks,
                i <= size,
                out@.len() == k * z + i,
                out@.len() <= limit,
                forall|j: int|
                    0 <= j < out@.len() ==> #[trigger] out@[j] == element_of(d, data@, j),
            decreases size - i,
        {
            let place: usize = out.len();
            proof {
                vstd::arithmetic::div_mod::lemma_fundamental_div_mod_converse(
                    place as int,
                    z,
                    k as int,
                    i as int,
                );
                assert(b * k + b <= b * q) by (nonlinear_arith)
                    requires
                        k <= q - 1,
                        0 <= b,
                {
                }
            }
            out.push(element(d, data, place));
            i += 1;
        }
        k += 1;
        assert(k * z == (k - 1) * z + z) by (nonlinear_arith);
    }
    proof {
        assert(k < blocks ==> k * z <= q * z) by (nonlinear_arith)
            requires
                k <= q,
                0 <= z,
        {
        }
    }
    assert(out@ =~= Seq::new(
        expanded_len(d, data@.len() as int, limit as int) as nat,
        |i: int| element_of(d, data@, i),
    ));
    out
}

} // verus!
