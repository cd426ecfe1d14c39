//! What the weights of a model have from its file.
use vstd::prelude::*;

use crate::gguf::file::GgufFile;
use crate::gguf::ggml::byte_size_of;
use crate::gguf::tensor::saturating_product;
use crate::llm::load::{entries_before, norms_before};
use crate::llm::weight::is_norm_name;
use crate::quant::expand::form_of;
use crate::text::{decimal, has_suffix};

verus! {

/// A weight is the last tensor of its name: it has that tensor's type and shape, and byte `k` of its data
/// is byte `k` behind the place that the file gives the tensor.
pub proof fn law_weights_are_the_files(f: GgufFile, n: nat, i: int, k: int)
    requires
        n <= f.tensors@.len(),
        0 <= i < n,
        forall|j: int| i < j < n ==> (#[trigger] f.tensors@[j]).name@ != f.tensors@[i].name@,
        ({
            let t = f.tensors@[i];
            0 <= f.data_offset + t.offset && f.data_offset + t.offset + byte_size_of(
                t.dtype,
                saturating_product(t.shape@),
            ) <= f.bytes().len()
        }),
        0 <= k < byte_size_of(f.tensors@[i].dtype, saturating_product(f.tensors@[i].shape@)),
    ensures
        ({
            let (t, all) = (f.tensors@[i], entries_before(f, n));
            &&& all.contains_key(t.name@)
            &&& all[t.name@].dtype == t.dtype
            &&& all[t.name@].shape == t.shape@
            &&& all[t.name@].data.len() == byte_size_of(t.dtype, saturating_product(t.shape@))
            &&& all[t.name@].data[k] == f.bytes()[f.data_offset + t.offset + k]
        }),
    decreases n,
{
    if i < n - 1 {
        assert(f.tensors@[n - 1].name@ != f.tensors@[i].name@);
        law_weights_are_the_files(f, (n - 1) as nat, i, k);
    }
}

/// There is no weight that the file has no tensor for.
pub proof fn law_no_other_weights(f: GgufFile, n: nat, name: Seq<char>)
    requires
        n <= f.tensors@.len(),
        entries_before(f, n).contains_key(name),
    ensures
        exists|i: int| 0 <= i < n && (#[trigger] f.tensors@[i]).name@ == name,
    decreases n,
{
    if n > 0 {
        if f.tensors@[n - 1].name@ == name {
            assert(f.tensors@[n - 1].name@ == name);
        } else {
            law_no_other_weights(f, (n - 1) as nat, name);
        }
    }
}

/// A normalisation weight can be read exactly where the last tensor of its name has the name of such a
/// weight, one dimension, and a type whose values can be obtained.
pub proof fn law_norms_are_the_files(f: GgufFile, n: nat, i: int)
    requires
        n <= f.tensors@.len(),
        0 <= i < n,
        forall|j: int| i < j < n ==> (#[trigger] f.tensors@[j]).name@ != f.tensors@[i].name@,
    ensures
        ({
            let t = f.tensors@[i];
            norms_before(f, n).contains(t.name@) <==> is_norm_name(t.name@) && t.shape@.len() == 1
                && form_of(t.dtype) is Ok
        }),
    decreases n,
{
    if i < n - 1 {
        assert(f.tensors@[n - 1].name@ != f.tensors@[i].name@);
        law_norms_are_the_files(f, (n - 1) as nat, i);
    }
}

/// The normalisation weights of a layer go by the names of such weights, and so does that of the output.
pub proof fn law_layers_have_norm_names(layer: nat)
    ensures
        is_norm_name("blk."@ + decimal(layer) + ".attn_norm.weight"@),
        is_norm_name("blk."@ + decimal(layer) + ".ffn_norm.weight"@),
        is_norm_name("blk."@ + decimal(layer) + ".attn_q_norm.weight"@),
        is_norm_name("blk."@ + decimal(layer) + ".attn_k_norm.weight"@),
        is_norm_name("output_norm.weight"@),
{
    let blk = "blk."@ + decimal(layer);
    reveal_strlit(".attn_norm.weight");
    reveal_strlit("attn_norm.weight");
    reveal_strlit(".ffn_norm.weight");
    reveal_strlit("ffn_norm.weight");
    reveal_strlit(".attn_q_norm.weight");
    reveal_strlit("attn_q_norm.weight");
    reveal_strlit(".attn_k_norm.weight");
    reveal_strlit("attn_k_norm.weight");
    lemma_behind_dot(blk, ".attn_norm.weight"@, "attn_norm.weight"@);
    lemma_behind_dot(blk, ".ffn_norm.weight"@, "ffn_norm.weight"@);
    lemma_behind_dot(blk, ".attn_q_norm.weight"@, "attn_q_norm.weight"@);
    lemma_behind_dot(blk, ".attn_k_norm.weight"@, "attn_k_norm.weight"@);
}

proof fn lemma_behind_dot(front: Seq<char>, dotted: Seq<char>, part: Seq<char>)
    requires
        dotted.len() == part.len() + 1,
        forall|i: int| 0 <= i < part.len() ==> dotted[i + 1] == part[i],
    ensures
        has_suffix(front + dotted, part),
{
    let s = front + dotted;
    let p = s.len() - part.len();
    assert(s.subrange(p, p + part.len()) =~= part);
}

} // verus!
