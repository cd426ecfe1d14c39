//! What a configuration has from its file.
use vstd::prelude::*;

use crate::gguf::file::GgufFile;
use crate::gguf::meta::MetaModel;
use crate::llm::config::{
    config_fault, config_of_file, first_fault, prefix_of, ConfigError, ModelConfig,
};
use crate::rank::{is_nan, order_key};

verus! {

/// The file holds the number `x` under a key.
pub open spec fn number_at(f: GgufFile, key: Seq<char>, x: u32) -> bool {
    f@.metadata.contains_key(key) && f@.metadata[key] == MetaModel::U32(x)
}

/// The file holds the single-precision value with bits `x` under a key.
pub open spec fn real_at(f: GgufFile, key: Seq<char>, x: u32) -> bool {
    f@.metadata.contains_key(key) && f@.metadata[key] == MetaModel::F32(x)
}

/// The file holds the text `x` under a key.
pub open spec fn text_at(f: GgufFile, key: Seq<char>, x: Seq<char>) -> bool {
    f@.metadata.contains_key(key) && f@.metadata[key] == MetaModel::Text(x)
}

pub open spec fn no_number_at(f: GgufFile, key: Seq<char>) -> bool {
    f@.metadata.contains_key(key) ==> !(f@.metadata[key] is U32)
}

pub open spec fn no_real_at(f: GgufFile, key: Seq<char>) -> bool {
    f@.metadata.contains_key(key) ==> !(f@.metadata[key] is F32)
}

pub open spec fn no_text_at(f: GgufFile, key: Seq<char>) -> bool {
    f@.metadata.contains_key(key) ==> !(f@.metadata[key] is Text)
}

/// A number of a configuration is the one that the file holds: under the family's prefix, else under
/// the architecture's own name, else under `llama`; it is the usual one only where the file holds
/// none.
pub open spec fn number_settled(
    f: GgufFile,
    a: Seq<char>,
    key: Seq<char>,
    value: Option<u32>,
    usual: Option<u32>,
) -> bool {
    let (family, own, last) = (prefix_of(a) + "."@ + key, a + "."@ + key, "llama"@ + "."@ + key);
    &&& forall|x: u32| number_at(f, family, x) ==> value == Some(x)
    &&& forall|x: u32|
        no_number_at(f, family) && a.len() > 0 && number_at(f, own, x) ==> value == Some(x)
    &&& forall|x: u32|
        no_number_at(f, family) && (a.len() == 0 || no_number_at(f, own)) && number_at(f, last, x)
            ==> value == Some(x)
    &&& no_number_at(f, family) && no_number_at(f, own) && no_number_at(f, last) ==> value == usual
}

/// The same of a real number.
pub open spec fn real_settled(
    f: GgufFile,
    a: Seq<char>,
    key: Seq<char>,
    value: Option<u32>,
    usual: Option<u32>,
) -> bool {
    let (family, own, last) = (prefix_of(a) + "."@ + key, a + "."@ + key, "llama"@ + "."@ + key);
    &&& forall|x: u32| real_at(f, family, x) ==> value == Some(x)
    &&& forall|x: u32|
        no_real_at(f, family) && a.len() > 0 && real_at(f, own, x) ==> value == Some(x)
    &&& forall|x: u32|
        no_real_at(f, family) && (a.len() == 0 || no_real_at(f, own)) && real_at(f, last, x)
            ==> value == Some(x)
    &&& no_real_at(f, family) && no_real_at(f, own) && no_real_at(f, last) ==> value == usual
}

/// The same of a text.
pub open spec fn text_settled(
    f: GgufFile,
    a: Seq<char>,
    key: Seq<char>,
    value: Option<Seq<char>>,
) -> bool {
    let (family, own, last) = (prefix_of(a) + "."@ + key, a + "."@ + key, "llama"@ + "."@ + key);
    &&& forall|x: Seq<char>| text_at(f, family, x) ==> value == Some(x)
    &&& forall|x: Seq<char>|
        no_text_at(f, family) && a.len() > 0 && text_at(f, own, x) ==> value == Some(x)
    &&& forall|x: Seq<char>|
        no_text_at(f, family) && (a.len() == 0 || no_text_at(f, own)) && text_at(f, last, x)
            ==> value == Some(x)
    &&& no_text_at(f, family) && no_text_at(f, own) && no_text_at(f, last) ==> value is None
}

/// The text of an optional string.
pub open spec fn told(s: Option<String>) -> Option<Seq<char>> {
    match s {
        Some(x) => Some(x@),
        None => None,
    }
}

/// Every number, real number and text of a configuration is what its file holds under the key that
/// stands for it, and what the file leaves out has its usual value.
pub proof fn law_configuration_is_what_the_file_holds(c: ModelConfig, f: GgufFile)
    requires
        config_of_file(c, f),
    ensures
        text_at(f, "general.architecture"@, c.arch@),
        number_settled(f, c.arch@, "embedding_length"@, Some(c.d_model), None),
        number_settled(f, c.arch@, "block_count"@, Some(c.n_layers), None),
        number_settled(f, c.arch@, "attention.head_count"@, Some(c.n_heads), None),
        number_settled(
            f,
            c.arch@,
            "attention.head_count_kv"@,
            Some(c.n_kv_heads),
            Some(c.n_heads),
        ),
        number_settled(
            f,
            c.arch@,
            "attention.head_dim"@,
            Some(c.head_dim),
            Some((c.d_model as int / c.n_heads as int) as u32),
        ),
        number_settled(
            f,
            c.arch@,
            "feed_forward_length"@,
            Some(c.d_ffn),
            Some(((4 * c.d_model) % 0x1_0000_0000) as u32),
        ),
        number_settled(f, c.arch@, "context_length"@, Some(c.max_seq_len), Some(2048)),
        number_settled(f, c.arch@, "rope.dimension_count"@, Some(c.rope_dim), Some(c.head_dim)),
        number_settled(
            f,
            c.arch@,
            "rope.scaling.original_context_length"@,
            c.original_ctx_len,
            None,
        ),
        number_settled(f, c.arch@, "expert_count"@, Some(c.n_experts), Some(0)),
        number_settled(f, c.arch@, "expert_used_count"@, Some(c.n_experts_per_tok), Some(0)),
        real_settled(f, c.arch@, "rope.freq_base"@, Some(c.rope_theta_bits), Some(0x461c_4000)),
        real_settled(
            f,
            c.arch@,
            "attention.layer_norm_rms_epsilon"@,
            Some(c.rms_norm_eps_bits),
            Some(0x3727_c5ac),
        ),
        real_settled(f, c.arch@, "rope.scaling.factor"@, c.rope_scaling_factor_bits, None),
        text_settled(f, c.arch@, "rope.scaling.type"@, told(c.rope_scaling_type)),
        forall|x: u32| number_at(f, "tokenizer.ggml.tokens"@, x) ==> c.vocab_size == x,
        forall|x: u32|
            no_number_at(f, "tokenizer.ggml.tokens"@) && number_at(f, "llama.vocab_size"@, x)
                ==> c.vocab_size == x,
        no_number_at(f, "tokenizer.ggml.tokens"@) && no_number_at(f, "llama.vocab_size"@) ==> {
            &&& f@.metadata.contains_key("tokenizer.ggml.tokens"@)
            &&& f@.metadata["tokenizer.ggml.tokens"@] matches MetaModel::Array(_, items)
                && c.vocab_size == items.len() as u32
        },
        c.post_norm <==> c.arch@ == "gemma"@ || c.arch@ == "gemma2"@,
        c.embed_scale <==> c.arch@ == "gemma"@ || c.arch@ == "gemma2"@,
{
}

/// Which prefix the keys of an architecture have: its own name, without what only tells versions of
/// one family apart; that of `llama` for every architecture that is not known.
pub proof fn law_families_share_their_keys(a: Seq<char>)
    ensures
        a == "qwen2"@ || a == "qwen3"@ || a == "phi3"@ || a == "starcoder2"@ || a == "command-r"@ || a
            == "dbrx"@ || a == "falcon"@ || a == "yi"@ || a == "deepseek2"@ || a == "llama"@
            ==> prefix_of(a) == a,
        a == "qwen2.5"@ ==> prefix_of(a) == "qwen2"@,
        a == "qwen3moe"@ || a == "qwen3next"@ ==> prefix_of(a) == "qwen3"@,
        a == "phi-3"@ ==> prefix_of(a) == "phi3"@,
        a == "gemma2"@ ==> prefix_of(a) == "gemma"@,
        prefix_of(a) != a && prefix_of(a) != "llama"@ ==> a == "qwen2.5"@ || a == "qwen3moe"@ || a
            == "qwen3next"@ || a == "phi-3"@ || a == "gemma2"@,
{
    reveal_strlit("qwen2");
    reveal_strlit("qwen2.5");
    reveal_strlit("qwen3");
    reveal_strlit("qwen3moe");
    reveal_strlit("qwen3next");
    reveal_strlit("phi3");
    reveal_strlit("phi-3");
    reveal_strlit("starcoder2");
    reveal_strlit("gemma");
    reveal_strlit("gemma2");
    reveal_strlit("command-r");
    reveal_strlit("dbrx");
    reveal_strlit("falcon");
    reveal_strlit("yi");
    reveal_strlit("deepseek2");
    reveal_strlit("llama");
    assert("qwen2"@[0] == 'q' && "qwen2"@[4] == '2');
    assert("qwen2.5"@[0] == 'q' && "qwen2.5"@[4] == '2');
    assert("qwen3"@[0] == 'q' && "qwen3"@[4] == '3');
    assert("qwen3moe"@[0] == 'q' && "qwen3moe"@[4] == '3');
    assert("qwen3next"@[0] == 'q' && "qwen3next"@[4] == '3');
    assert("phi3"@[0] == 'p');
    assert("phi-3"@[0] == 'p' && "phi-3"@[4] == '3');
    assert("starcoder2"@[0] == 's' && "starcoder2"@[4] == 'c');
    assert("gemma"@[0] == 'g' && "gemma"@[4] == 'a');
    assert("gemma2"@[0] == 'g' && "gemma2"@[4] == 'a');
    assert("command-r"@[0] == 'c' && "command-r"@[4] == 'a');
    assert("dbrx"@[0] == 'd');
    assert("falcon"@[0] == 'f' && "falcon"@[4] == 'o');
    assert("yi"@[0] == 'y');
    assert("deepseek2"@[0] == 'd' && "deepseek2"@[4] == 's');
    assert("llama"@[0] == 'l' && "llama"@[4] == 'a');
}

/// A real number that is not at most zero.
pub open spec fn above_zero(bits: u32) -> bool {
    is_nan(bits) || order_key(bits) > 0
}

/// A configuration is valid exactly where its numbers fit together: nothing is zero that counts
/// something, heads divide evenly and are wide enough, no more experts are active than there are, and
/// the two real numbers are above zero.
pub proof fn law_valid_means_consistent(c: ModelConfig)
    ensures
        first_fault(c) is None <==> {
            &&& c.n_heads > 0 && c.d_model > 0 && c.head_dim > 0 && c.n_kv_heads > 0
            &&& c.d_ffn > 0 && c.n_layers > 0 && c.vocab_size > 0 && c.max_seq_len > 0
            &&& c.d_model as int % c.n_heads as int == 0
            &&& c.n_heads as int % c.n_kv_heads as int == 0
            &&& c.d_model <= c.head_dim * c.n_heads
            &&& c.n_experts > 0 ==> c.n_experts_per_tok > 0
            &&& c.n_experts_per_tok <= c.n_experts
            &&& above_zero(c.rms_norm_eps_bits)
            &&& above_zero(c.rope_theta_bits)
        },
{
}

/// What a configuration is refused for is wrong with it.
pub proof fn law_refusals_are_true(c: ModelConfig)
    ensures
        match first_fault(c) {
            None => true,
            Some(ConfigError::NoHeads) => c.n_heads == 0,
            Some(ConfigError::NoModelWidth) => c.d_model == 0,
            Some(ConfigError::NoHeadWidth) => c.head_dim == 0,
            Some(ConfigError::WidthNotDivisible { d_model, n_heads }) => d_model == c.d_model
                && n_heads == c.n_heads && d_model as int % n_heads as int != 0,
            Some(ConfigError::HeadsNotDivisible { n_heads, n_kv_heads }) => n_heads == c.n_heads
                && n_kv_heads == c.n_kv_heads && (n_kv_heads == 0 || n_heads as int
                % n_kv_heads as int != 0),
            Some(ConfigError::HeadsTooNarrow { head_dim, n_heads, d_model }) => head_dim
                == c.head_dim && n_heads == c.n_heads && d_model == c.d_model && head_dim * n_heads
                < d_model,
            Some(ConfigError::NoFfn) => c.d_ffn == 0,
            Some(ConfigError::NoLayers) => c.n_layers == 0,
            Some(ConfigError::NoVocabulary) => c.vocab_size == 0,
            Some(ConfigError::NoContext) => c.max_seq_len == 0,
            Some(ConfigError::NoActiveExperts { n_experts }) => n_experts == c.n_experts
                && n_experts > 0 && c.n_experts_per_tok == 0,
            Some(ConfigError::TooManyActiveExperts { n_experts_per_tok, n_experts }) =>
                n_experts_per_tok == c.n_experts_per_tok && n_experts == c.n_experts
                && n_experts_per_tok > n_experts,
            Some(ConfigError::EpsilonNotPositive { bits }) => bits == c.rms_norm_eps_bits
                && !above_zero(bits),
            Some(ConfigError::ThetaNotPositive { bits }) => bits == c.rope_theta_bits
                && !above_zero(bits),
        },
{
}

/// No number stands under any of the three keys.
pub open spec fn nowhere(f: GgufFile, a: Seq<char>, key: Seq<char>) -> bool {
    &&& no_number_at(f, prefix_of(a) + "."@ + key)
    &&& a.len() > 0 ==> no_number_at(f, a + "."@ + key)
    &&& no_number_at(f, "llama"@ + "."@ + key)
}

/// A file is refused for what it does not hold, and not where it holds all that is needed.
pub proof fn law_missing_keys_are_missing(f: GgufFile, a: Seq<char>)
    requires
        text_at(f, "general.architecture"@, a),
    ensures
        config_fault(f) == Some("Missing embedding_length"@) <== nowhere(f, a, "embedding_length"@),
        config_fault(f) == Some("Missing block_count"@) <== nowhere(f, a, "block_count"@) && !nowhere(
            f,
            a,
            "embedding_length"@,
        ),
        config_fault(f) == Some("Missing head_count"@) <== nowhere(f, a, "attention.head_count"@)
            && !nowhere(f, a, "block_count"@) && !nowhere(f, a, "embedding_length"@),
        config_fault(f) is None ==> !nowhere(f, a, "embedding_length"@) && !nowhere(
            f,
            a,
            "block_count"@,
        ) && !nowhere(f, a, "attention.head_count"@),
        !nowhere(f, a, "embedding_length"@) && !nowhere(f, a, "block_count"@) && !nowhere(
            f,
            a,
            "attention.head_count"@,
        ) && !nowhere(f, a, "attention.head_dim"@) && !no_number_at(f, "llama.vocab_size"@)
            ==> config_fault(f) is None,
{
}

} // verus!
