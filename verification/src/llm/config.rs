//! Model configuration.
use vstd::prelude::*;

use crate::gguf::file::GgufFile;
use crate::text::{concat3, decimal, push_decimal, same_str};
use crate::tokenizer::load::word_under;
use crate::tokenizer::template::{array_under, text_under};

verus! {

/// The shape of a model.  Real numbers are held as the bit patterns of single-precision values.
#[derive(Debug, Clone)]
pub struct ModelConfig {
    pub arch: String,
    pub n_layers: u32,
    pub n_heads: u32,
    pub n_kv_heads: u32,
    pub head_dim: u32,
    pub d_model: u32,
    pub d_ffn: u32,
    pub vocab_size: u32,
    pub max_seq_len: u32,
    pub rope_theta_bits: u32,
    pub rms_norm_eps_bits: u32,
    pub rope_dim: u32,
    pub rope_scaling_type: Option<String>,
    pub rope_scaling_factor_bits: Option<u32>,
    pub original_ctx_len: Option<u32>,
    pub n_experts: u32,
    pub n_experts_per_tok: u32,
    pub post_norm: bool,
    pub embed_scale: bool,
}

/// 10000 in single precision.
pub const DEFAULT_ROPE_THETA_BITS: u32 = 0x461c_4000;

/// The single-precision value nearest to 0.00001.
pub const DEFAULT_RMS_NORM_EPS_BITS: u32 = 0x3727_c5ac;

/// The single-precision value with these bits compares less than or equal to zero.
pub open spec fn not_positive(bits: u32) -> bool {
    bits == 0 || 0x8000_0000 <= bits <= 0xff80_0000
}

/// The metadata prefix that an architecture's keys use.
pub open spec fn prefix_of(arch: Seq<char>) -> Seq<char> {
    if arch == "qwen2"@ || arch == "qwen2.5"@ {
        "qwen2"@
    } else if arch == "qwen3"@ || arch == "qwen3moe"@ || arch == "qwen3next"@ {
        "qwen3"@
    } else if arch == "phi3"@ || arch == "phi-3"@ {
        "phi3"@
    } else if arch == "starcoder2"@ {
        "starcoder2"@
    } else if arch == "gemma2"@ {
        "gemma"@
    } else if arch == "command-r"@ {
        "command-r"@
    } else if arch == "dbrx"@ {
        "dbrx"@
    } else if arch == "falcon"@ {
        "falcon"@
    } else if arch == "yi"@ {
        "yi"@
    } else if arch == "deepseek2"@ {
        "deepseek2"@
    } else {
        "llama"@
    }
}

/// The metadata prefix that an architecture's keys use.
fn arch_prefix(arch: &str) -> (r: &'static str)
    ensures
        r@ == prefix_of(arch@),
{
    if same_str(arch, "qwen2") || same_str(arch, "qwen2.5") {
        "qwen2"
    } else if same_str(arch, "qwen3") || same_str(arch, "qwen3moe") || same_str(arch, "qwen3next") {
        "qwen3"
    } else if same_str(arch, "phi3") || same_str(arch, "phi-3") {
        "phi3"
    } else if same_str(arch, "starcoder2") {
        "starcoder2"
    } else if same_str(arch, "gemma2") {
        "gemma"
    } else if same_str(arch, "command-r") {
        "command-r"
    } else if same_str(arch, "dbrx") {
        "dbrx"
    } else if same_str(arch, "falcon") {
        "falcon"
    } else if same_str(arch, "yi") {
        "yi"
    } else if same_str(arch, "deepseek2") {
        "deepseek2"
    } else {
        "llama"
    }
}

/// The prefixes under which an architecture's keys are looked for: that of its family, its own
/// name, and nothing.
pub fn get_arch_prefixes<'a>(arch: &'a str) -> (r: [&'a str; 3])
    ensures
        r@[0]@ == prefix_of(arch@),
        r@[1]@ == arch@,
        r@[2]@ == ""@,
{
    [arch_prefix(arch), arch, ""]
}

/// The key with a prefix.
pub open spec fn keyed(prefix: Seq<char>, key: Seq<char>) -> Seq<char> {
    prefix + "."@ + key
}

/// The bit pattern under a key.
pub open spec fn bits_under(f: GgufFile, key: Seq<char>) -> Option<u32> {
    match f.entry(key) {
        Some(v) => v.float_bits(),
        None => None,
    }
}

/// The number under a key of the architecture: under its prefix, else under its own name, else
/// under that of the default architecture.
pub open spec fn arch_word(f: GgufFile, arch: Seq<char>, key: Seq<char>) -> Option<u32> {
    if word_under(f, keyed(prefix_of(arch), key)) is Some {
        word_under(f, keyed(prefix_of(arch), key))
    } else if arch.len() > 0 && word_under(f, keyed(arch, key)) is Some {
        word_under(f, keyed(arch, key))
    } else {
        word_under(f, keyed("llama"@, key))
    }
}

/// The bit pattern under a key of the architecture, found in the same way.
pub open spec fn arch_bits(f: GgufFile, arch: Seq<char>, key: Seq<char>) -> Option<u32> {
    if bits_under(f, keyed(prefix_of(arch), key)) is Some {
        bits_under(f, keyed(prefix_of(arch), key))
    } else if arch.len() > 0 && bits_under(f, keyed(arch, key)) is Some {
        bits_under(f, keyed(arch, key))
    } else {
        bits_under(f, keyed("llama"@, key))
    }
}

/// The text under a key of the architecture, found in the same way.
pub open spec fn arch_text(f: GgufFile, arch: Seq<char>, key: Seq<char>) -> Option<Seq<char>> {
    if text_under(f, keyed(prefix_of(arch), key)) is Some {
        text_under(f, keyed(prefix_of(arch), key))
    } else if arch.len() > 0 && text_under(f, keyed(arch, key)) is Some {
        text_under(f, keyed(arch, key))
    } else {
        text_under(f, keyed("llama"@, key))
    }
}

fn meta_u32_prefixed(gguf: &GgufFile, arch: &str, key: &str) -> (r: Option<u32>)
    ensures
        r == arch_word(*gguf, arch@, key@),
{
    let prefixes = get_arch_prefixes(arch);
    let first = concat3(prefixes[0], ".", key);
    if let Some(x) = gguf.meta_u32(first.as_str()) {
        return Some(x);
    }
    if !arch.is_empty() {
        let second = concat3(prefixes[1], ".", key);
        if let Some(x) = gguf.meta_u32(second.as_str()) {
            return Some(x);
        }
    }
    let last = concat3("llama", ".", key);
    gguf.meta_u32(last.as_str())
}

fn meta_bits_prefixed(gguf: &GgufFile, arch: &str, key: &str) -> (r: Option<u32>)
    ensures
        r == arch_bits(*gguf, arch@, key@),
{
    let prefixes = get_arch_prefixes(arch);
    let first = concat3(prefixes[0], ".", key);
    if let Some(x) = gguf.meta_f32_bits(first.as_str()) {
        return Some(x);
    }
    if !arch.is_empty() {
        let second = concat3(prefixes[1], ".", key);
        if let Some(x) = gguf.meta_f32_bits(second.as_str()) {
            return Some(x);
        }
    }
    let last = concat3("llama", ".", key);
    gguf.meta_f32_bits(last.as_str())
}

fn meta_str_prefixed(gguf: &GgufFile, arch: &str, key: &str) -> (r: Option<String>)
    ensures
        match r {
            Some(s) => arch_text(*gguf, arch@, key@) == Some(s@),
            None => arch_text(*gguf, arch@, key@) is None,
        },
{
    let prefixes = get_arch_prefixes(arch);
    let first = concat3(prefixes[0], ".", key);
    if let Some(x) = gguf.meta_str(first.as_str()) {
        return Some(x.to_owned());
    }
    if !arch.is_empty() {
        let second = concat3(prefixes[1], ".", key);
        if let Some(x) = gguf.meta_str(second.as_str()) {
            return Some(x.to_owned());
        }
    }
    let last = concat3("llama", ".", key);
    match gguf.meta_str(last.as_str()) {
        Some(x) => Some(x.to_owned()),
        None => None,
    }
}

/// The number of tokens: as the file states it, else as many as it lists.
pub open spec fn vocab_size_of(f: GgufFile) -> Option<u32> {
    if word_under(f, "tokenizer.ggml.tokens"@) is Some {
        word_under(f, "tokenizer.ggml.tokens"@)
    } else if word_under(f, "llama.vocab_size"@) is Some {
        word_under(f, "llama.vocab_size"@)
    } else {
        match array_under(f, "tokenizer.ggml.tokens"@) {
            Some(v) => Some(v.len() as u32),
            None => None,
        }
    }
}

/// `x`, or `d` where there is none.
pub open spec fn or_default(x: Option<u32>, d: u32) -> u32 {
    match x {
        Some(v) => v,
        None => d,
    }
}

/// Why a file has no usable configuration.
pub open spec fn config_fault(f: GgufFile) -> Option<Seq<char>> {
    match text_under(f, "general.architecture"@) {
        None => Some("Missing general.architecture"@),
        Some(a) => if arch_word(f, a, "embedding_length"@) is None {
            Some("Missing embedding_length"@)
        } else if arch_word(f, a, "block_count"@) is None {
            Some("Missing block_count"@)
        } else if arch_word(f, a, "attention.head_count"@) is None {
            Some("Missing head_count"@)
        } else if arch_word(f, a, "attention.head_dim"@) is None && arch_word(
            f,
            a,
            "attention.head_count"@,
        ) == Some(0u32) {
            Some("Config validation: n_heads is 0"@)
        } else if vocab_size_of(f) is None {
            Some("Missing vocab_size"@)
        } else {
            None
        },
    }
}

/// A configuration is the one that a file states, with the usual values for what it leaves out.
pub open spec fn config_of_file(c: ModelConfig, f: GgufFile) -> bool {
    let a = c.arch@;
    &&& text_under(f, "general.architecture"@) == Some(a)
    &&& arch_word(f, a, "embedding_length"@) == Some(c.d_model)
    &&& arch_word(f, a, "block_count"@) == Some(c.n_layers)
    &&& arch_word(f, a, "attention.head_count"@) == Some(c.n_heads)
    &&& c.n_kv_heads == or_default(arch_word(f, a, "attention.head_count_kv"@), c.n_heads)
    &&& c.head_dim == match arch_word(f, a, "attention.head_dim"@) {
        Some(x) => x as int,
        None => c.d_model as int / c.n_heads as int,
    }
    &&& c.d_ffn == or_default(
        arch_word(f, a, "feed_forward_length"@),
        c.d_model.wrapping_mul(4),
    )
    &&& vocab_size_of(f) == Some(c.vocab_size)
    &&& c.max_seq_len == or_default(arch_word(f, a, "context_length"@), 2048)
    &&& c.rope_theta_bits == or_default(
        arch_bits(f, a, "rope.freq_base"@),
        DEFAULT_ROPE_THETA_BITS,
    )
    &&& c.rms_norm_eps_bits == or_default(
        arch_bits(f, a, "attention.layer_norm_rms_epsilon"@),
        DEFAULT_RMS_NORM_EPS_BITS,
    )
    &&& c.rope_dim == or_default(arch_word(f, a, "rope.dimension_count"@), c.head_dim)
    &&& match c.rope_scaling_type {
        Some(s) => arch_text(f, a, "rope.scaling.type"@) == Some(s@),
        None => arch_text(f, a, "rope.scaling.type"@) is None,
    }
    &&& c.rope_scaling_factor_bits == arch_bits(f, a, "rope.scaling.factor"@)
    &&& c.original_ctx_len == arch_word(f, a, "rope.scaling.original_context_length"@)
    &&& c.n_experts == or_default(arch_word(f, a, "expert_count"@), 0)
    &&& c.n_experts_per_tok == or_default(arch_word(f, a, "expert_used_count"@), 0)
    &&& c.post_norm == (a == "gemma"@ || a == "gemma2"@)
    &&& c.embed_scale == c.post_norm
}

/// What is wrong with a configuration.
#[derive(Debug, Clone, Copy, PartialEq, Eq, Structural)]
pub enum ConfigError {
    NoHeads,
    NoModelWidth,
    NoHeadWidth,
    WidthNotDivisible { d_model: u32, n_heads: u32 },
    HeadsNotDivisible { n_heads: u32, n_kv_heads: u32 },
    HeadsTooNarrow { head_dim: u32, n_heads: u32, d_model: u32 },
    NoFfn,
    NoLayers,
    NoVocabulary,
    NoContext,
    NoActiveExperts { n_experts: u32 },
    TooManyActiveExperts { n_experts_per_tok: u32, n_experts: u32 },
    EpsilonNotPositive { bits: u32 },
    ThetaNotPositive { bits: u32 },
}

/// The text of an error; `number` is the printed form of the real number that it is about.
pub open spec fn config_error_text(e: ConfigError, number: Seq<char>) -> Seq<char> {
    match e {
        ConfigError::NoHeads => "Config validation: n_heads is 0"@,
        ConfigError::NoModelWidth => "Config validation: d_model is 0"@,
        ConfigError::NoHeadWidth => "Config validation: head_dim is 0"@,
        ConfigError::WidthNotDivisible { d_model, n_heads } => "Config validation: d_model ("@
            + decimal(d_model as nat) + ") not divisible by n_heads ("@ + decimal(n_heads as nat)
            + ")"@,
        ConfigError::HeadsNotDivisible { n_heads, n_kv_heads } => "Config validation: n_heads ("@
            + decimal(n_heads as nat) + ") not divisible by n_kv_heads ("@ + decimal(
            n_kv_heads as nat,
        ) + ")"@,
        ConfigError::HeadsTooNarrow { head_dim, n_heads, d_model } => "Config validation: head_dim ("@
            + decimal(head_dim as nat) + ") * n_heads ("@ + decimal(n_heads as nat)
            + ") < d_model ("@ + decimal(d_model as nat) + ")"@,
        ConfigError::NoFfn => "Config validation: d_ffn is 0"@,
        ConfigError::NoLayers => "Config validation: n_layers is 0"@,
        ConfigError::NoVocabulary => "Config validation: vocab_size is 0"@,
        ConfigError::NoContext => "Config validation: max_seq_len is 0"@,
        ConfigError::NoActiveExperts { n_experts } => "Config validation: n_experts ("@ + decimal(
            n_experts as nat,
        ) + ") > 0 but n_experts_per_tok is 0"@,
        ConfigError::TooManyActiveExperts { n_experts_per_tok, n_experts } =>
            "Config validation: n_experts_per_tok ("@ + decimal(n_experts_per_tok as nat)
            + ") > n_experts ("@ + decimal(n_experts as nat) + ")"@,
        ConfigError::EpsilonNotPositive { bits } => "Config validation: rms_norm_eps ("@ + number
            + ") must be positive"@,
        ConfigError::ThetaNotPositive { bits } => "Config validation: rope_theta ("@ + number
            + ") must be positive"@,
    }
}

impl ConfigError {
    /// The text of the error; `number` is the printed form of the real number that it is about.
    pub fn message(&self, number: &str) -> (r: String)
        ensures
            r@ == config_error_text(*self, number@),
    {
        match *self {
            ConfigError::NoHeads => "Config validation: n_heads is 0".to_owned(),
            ConfigError::NoModelWidth => "Config validation: d_model is 0".to_owned(),
            ConfigError::NoHeadWidth => "Config validation: head_dim is 0".to_owned(),
            ConfigError::WidthNotDivisible { d_model, n_heads } => {
                let mut out = "Config validation: d_model (".to_owned();
                push_decimal(&mut out, d_model as u64);
                out.append(") not divisible by n_heads (");
                push_decimal(&mut out, n_heads as u64);
                out.append(")");
                out
            },
            ConfigError::HeadsNotDivisible { n_heads, n_kv_heads } => {
                let mut out = "Config validation: n_heads (".to_owned();
                push_decimal(&mut out, n_heads as u64);
                out.append(") not divisible by n_kv_heads (");
                push_decimal(&mut out, n_kv_heads as u64);
                out.append(")");
                out
            },
            ConfigError::HeadsTooNarrow { head_dim, n_heads, d_model } => {
                let mut out = "Config validation: head_dim (".to_owned();
                push_decimal(&mut out, head_dim as u64);
                out.append(") * n_heads (");
                push_decimal(&mut out, n_heads as u64);
                out.append(") < d_model (");
                push_decimal(&mut out, d_model as u64);
                out.append(")");
                out
            },
            ConfigError::NoFfn => "Config validation: d_ffn is 0".to_owned(),
            ConfigError::NoLayers => "Config validation: n_layers is 0".to_owned(),
            ConfigError::NoVocabulary => "Config validation: vocab_size is 0".to_owned(),
            ConfigError::NoContext => "Config validation: max_seq_len is 0".to_owned(),
            ConfigError::NoActiveExperts { n_experts } => {
                let mut out = "Config validation: n_experts (".to_owned();
                push_decimal(&mut out, n_experts as u64);
                out.append(") > 0 but n_experts_per_tok is 0");
                out
            },
            ConfigError::TooManyActiveExperts { n_experts_per_tok, n_experts } => {
                let mut out = "Config validation: n_experts_per_tok (".to_owned();
                push_decimal(&mut out, n_experts_per_tok as u64);
                out.append(") > n_experts (");
                push_decimal(&mut out, n_experts as u64);
                out.append(")");
                out
            },
            ConfigError::EpsilonNotPositive { bits } => concat3(
                "Config validation: rms_norm_eps (",
                number,
                ") must be positive",
            ),
            ConfigError::ThetaNotPositive { bits } => concat3(
                "Config validation: rope_theta (",
                number,
                ") must be positive",
            ),
        }
    }
}

/// The first thing that is wrong with a configuration.
pub open spec fn first_fault(c: ModelConfig) -> Option<ConfigError> {
    if c.n_heads == 0 {
        Some(ConfigError::NoHeads)
    } else if c.d_model == 0 {
        Some(ConfigError::NoModelWidth)
    } else if c.head_dim == 0 {
        Some(ConfigError::NoHeadWidth)
    } else if c.d_model as int % c.n_heads as int != 0 {
        Some(ConfigError::WidthNotDivisible { d_model: c.d_model, n_heads: c.n_heads })
    } else if c.n_kv_heads == 0 || c.n_heads as int % c.n_kv_heads as int != 0 {
        Some(ConfigError::HeadsNotDivisible { n_heads: c.n_heads, n_kv_heads: c.n_kv_heads })
    } else if c.head_dim * c.n_heads < c.d_model {
        Some(
            ConfigError::HeadsTooNarrow {
                head_dim: c.head_dim,
                n_heads: c.n_heads,
                d_model: c.d_model,
            },
        )
    } else if c.d_ffn == 0 {
        Some(ConfigError::NoFfn)
    } else if c.n_layers == 0 {
        Some(ConfigError::NoLayers)
    } else if c.vocab_size == 0 {
        Some(ConfigError::NoVocabulary)
    } else if c.max_seq_len == 0 {
        Some(ConfigError::NoContext)
    } else if c.n_experts > 0 && c.n_experts_per_tok == 0 {
        Some(ConfigError::NoActiveExperts { n_experts: c.n_experts })
    } else if c.n_experts_per_tok > c.n_experts {
        Some(
            ConfigError::TooManyActiveExperts {
                n_experts_per_tok: c.n_experts_per_tok,
                n_experts: c.n_experts,
            },
        )
    } else if not_positive(c.rms_norm_eps_bits) {
        Some(ConfigError::EpsilonNotPositive { bits: c.rms_norm_eps_bits })
    } else if not_positive(c.rope_theta_bits) {
        Some(ConfigError::ThetaNotPositive { bits: c.rope_theta_bits })
    } else {
        None
    }
}

fn bits_not_positive(bits: u32) -> (r: bool)
    ensures
        r == not_positive(bits),
{
    bits == 0 || (0x8000_0000 <= bits && bits <= 0xff80_0000)
}

impl ModelConfig {
    /// The configuration that a file states.
    pub fn from_gguf(gguf: &GgufFile) -> (r: Result<ModelConfig, String>)
        ensures
            match r {
                Ok(c) => config_fault(*gguf) is None && config_of_file(c, *gguf),
                Err(e) => config_fault(*gguf) == Some(e@),
            },
    {
        let arch: String = match gguf.meta_str("general.architecture") {
            Some(a) => a.to_owned(),
            None => return Err("Missing general.architecture".to_owned()),
        };
        let a = arch.as_str();
        let d_model: u32 = match meta_u32_prefixed(gguf, a, "embedding_length") {
            Some(x) => x,
            None => return Err("Missing embedding_length".to_owned()),
        };
        let n_layers: u32 = match meta_u32_prefixed(gguf, a, "block_count") {
            Some(x) => x,
            None => return Err("Missing block_count".to_owned()),
        };
        let n_heads: u32 = match meta_u32_prefixed(gguf, a, "attention.head_count") {
            Some(x) => x,
            None => return Err("Missing head_count".to_owned()),
        };
        let n_kv_heads: u32 = match meta_u32_prefixed(gguf, a, "attention.head_count_kv") {
            Some(x) => x,
            None => n_heads,
        };
        let head_dim: u32 = match meta_u32_prefixed(gguf, a, "attention.head_dim") {
            Some(x) => x,
            None => {
                if n_heads == 0 {
                    return Err("Config validation: n_heads is 0".to_owned());
                }
                d_model / n_heads
            },
        };
        let d_ffn: u32 = match meta_u32_prefixed(gguf, a, "feed_forward_length") {
            Some(x) => x,
            None => d_model.wrapping_mul(4),
        };
        let stated: Option<u32> = match gguf.meta_u32("tokenizer.ggml.tokens") {
            Some(x) => Some(x),
            None => gguf.meta_u32("llama.vocab_size"),
        };
        let vocab_size: u32 = match stated {
            Some(x) => x,
            None => match gguf.meta_array("tokenizer.ggml.tokens") {
                Some(v) => {
                    #[verifier::truncate]
                    (v.len() as u32)
                },
                None => return Err("Missing vocab_size".to_owned()),
            },
        };
        let max_seq_len: u32 = match meta_u32_prefixed(gguf, a, "context_length") {
            Some(x) => x,
            None => 2048,
        };
        let rope_theta_bits: u32 = match meta_bits_prefixed(gguf, a, "rope.freq_base") {
            Some(x) => x,
            None => DEFAULT_ROPE_THETA_BITS,
        };
        let rms_norm_eps_bits: u32 = match meta_bits_prefixed(
            gguf,
            a,
            "attention.layer_norm_rms_epsilon",
        ) {
            Some(x) => x,
            None => DEFAULT_RMS_NORM_EPS_BITS,
        };
        let rope_dim: u32 = match meta_u32_prefixed(gguf, a, "rope.dimension_count") {
            Some(x) => x,
            None => head_dim,
        };
        let rope_scaling_type = meta_str_prefixed(gguf, a, "rope.scaling.type");
        let rope_scaling_factor_bits = meta_bits_prefixed(gguf, a, "rope.scaling.factor");
        let original_ctx_len = meta_u32_prefixed(
            gguf,
            a,
            "rope.scaling.original_context_length",
        );
        let n_experts: u32 = match meta_u32_prefixed(gguf, a, "expert_count") {
            Some(x) => x,
            None => 0,
        };
        let n_experts_per_tok: u32 = match meta_u32_prefixed(gguf, a, "expert_used_count") {
            Some(x) => x,
            None => 0,
        };
        let post_norm: bool = same_str(a, "gemma") || same_str(a, "gemma2");
        Ok(
            ModelConfig {
                arch,
                n_layers,
                n_heads,
                n_kv_heads,
                head_dim,
                d_model,
                d_ffn,
                vocab_size,
                max_seq_len,
                rope_theta_bits,
                rms_norm_eps_bits,
                rope_dim,
                rope_scaling_type,
                rope_scaling_factor_bits,
                original_ctx_len,
                n_experts,
                n_experts_per_tok,
                post_norm,
                embed_scale: post_norm,
            },
        )
    }

    /// Reports the first thing that is wrong with the configuration.
    pub fn validate(&self) -> (r: Result<(), ConfigError>)
        ensures
            match r {
                Ok(()) => first_fault(*self) is None,
                Err(e) => first_fault(*self) == Some(e),
            },
    {
        if self.n_heads == 0 {
            return Err(ConfigError::NoHeads);
        }
        if self.d_model == 0 {
            return Err(ConfigError::NoModelWidth);
        }
        if self.head_dim == 0 {
            return Err(ConfigError::NoHeadWidth);
        }
        if self.d_model % self.n_heads != 0 {
            return Err(
                ConfigError::WidthNotDivisible { d_model: self.d_model, n_heads: self.n_heads },
            );
        }
        if self.n_kv_heads == 0 || self.n_heads % self.n_kv_heads != 0 {
            return Err(
                ConfigError::HeadsNotDivisible {
                    n_heads: self.n_heads,
                    n_kv_heads: self.n_kv_heads,
                },
            );
        }
        assert(self.head_dim * self.n_heads <= u64::MAX) by (nonlinear_arith)
            requires
                self.head_dim <= u32::MAX,
                self.n_heads <= u32::MAX,
        {
        }
        if (self.head_dim as u64) * (self.n_heads as u64) < self.d_model as u64 {
            return Err(
                ConfigError::HeadsTooNarrow {
                    head_dim: self.head_dim,
                    n_heads: self.n_heads,
                    d_model: self.d_model,
                },
            );
        }
        if self.d_ffn == 0 {
            return Err(ConfigError::NoFfn);
        }
        if self.n_layers == 0 {
            return Err(ConfigError::NoLayers);
        }
        if self.vocab_size == 0 {
            return Err(ConfigError::NoVocabulary);
        }
        if self.max_seq_len == 0 {
            return Err(ConfigError::NoContext);
        }
        if self.n_experts > 0 && self.n_experts_per_tok == 0 {
            return Err(ConfigError::NoActiveExperts { n_experts: self.n_experts });
        }
        if self.n_experts_per_tok > self.n_experts {
            return Err(
                ConfigError::TooManyActiveExperts {
                    n_experts_per_tok: self.n_experts_per_tok,
                    n_experts: self.n_experts,
                },
            );
        }
        if bits_not_positive(self.rms_norm_eps_bits) {
            return Err(ConfigError::EpsilonNotPositive { bits: self.rms_norm_eps_bits });
        }
        if bits_not_positive(self.rope_theta_bits) {
            return Err(ConfigError::ThetaNotPositive { bits: self.rope_theta_bits });
        }
        Ok(())
    }
}

/// In a configuration with nothing wrong, query heads share key/value heads evenly, the heads
/// together are at least as wide as the model, and no size is zero.
pub proof fn law_valid_config_is_consistent(c: ModelConfig)
    requires
        first_fault(c) is None,
    ensures
        c.n_heads as int % c.n_kv_heads as int == 0,
        c.d_model as int % c.n_heads as int == 0,
        0 < c.n_kv_heads <= c.n_heads,
        c.d_model <= c.head_dim * c.n_heads,
        c.n_experts_per_tok <= c.n_experts,
        c.n_experts > 0 ==> c.n_experts_per_tok > 0,
        0 < c.d_model && 0 < c.head_dim && 0 < c.d_ffn && 0 < c.n_layers && 0 < c.vocab_size && 0
            < c.max_seq_len,
{
    if c.n_kv_heads > c.n_heads {
        vstd::arithmetic::div_mod::lemma_small_mod(c.n_heads as nat, c.n_kv_heads as nat);
    }
}

} // verus!
