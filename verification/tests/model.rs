use hearth::compute::QuantKind;
use hearth::engine::request::LoadStrategy;
use hearth::gguf::file::{GgufError, GgufFile};
use hearth::gguf::ggml::GgmlDType;
use hearth::gguf::meta::MetaValue;
use hearth::gguf::reader::{read_string, read_u32, read_u64, read_u8};
use hearth::gguf::tensor::TensorInfo;
use hearth::llm::config::{get_arch_prefixes, ConfigError, ModelConfig};
use hearth::llm::device::{
    device_takes_weight, has_device_norms, upload_form, DeviceFault, DevicePlanner, DeviceStep,
    UploadForm,
};
use hearth::llm::load::{LoadError, LoadedModel, WeightTable};
use hearth::llm::matmul::{
    device_path, matmul_path, plan_batch, plan_fused2, plan_fused_qkv, plan_matmul, BatchPlan,
    DevicePath, DotKernel, FusedPlan, MatmulPath,
};
use hearth::llm::plan::{plan_pass, Fault, PassKind, Step};
use hearth::llm::shape::{
    attends_on_device, device_cache_size, head_start, place_layers, resolve_head_dim, shape_of, wants_device, Buf,
};
use hearth::llm::tensor::TensorEntry;
use hearth::llm::timers::ForwardTimers;
use hearth::llm::weight::{is_norm_tensor, lm_head, Weight};
use hearth::tokenizer::TemplateKind;
use hearth::StringHashMap;

fn text(out: &mut Vec<u8>, s: &str) {
    out.extend_from_slice(&(s.len() as u64).to_le_bytes());
    out.extend_from_slice(s.as_bytes());
}

/// A file under construction.
struct Builder {
    metadata: Vec<u8>,
    n_metadata: u64,
    tensors: Vec<u8>,
    n_tensors: u64,
    data: Vec<u8>,
}

impl Builder {
    fn new() -> Self {
        Builder { metadata: Vec::new(), n_metadata: 0, tensors: Vec::new(), n_tensors: 0, data: Vec::new() }
    }

    fn key(&mut self, key: &str, type_id: u32) -> &mut Vec<u8> {
        self.n_metadata += 1;
        text(&mut self.metadata, key);
        self.metadata.extend_from_slice(&type_id.to_le_bytes());
        &mut self.metadata
    }

    fn word(&mut self, key: &str, value: u32) {
        self.key(key, 4).extend_from_slice(&value.to_le_bytes());
    }

    fn float(&mut self, key: &str, value: f32) {
        self.key(key, 6).extend_from_slice(&value.to_le_bytes());
    }

    fn string(&mut self, key: &str, value: &str) {
        let out = self.key(key, 8);
        text(out, value);
    }

    fn strings(&mut self, key: &str, values: &[&str]) {
        let out = self.key(key, 9);
        out.extend_from_slice(&8u32.to_le_bytes());
        out.extend_from_slice(&(values.len() as u64).to_le_bytes());
        for v in values {
            text(out, v);
        }
    }

    fn tensor(&mut self, name: &str, shape: &[u64], type_id: u32, bytes: &[u8]) {
        self.n_tensors += 1;
        text(&mut self.tensors, name);
        self.tensors.extend_from_slice(&(shape.len() as u32).to_le_bytes());
        for d in shape {
            self.tensors.extend_from_slice(&d.to_le_bytes());
        }
        self.tensors.extend_from_slice(&type_id.to_le_bytes());
        self.tensors.extend_from_slice(&(self.data.len() as u64).to_le_bytes());
        self.data.extend_from_slice(bytes);
        while self.data.len() % 32 != 0 {
            self.data.push(0);
        }
    }

    fn build(&self, version: u32) -> Vec<u8> {
        let mut out = b"GGUF".to_vec();
        out.extend_from_slice(&version.to_le_bytes());
        out.extend_from_slice(&self.n_tensors.to_le_bytes());
        out.extend_from_slice(&self.n_metadata.to_le_bytes());
        out.extend_from_slice(&self.metadata);
        out.extend_from_slice(&self.tensors);
        while version == 3 && out.len() % 32 != 0 {
            out.push(0);
        }
        out.extend_from_slice(&self.data);
        out
    }
}

/// The metadata of a small model with one layer of two heads.
fn small_model() -> Builder {
    let mut b = Builder::new();
    b.string("general.architecture", "qwen3");
    b.word("qwen3.embedding_length", 8);
    b.word("qwen3.block_count", 1);
    b.word("qwen3.attention.head_count", 2);
    b.word("qwen3.attention.head_count_kv", 1);
    b.word("qwen3.feed_forward_length", 16);
    b.word("qwen3.context_length", 32);
    b.strings("tokenizer.ggml.tokens", &["<s>", "</s>", "a", "b"]);
    b
}

#[test]
fn a_header_gives_back_what_was_written() {
    let mut b = small_model();
    b.float("x.float", 1.5);
    b.key("x.flag", 7).push(1);
    b.key("x.long", 10).extend_from_slice(&7u64.to_le_bytes());
    b.tensor("t", &[2, 3], 0, &[1u8; 24]);
    for version in [2, 3] {
        let bytes = b.build(version);
        let f = GgufFile::parse(&bytes).ok().unwrap();
        assert_eq!(f.version, version);
        assert_eq!(f.alignment, 32);
        assert_eq!(f.meta_str("general.architecture"), Some("qwen3"));
        assert_eq!(f.meta_u32("qwen3.embedding_length"), Some(8));
        assert_eq!(f.meta_f32_bits("x.float"), Some(1.5f32.to_bits()));
        assert_eq!(f.meta_bool("x.flag"), Some(true));
        assert_eq!(f.meta_u64("x.long"), Some(7));
        assert_eq!(f.meta_u32("x.long"), None);
        assert_eq!(f.meta_array("tokenizer.ggml.tokens").unwrap().len(), 4);
        assert_eq!(f.tensors.len(), 1);
        let t = f.find_tensor("t").unwrap();
        assert_eq!((t.dtype, t.element_count(), t.byte_size()), (GgmlDType::F32, 6, 24));
        assert!(f.has_data(t));
        assert_eq!(f.tensor_data(t), &[1u8; 24]);
        assert!(f.find_tensor("u").is_none());
        if version == 3 {
            assert_eq!(f.data_offset % f.alignment, 0);
        }
    }
}

#[test]
fn bytes_behind_the_tensors_do_not_matter() {
    let mut b = small_model();
    b.tensor("t", &[4], 0, &[2u8; 16]);
    let mut bytes = b.build(3);
    bytes.extend_from_slice(&[9u8; 100]);
    let f = GgufFile::parse(&bytes).ok().unwrap();
    assert_eq!(f.tensor_data(&f.tensors[0]), &[2u8; 16]);
}

#[test]
fn malformed_text_is_read_with_replacement_characters() {
    let mut b = Builder::new();
    let out = b.key("k", 8);
    out.extend_from_slice(&2u64.to_le_bytes());
    out.extend_from_slice(&[b'a', 0xff]);
    let bytes = b.build(3);
    let f = GgufFile::parse(&bytes).ok().unwrap();
    assert_eq!(f.meta_str("k"), Some("a\u{fffd}"));
}

fn failure(bytes: &[u8]) -> GgufError {
    match GgufFile::parse(bytes) {
        Ok(_) => panic!("expected a failure"),
        Err(e) => e,
    }
}

#[test]
fn each_header_error_has_its_input() {
    assert!(matches!(failure(b"GG"), GgufError::FileTooSmall));
    assert_eq!(failure(b"GG").message(), "File too small");
    assert!(matches!(failure(b"GGML...."), GgufError::InvalidMagic([0x47, 0x47, 0x4d, 0x4c])));
    assert_eq!(
        failure(b"GGML....").message(),
        "Invalid GGUF magic: expected GGUF, got [71, 71, 77, 76]"
    );
    assert!(matches!(failure(b"GGUF\x01\0\0\0"), GgufError::UnsupportedVersion(1)));
    assert_eq!(failure(b"GGUF\x01\0\0\0").message(), "Unsupported GGUF version: 1");
    assert!(matches!(failure(b"GGUF\x03\0\0\0"), GgufError::UnexpectedEof(8)));
    assert_eq!(failure(b"GGUF\x03\0\0\0").message(), "Unexpected end of file at offset 8");
    let mut b = Builder::new();
    b.tensor("t", &[1], 999, &[]);
    let e = failure(&b.build(3));
    assert_eq!(e.message(), "Unknown dtype id 999 for tensor t");
    assert!(matches!(e, GgufError::UnknownDtype(999, _)));
    let mut b = Builder::new();
    b.word("general.alignment", 0);
    assert!(matches!(failure(&b.build(3)), GgufError::Other(_)));
    assert_eq!(GgufError::Io("gone".to_string()).message(), "IO error: gone");
}

#[test]
fn a_tensor_outside_the_file_has_no_data() {
    let mut b = small_model();
    b.tensor("t", &[1000], 0, &[0u8; 16]);
    let bytes = b.build(3);
    let f = GgufFile::parse(&bytes).ok().unwrap();
    assert!(!f.has_data(&f.tensors[0]));
    assert_eq!(WeightTable::of_file(&f).err(), Some(0));
    assert!(matches!(LoadedModel::from_gguf(&f), Err(LoadError::OutOfFile(0))));
}

#[test]
fn blocks_have_their_sizes() {
    assert_eq!(GgmlDType::from_id(8), Some(GgmlDType::Q8_0));
    assert_eq!(GgmlDType::Q8_0.byte_size(64), 68);
    assert_eq!(GgmlDType::Q8_0.byte_size(65), 102);
    assert_eq!(GgmlDType::Q4_0.byte_size(32), 18);
    assert_eq!(GgmlDType::F16.byte_size(3), 6);
    assert_eq!(GgmlDType::F32.checked_byte_size(usize::MAX), None);
    assert_eq!((GgmlDType::Q1_0.block_size(), GgmlDType::Q1_0.block_bytes()), (128, 18));
    assert_eq!((GgmlDType::Q2_0.block_size(), GgmlDType::Q2_0.block_bytes()), (128, 34));
    assert_eq!(GgmlDType::Q4_K.name(), "Q4_K");
    assert!(GgmlDType::Q4_K.is_quantized() && !GgmlDType::F32.is_quantized());
    assert!(GgmlDType::Q1_0.is_q1() && GgmlDType::Q2_0.is_q1() && !GgmlDType::Q8_0.is_q1());
}

#[test]
fn element_counts_saturate() {
    let info = |shape: Vec<u64>| TensorInfo {
        name: "t".to_string(),
        shape,
        dtype: GgmlDType::F32,
        dtype_id: 0,
        offset: 0,
    };
    assert_eq!(info(vec![2, 3, 4]).element_count(), 24);
    assert_eq!(info(vec![]).element_count(), 1);
    assert_eq!(info(vec![u64::MAX, 2]).element_count(), u64::MAX);
    assert_eq!(info(vec![u64::MAX, 2, 0]).element_count(), 0);
    assert_eq!(info(vec![u64::MAX]).checked_byte_size(), None);
}

#[test]
fn a_failed_read_stops_where_the_bytes_ran_out() {
    let mut data = 5u64.to_le_bytes().to_vec();
    data.extend_from_slice(b"abc");
    let mut pos = 0;
    assert_eq!(read_string(&data, &mut pos), Err(8));
    assert_eq!(pos, 8);
    pos = 4;
    assert_eq!(read_string(&data, &mut pos), Err(4));
    assert_eq!(pos, 4);
    pos = 8;
    assert_eq!(read_u32(&data, &mut pos), Err(8));
    assert_eq!(read_u8(&data, &mut pos), Ok(b'a'));
    assert_eq!(pos, 9);
    pos = 99;
    assert_eq!(read_u64(&data, &mut pos), Err(99));
    assert_eq!(pos, 99);
    data[0] = 3;
    pos = 0;
    assert_eq!(read_string(&data, &mut pos), Ok("abc".to_string()));
    assert_eq!(pos, 11);
}

#[test]
fn a_value_is_read_only_as_what_it_is() {
    assert_eq!(MetaValue::U32(7).as_u32(), Some(7));
    assert_eq!(MetaValue::U32(7).as_u64(), None);
    assert_eq!(MetaValue::U64(7).as_u64(), Some(7));
    assert_eq!(MetaValue::Bool(true).as_bool(), Some(true));
    assert_eq!(MetaValue::F32(5).as_f32_bits(), Some(5));
    assert_eq!(MetaValue::String("x".to_string()).as_str(), Some("x"));
    assert_eq!(MetaValue::Array(4, vec![MetaValue::U32(1)]).as_array().unwrap().len(), 1);
}

#[test]
fn a_configuration_is_read_with_its_defaults() {
    let bytes = small_model().build(3);
    let f = GgufFile::parse(&bytes).ok().unwrap();
    let c = ModelConfig::from_gguf(&f).unwrap();
    assert_eq!((c.d_model, c.n_layers, c.n_heads, c.n_kv_heads), (8, 1, 2, 1));
    assert_eq!((c.head_dim, c.d_ffn, c.vocab_size, c.max_seq_len), (4, 16, 4, 32));
    assert_eq!(c.n_experts, 0);
    assert!(c.validate().is_ok());
    let s = shape_of(&c);
    assert_eq!((s.d, s.n_heads, s.head_dim, s.ffn), (8, 2, 4, 16));
    assert!(s.is_addressable(32));
    assert_eq!(s.buffer_len(Buf::QBuf, 3), 24);
    assert_eq!(s.buffer_len(Buf::KBuf, 3), 12);
    assert!(!s.reuses_quantised());
    assert_eq!(s.max_row(), 16);
    assert_eq!(s.q8_len(3, 33), 204);
    assert_eq!(head_start(&s, 2, 3, 2, 1), 20);
}

#[test]
fn missing_keys_are_named() {
    let f = |b: &Builder| {
        let bytes = b.build(3);
        let f = GgufFile::parse(&bytes).ok().unwrap();
        ModelConfig::from_gguf(&f).err().unwrap()
    };
    let mut b = Builder::new();
    assert_eq!(f(&b), "Missing general.architecture");
    b.string("general.architecture", "llama");
    assert_eq!(f(&b), "Missing embedding_length");
    b.word("llama.embedding_length", 8);
    assert_eq!(f(&b), "Missing block_count");
    b.word("llama.block_count", 1);
    assert_eq!(f(&b), "Missing head_count");
}

#[test]
fn keys_are_looked_for_under_three_prefixes() {
    assert_eq!(get_arch_prefixes("qwen3moe"), ["qwen3", "qwen3moe", ""]);
    assert_eq!(get_arch_prefixes("gemma2"), ["gemma", "gemma2", ""]);
    assert_eq!(get_arch_prefixes("unheard-of"), ["llama", "unheard-of", ""]);
}

fn valid_config() -> ModelConfig {
    ModelConfig {
        arch: "llama".to_string(),
        n_layers: 1,
        n_heads: 2,
        n_kv_heads: 1,
        head_dim: 4,
        d_model: 8,
        d_ffn: 16,
        vocab_size: 4,
        max_seq_len: 32,
        rope_theta_bits: 10000.0f32.to_bits(),
        rms_norm_eps_bits: 1e-5f32.to_bits(),
        rope_dim: 4,
        rope_scaling_type: None,
        rope_scaling_factor_bits: None,
        original_ctx_len: None,
        n_experts: 0,
        n_experts_per_tok: 0,
        post_norm: false,
        embed_scale: false,
    }
}

#[test]
fn each_configuration_error_has_its_input() {
    assert!(valid_config().validate().is_ok());
    let check = |change: fn(&mut ModelConfig)| {
        let mut c = valid_config();
        change(&mut c);
        c.validate().err().unwrap()
    };
    assert_eq!(check(|c| c.n_heads = 0), ConfigError::NoHeads);
    assert_eq!(check(|c| c.d_model = 0), ConfigError::NoModelWidth);
    assert_eq!(check(|c| c.head_dim = 0), ConfigError::NoHeadWidth);
    assert_eq!(check(|c| c.d_model = 9), ConfigError::WidthNotDivisible { d_model: 9, n_heads: 2 });
    assert_eq!(
        check(|c| c.n_kv_heads = 3),
        ConfigError::HeadsNotDivisible { n_heads: 2, n_kv_heads: 3 }
    );
    assert_eq!(
        check(|c| c.head_dim = 3),
        ConfigError::HeadsTooNarrow { head_dim: 3, n_heads: 2, d_model: 8 }
    );
    assert_eq!(check(|c| c.d_ffn = 0), ConfigError::NoFfn);
    assert_eq!(check(|c| c.n_layers = 0), ConfigError::NoLayers);
    assert_eq!(check(|c| c.vocab_size = 0), ConfigError::NoVocabulary);
    assert_eq!(check(|c| c.max_seq_len = 0), ConfigError::NoContext);
    assert_eq!(check(|c| c.n_experts = 4), ConfigError::NoActiveExperts { n_experts: 4 });
    assert_eq!(
        check(|c| {
            c.n_experts = 4;
            c.n_experts_per_tok = 5
        }),
        ConfigError::TooManyActiveExperts { n_experts_per_tok: 5, n_experts: 4 }
    );
    let e = check(|c| c.rms_norm_eps_bits = 0);
    assert_eq!(e.message("0"), "Config validation: rms_norm_eps (0) must be positive");
    let e = check(|c| c.rope_theta_bits = (-1.0f32).to_bits());
    assert_eq!(e.message("-1"), "Config validation: rope_theta (-1) must be positive");
    assert_eq!(ConfigError::NoHeads.message(""), "Config validation: n_heads is 0");
}

#[test]
fn a_model_is_loaded_with_its_weights() {
    let mut b = small_model();
    b.string("tokenizer.chat_template", "<|im_start|>");
    b.tensor("blk.0.attn_q.weight", &[8, 16], 0, &[0u8; 512]);
    b.tensor("output_norm.weight", &[8], 0, &[0u8; 32]);
    b.tensor("blk.0.attn_norm.weight", &[8], 15, &[0u8; 292]);
    b.tensor("output.weight", &[8, 4], 0, &[0u8; 128]);
    let bytes = b.build(3);
    let f = GgufFile::parse(&bytes).ok().unwrap();
    let m = LoadedModel::from_gguf(&f).ok().unwrap();
    // Sixteen query rows in two heads show a width of eight.
    assert_eq!(m.config.head_dim, 8);
    assert_eq!(m.head, Weight::Output);
    assert!(m.weights.addressable);
    assert!(m.weights.norms.contains_key("output_norm.weight"));
    // A normalisation weight that cannot be expanded is not readable.
    assert!(!m.weights.norms.contains_key("blk.0.attn_norm.weight"));
    assert_eq!(m.weights.tensors.get("output.weight").unwrap().data.len(), 128);
    assert_eq!(m.tokenizer.template_kind, TemplateKind::ChatML);
    assert_eq!(m.tokenizer.vocab.len(), 4);
}

#[test]
fn each_loading_error_has_its_input() {
    let load = |b: &Builder| {
        let bytes = b.build(3);
        let f = GgufFile::parse(&bytes).ok().unwrap();
        LoadedModel::from_gguf(&f).err().unwrap()
    };
    assert!(matches!(load(&Builder::new()), LoadError::Config(_)));
    let mut b = Builder::new();
    b.string("general.architecture", "llama");
    b.word("llama.embedding_length", 8);
    b.word("llama.block_count", 0);
    b.word("llama.attention.head_count", 2);
    b.word("llama.vocab_size", 4);
    assert!(matches!(load(&b), LoadError::Invalid(ConfigError::NoLayers)));
    let mut b = Builder::new();
    b.string("general.architecture", "llama");
    b.word("llama.embedding_length", 8);
    b.word("llama.block_count", 1);
    b.word("llama.attention.head_count", 2);
    b.word("llama.vocab_size", 4);
    assert!(matches!(load(&b), LoadError::Tokenizer(_)));
}

#[test]
fn heads_are_as_wide_as_the_weights_show() {
    assert_eq!(resolve_head_dim(Some(16), 2, 4), 8);
    assert_eq!(resolve_head_dim(Some(15), 2, 4), 4);
    assert_eq!(resolve_head_dim(None, 2, 4), 4);
}

#[test]
fn layers_are_placed_by_strategy() {
    assert_eq!(place_layers(LoadStrategy::GpuFull, true, 7), (7, LoadStrategy::GpuFull));
    assert_eq!(place_layers(LoadStrategy::CpuOffload, true, 7), (7, LoadStrategy::GpuFull));
    assert_eq!(place_layers(LoadStrategy::LayerSplit(3), true, 7), (3, LoadStrategy::LayerSplit(3)));
    assert_eq!(place_layers(LoadStrategy::GpuFull, false, 7), (0, LoadStrategy::CpuOnly));
    assert!(!wants_device(LoadStrategy::CpuOnly));
    let s = shape_of(&valid_config());
    assert_eq!(device_cache_size(&s), (32, 32 * 4 * 2));
}

#[test]
fn weights_have_their_names() {
    assert_eq!(Weight::AttnQ(3).name(), "blk.3.attn_q.weight");
    assert_eq!(Weight::GateExpert(2, 11).name(), "blk.2.ffn_gate_exps.11.weight");
    assert_eq!(Weight::TokenEmbd.name(), "token_embd.weight");
    assert_eq!(lm_head(true), Weight::Output);
    assert_eq!(lm_head(false), Weight::TokenEmbd);
    assert!(is_norm_tensor("blk.0.ffn_norm.weight", 1));
    assert!(!is_norm_tensor("blk.0.ffn_norm.weight", 2));
    assert!(!is_norm_tensor("blk.0.ffn_up.weight", 1));
}

#[test]
fn different_weights_have_different_names() {
    let all = [
        Weight::TokenEmbd,
        Weight::OutputNorm,
        Weight::Output,
        Weight::AttnNorm(1),
        Weight::AttnQ(1),
        Weight::AttnQ(11),
        Weight::AttnQNorm(1),
        Weight::FfnGate(1),
        Weight::GateInp(1),
        Weight::GateExpert(1, 1),
        Weight::GateExpert(1, 11),
        Weight::GateExpert(11, 1),
    ];
    for (i, a) in all.iter().enumerate() {
        for (j, b) in all.iter().enumerate() {
            assert_eq!(a.name() == b.name(), i == j);
        }
    }
}

fn entry(rows: u64, cols: u64, dtype: GgmlDType) -> TensorEntry {
    TensorEntry {
        data: vec![0u8; rows as usize * dtype.byte_size(cols as usize)],
        dtype,
        shape: vec![cols, rows],
    }
}

fn full_tables(dtype: GgmlDType) -> (StringHashMap<TensorEntry>, StringHashMap<bool>) {
    let mut tensors = StringHashMap::new();
    let mut norms = StringHashMap::new();
    let mut put = |w: Weight, rows: u64, cols: u64| tensors.insert(w.name(), entry(rows, cols, dtype));
    put(Weight::TokenEmbd, 4, 8);
    put(Weight::AttnQ(0), 8, 8);
    put(Weight::AttnK(0), 4, 8);
    put(Weight::AttnV(0), 4, 8);
    put(Weight::AttnOutput(0), 8, 8);
    put(Weight::FfnGate(0), 16, 8);
    put(Weight::FfnUp(0), 16, 8);
    put(Weight::FfnDown(0), 8, 16);
    norms.insert(Weight::AttnNorm(0).name(), true);
    norms.insert(Weight::FfnNorm(0).name(), true);
    norms.insert(Weight::OutputNorm.name(), true);
    (tensors, norms)
}

#[test]
fn embeddings_are_cut_to_their_row() {
    let e = entry(3, 8, GgmlDType::F32);
    assert_eq!(e.embedded_cols(2, 4), Some(4));
    assert_eq!(e.embedded_cols(2, 9), Some(8));
    assert_eq!(e.embedded_cols(3, 4), None);
    assert!(attends_on_device(1, 2, true, false));
    assert!(!attends_on_device(2, 2, true, false));
    assert!(!attends_on_device(1, 2, true, true));
}

#[test]
fn rows_of_a_tensor_lie_side_by_side() {
    let mut t = entry(3, 32, GgmlDType::Q8_0);
    for (i, b) in t.data.iter_mut().enumerate() {
        *b = i as u8;
    }
    assert_eq!((t.n_rows(), t.n_cols()), (3, 32));
    assert_eq!(t.row_data(1)[0], 34);
    assert_eq!(t.row_data(2).len(), 34);
    assert!(t.can_batch());
}

#[test]
fn products_are_planned_or_refused() {
    let (tensors, _) = full_tables(GgmlDType::F32);
    let q = Weight::AttnQ(0).name();
    let k = Weight::AttnK(0).name();
    let v = Weight::AttnV(0).name();
    let p = plan_matmul(&tensors, &q, 8).unwrap();
    assert_eq!((p.n_rows, p.n_cols, p.row_bytes, p.path), (8, 8, 32, MatmulPath::Dense));
    assert_eq!(plan_matmul(&tensors, "x", 8).err().unwrap(), "Tensor not found: x");
    assert_eq!(
        plan_matmul(&tensors, &q, 9).err().unwrap(),
        "Matmul dim mismatch: blk.0.attn_q.weight cols=8 x.len=9"
    );
    assert_eq!(plan_fused2(&tensors, &q, &k, 8), Ok(FusedPlan::Separate));
    assert_eq!(plan_fused_qkv(&tensors, &q, &k, &v, 8), Ok(FusedPlan::Separate));
    assert_eq!(
        plan_fused_qkv(&tensors, &q, &k, &v, 7).err().unwrap(),
        "QKV fused dim mismatch: cols 8 8 8 x.len=7"
    );
    assert_eq!(plan_batch(&tensors, &q, 8), Ok(BatchPlan::EachToken { n_rows: 8, n_cols: 8 }));
    let mut binary = StringHashMap::new();
    binary.insert("a".to_string(), entry(2, 128, GgmlDType::Q1_0));
    binary.insert("b".to_string(), entry(3, 128, GgmlDType::Q1_0));
    binary.insert("c".to_string(), entry(3, 128, GgmlDType::Q8_0));
    binary.insert("g".to_string(), entry(2, 128, GgmlDType::Q1_0_G128));
    binary.insert("h".to_string(), entry(3, 128, GgmlDType::Q1_0_G128));
    assert_eq!(
        plan_fused2(&binary, "g", "h", 128),
        Ok(FusedPlan::Pool { rows_a: 2, rows_b: 3, rows_c: 0, n_cols: 128, row_bytes: 18 })
    );
    assert_eq!(plan_fused2(&binary, "a", "b", 128), Ok(FusedPlan::Separate));
    assert_eq!(plan_fused2(&binary, "g", "c", 128), Ok(FusedPlan::Separate));
    assert_eq!(plan_fused2(&binary, "c", "g", 128), Ok(FusedPlan::Separate));
    assert_eq!(
        plan_fused2(&binary, "g", "h", 64).err().unwrap(),
        "Matmul fused2 dim mismatch: g cols=128 h cols=128 x.len=64"
    );
    assert_eq!(plan_fused2(&binary, "g", "x", 128).err().unwrap(), "Tensor not found: x");
    assert_eq!(
        plan_fused_qkv(&binary, "a", "g", "b", 128),
        Ok(FusedPlan::Pool { rows_a: 2, rows_b: 2, rows_c: 3, n_cols: 128, row_bytes: 18 })
    );
    assert_eq!(
        plan_fused_qkv(&binary, "a", "g", "c", 128).err().unwrap(),
        "QKV fused dtype mismatch"
    );
    assert_eq!(
        plan_batch(&binary, "a", 128),
        Ok(BatchPlan::Pool { kernel: DotKernel::Q1_0, n_rows: 2, n_cols: 128, row_bytes: 18, q8_size: 136 })
    );
    assert_eq!(matmul_path(GgmlDType::Q6_K), MatmulPath::Rows(DotKernel::Q6K));
    assert_eq!(
        device_path(GgmlDType::Q8_0, true, true, false),
        DevicePath::Fused(QuantKind::Q8_0)
    );
    assert_eq!(device_path(GgmlDType::Q8_0, true, false, false), DevicePath::Skip);
    assert_eq!(device_path(GgmlDType::F32, false, true, true), DevicePath::Skip);
}

#[test]
fn a_pass_runs_from_embedding_to_logits() {
    let (tensors, norms) = full_tables(GgmlDType::F32);
    let s = shape_of(&valid_config());
    let steps = plan_pass(s, &tensors, &norms, PassKind::Single, &[3], 0, 1, Weight::TokenEmbd);
    assert_eq!(steps[0], Step::CheckCancel);
    assert!(steps.iter().any(|x| matches!(x, Step::Embed { token: 3, .. })));
    assert!(steps.iter().any(|x| matches!(x, Step::Attend { layer: 0, seq_len: 1 })));
    assert!(!steps.iter().any(|x| matches!(x, Step::Fail(_))));
    let batch = plan_pass(s, &tensors, &norms, PassKind::Batch, &[1, 2], 0, 0, Weight::TokenEmbd);
    assert!(batch.iter().any(|x| matches!(x, Step::AttendBatch { layer: 0, tokens: 2 })));
    let encode = plan_pass(s, &tensors, &norms, PassKind::Encode, &[1, 2], 0, 0, Weight::TokenEmbd);
    assert!(encode.iter().any(|x| matches!(x, Step::Average { tokens: 2 })));
}

#[test]
fn a_pass_without_a_weight_fails_at_its_last_step() {
    let (mut tensors, mut norms) = full_tables(GgmlDType::F32);
    let s = shape_of(&valid_config());
    norms.remove(&Weight::FfnNorm(0).name());
    let steps = plan_pass(s, &tensors, &norms, PassKind::Single, &[3], 0, 1, Weight::TokenEmbd);
    assert_eq!(*steps.last().unwrap(), Step::Fail(Fault::MissingNorm(Weight::FfnNorm(0))));
    assert_eq!(
        Fault::MissingNorm(Weight::FfnNorm(0)).message(),
        "Norm weight not in cache: blk.0.ffn_norm.weight"
    );
    tensors.remove(&Weight::TokenEmbd.name());
    let steps = plan_pass(s, &tensors, &norms, PassKind::Single, &[3], 0, 1, Weight::TokenEmbd);
    assert_eq!(*steps.last().unwrap(), Step::Fail(Fault::MissingEmbedding));
    assert_eq!(Fault::MissingEmbedding.message(), "Missing token_embd.weight");
    let none = plan_pass(s, &tensors, &norms, PassKind::Encode, &[], 0, 0, Weight::TokenEmbd);
    assert_eq!(none, vec![Step::Fail(Fault::NoTokens)]);
    assert_eq!(Fault::NoTokens.message(), "Empty token sequence");
}

#[test]
fn a_pass_on_the_device_needs_a_device() {
    let (tensors, norms) = full_tables(GgmlDType::Q8_0);
    let s = shape_of(&valid_config());
    let p = DevicePlanner { shape: s, tensors: &tensors, norms: &norms };
    let steps = p.plan(false, 3, 0, 32, Weight::TokenEmbd);
    assert_eq!(*steps.last().unwrap(), DeviceStep::Fail(DeviceFault::NoDevice));
    assert_eq!(DeviceFault::NoDevice.message(), "GPU not available");
    assert!(has_device_norms(&s, &norms));
    assert_eq!(
        DeviceFault::FailedAttention(4).message(),
        "flash_attention failed layer 4"
    );
    assert_eq!(
        DeviceFault::Missing(Weight::AttnQ(1)).message(),
        "Missing blk.1.attn_q.weight"
    );
}

#[test]
fn a_pass_on_the_device_ends_at_a_missing_weight() {
    let (mut tensors, norms) = full_tables(GgmlDType::Q8_0);
    let s = shape_of(&valid_config());
    let whole = DevicePlanner { shape: s, tensors: &tensors, norms: &norms }
        .plan(true, 3, 0, 32, Weight::TokenEmbd);
    assert_eq!(whole[1], DeviceStep::Embed { token: 3 });
    assert_eq!(*whole.last().unwrap(), DeviceStep::ReadLogits { n: s.vocab });
    assert!(!whole.iter().any(|x| matches!(x, DeviceStep::Fail(_))));
    for step in &whole {
        if let DeviceStep::Matmul { weight, .. } = step {
            assert!(tensors.contains_key(&weight.name()));
        }
    }
    tensors.remove(&Weight::FfnUp(0).name());
    let cut = DevicePlanner { shape: s, tensors: &tensors, norms: &norms }
        .plan(true, 3, 0, 32, Weight::TokenEmbd);
    let n = cut.len();
    assert_eq!(cut[n - 1], DeviceStep::Fail(DeviceFault::Missing(Weight::FfnUp(0))));
    assert_eq!(cut[..n - 1], whole[..n - 1]);
}

#[test]
fn weights_are_handed_over_in_a_form_the_device_takes() {
    assert_eq!(upload_form(GgmlDType::F32, false), UploadForm::Singles);
    assert_eq!(upload_form(GgmlDType::F16, true), UploadForm::PackedHalves);
    assert_eq!(upload_form(GgmlDType::F16, false), UploadForm::WidenedHalves);
    assert_eq!(upload_form(GgmlDType::BF16, true), UploadForm::WidenedBrains);
    assert_eq!(upload_form(GgmlDType::Q8_0, true), UploadForm::Blocks);
    assert!(device_takes_weight(GgmlDType::F16, false));
    assert!(!device_takes_weight(GgmlDType::BF16, true));
}

#[test]
fn timers_start_again_at_zero() {
    let mut t = ForwardTimers::default();
    t.total_us = 5;
    t.rope_us = 2;
    t.reset();
    assert_eq!(t, ForwardTimers::default());
    assert_eq!((t.total_us, t.rope_us), (0, 0));
}
