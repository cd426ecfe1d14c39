//! What a model file gives a language model: configuration, tokenizer, weights.
use vstd::hash_map::StringHashMap;
use vstd::prelude::*;

use crate::gguf::file::GgufFile;
use crate::gguf::ggml::{byte_size_of, GgmlDType};
use crate::gguf::tensor::{saturating_product, TensorInfo};
use crate::llm::config::{
    config_fault, config_of_file, first_fault, ConfigError, ModelConfig,
};
use crate::llm::matmul::rows_addressable;
use crate::llm::shape::{head_width, resolve_head_dim};
use crate::llm::tensor::TensorEntry;
use crate::llm::weight::{is_norm_name, is_norm_tensor, lm_head, weight_name, Weight};
use crate::quant::expand::{expand_form, form_of};
use crate::tokenizer::encoder::Tokenizer;
use crate::tokenizer::load::tokenizer_of_file;
use crate::tokenizer::template::array_under;

verus! {

/// What an entry holds.
pub struct EntryModel {
    pub data: Seq<u8>,
    pub dtype: GgmlDType,
    pub shape: Seq<u64>,
}

impl View for TensorEntry {
    type V = EntryModel;

    open spec fn view(&self) -> EntryModel {
        EntryModel { data: self.data@, dtype: self.dtype, shape: self.shape@ }
    }
}

/// The entry of a tensor of a file.
pub open spec fn entry_of(f: GgufFile, info: TensorInfo) -> EntryModel {
    let start = f.data_offset + info.offset;
    EntryModel {
        data: f.bytes().subrange(
            start,
            start + byte_size_of(info.dtype, saturating_product(info.shape@)),
        ),
        dtype: info.dtype,
        shape: info.shape@,
    }
}

/// The entries of the first `n` tensors; a later one replaces an earlier one of its name.
pub open spec fn entries_before(f: GgufFile, n: nat) -> Map<Seq<char>, EntryModel>
    decreases n,
{
    if n == 0 {
        Map::empty()
    } else {
        let info = f.tensors@[n - 1];
        entries_before(f, (n - 1) as nat).insert(info.name@, entry_of(f, info))
    }
}

/// A normalisation weight whose values can be read.
pub open spec fn is_readable_norm(info: TensorInfo) -> bool {
    is_norm_name(info.name@) && info.shape@.len() == 1 && form_of(info.dtype) is Ok
}

/// The names of the readable normalisation weights among the first `n` tensors.
pub open spec fn norms_before(f: GgufFile, n: nat) -> Set<Seq<char>>
    decreases n,
{
    if n == 0 {
        Set::empty()
    } else {
        let info = f.tensors@[n - 1];
        let before = norms_before(f, (n - 1) as nat);
        if is_readable_norm(info) {
            before.insert(info.name@)
        } else {
            before.remove(info.name@)
        }
    }
}

/// The bytes of a row of the tensor can be counted.
pub open spec fn row_countable(info: TensorInfo) -> bool {
    byte_size_of(
        info.dtype,
        if info.shape@.len() > 0 {
            (info.shape@[0] as usize) as nat
        } else {
            0
        },
    ) <= usize::MAX
}

fn copy_bytes(s: &[u8]) -> (r: Vec<u8>)
    ensures
        r@ == s@,
{
    let mut out: Vec<u8> = Vec::new();
    let mut i: usize = 0;
    while i < s.len()
        invariant
            i <= s@.len(),
            out@ == s@.take(i as int),
        decreases s@.len() - i,
    {
        out.push(s[i]);
        i += 1;
        assert(out@ =~= s@.take(i as int));
    }
    assert(out@ =~= s@);
    out
}

fn copy_shape(s: &Vec<u64>) -> (r: Vec<u64>)
    ensures
        r@ == s@,
{
    let mut out: Vec<u64> = Vec::new();
    let mut i: usize = 0;
    while i < s.len()
        invariant
            i <= s@.len(),
            out@ == s@.take(i as int),
        decreases s@.len() - i,
    {
        out.push(s[i]);
        i += 1;
        assert(out@ =~= s@.take(i as int));
    }
    assert(out@ =~= s@);
    out
}

/// The weights of a file.
pub struct WeightTable {
    pub tensors: StringHashMap<TensorEntry>,
    /// The normalisation weights whose values can be read.
    pub norms: StringHashMap<bool>,
    /// Whether the rows of every tensor can be addressed.
    pub addressable: bool,
}

impl WeightTable {
    /// The table holds the first `n` tensors of a file.
    pub open spec fn holds(&self, f: GgufFile, n: nat) -> bool {
        &&& self.tensors@.map_values(|t: TensorEntry| t@) == entries_before(f, n)
        &&& self.norms@.dom() == norms_before(f, n)
        &&& self.addressable == (forall|i: int|
            0 <= i < n ==> row_countable(#[trigger] f.tensors@[i]))
        &&& self.addressable ==> rows_addressable(self.tensors@)
    }

    /// Copies the tensors of a file.  Where the bytes of one lie outside the file, says which.
    pub fn of_file(gguf: &GgufFile) -> (r: Result<WeightTable, usize>)
        ensures
            match r {
                Ok(w) => (forall|i: int|
                    0 <= i < gguf.tensors@.len() ==> gguf.holds(#[trigger] gguf.tensors@[i]))
                    && w.holds(*gguf, gguf.tensors@.len()),
                Err(k) => k < gguf.tensors@.len() && !gguf.holds(gguf.tensors@[k as int]) && (
                forall|i: int| 0 <= i < k ==> gguf.holds(#[trigger] gguf.tensors@[i])),
            },
    {
        let mut w = WeightTable {
            tensors: StringHashMap::new(),
            norms: StringHashMap::new(),
            addressable: true,
        };
        let mut i: usize = 0;
        proof {
            assert(w.tensors@.map_values(|t: TensorEntry| t@) =~= entries_before(*gguf, 0));
            assert(w.norms@.dom() =~= norms_before(*gguf, 0));
        }
        while i < gguf.tensors.len()
            invariant
                i <= gguf.tensors@.len(),
                forall|k: int| 0 <= k < i ==> gguf.holds(#[trigger] gguf.tensors@[k]),
                w.holds(*gguf, i as nat),
            decreases gguf.tensors@.len() - i,
        {
            let info = &gguf.tensors[i];
            if !gguf.has_data(info) {
                return Err(i);
            }
            let name = info.name.as_str();
            let cols: usize = if info.shape.len() > 0 {
                #[verifier::truncate]
                (info.shape[0] as usize)
            } else {
                0
            };
            let entry = TensorEntry {
                data: copy_bytes(gguf.tensor_data(info)),
                dtype: info.dtype,
                shape: copy_shape(&info.shape),
            };
            let ghost (table, names, ok) = (w.tensors@, w.norms@, w.addressable);
            let ghost added = entry;
            if info.dtype.checked_byte_size(cols).is_none() {
                w.addressable = false;
            }
            if is_norm_tensor(name, info.shape.len()) && expand_form(info.dtype).is_ok() {
                w.norms.insert(name.to_owned(), true);
            } else {
                w.norms.remove(name);
            }
            w.tensors.insert(name.to_owned(), entry);
            proof {
                let n = (i + 1) as nat;
                assert(w.tensors@ == table.insert(info.name@, added));
                assert(added@ == entry_of(*gguf, *info));
                assert(w.tensors@.map_values(|t: TensorEntry| t@) =~= entries_before(*gguf, n));
                assert(w.norms@.dom() =~= norms_before(*gguf, n));
                if w.addressable {
                    assert(row_countable(*info));
                    assert forall|k: int| 0 <= k < n implies row_countable(
                        #[trigger] gguf.tensors@[k],
                    ) by {}
                    assert(added.row_size() <= usize::MAX);
                } else {
                    assert(!row_countable(gguf.tensors@[i as int]) || !ok);
                }
            }
            i += 1;
        }
        Ok(w)
    }
}

/// Why a model could not be loaded.
#[derive(Debug)]
pub enum LoadError {
    Config(String),
    Invalid(ConfigError),
    Tokenizer(String),
    /// The bytes of this tensor lie outside the file.
    OutOfFile(usize),
}

/// What a model file gives a language model.
pub struct LoadedModel {
    pub config: ModelConfig,
    pub tokenizer: Tokenizer,
    pub weights: WeightTable,
    pub head: Weight,
}

/// The rows of the first layer's query weights.
pub open spec fn query_rows(tensors: Map<Seq<char>, TensorEntry>) -> Option<usize> {
    let name = weight_name(Weight::AttnQ(0));
    if tensors.contains_key(name) {
        Some(tensors[name].rows())
    } else {
        None
    }
}

/// A configuration with the width of its heads as the weights show it.
pub open spec fn with_head_dim(c: ModelConfig, tensors: Map<Seq<char>, TensorEntry>) -> ModelConfig {
    ModelConfig {
        head_dim: head_width(
            query_rows(tensors),
            c.n_heads as usize,
            c.head_dim as usize,
        ) as u32,
        ..c
    }
}

impl LoadedModel {
    /// Reads configuration, tokenizer and weights, in this order, and stops at what is wrong first.
    pub fn from_gguf(gguf: &GgufFile) -> (r: Result<LoadedModel, LoadError>)
        ensures
            match r {
                Err(LoadError::Config(e)) => config_fault(*gguf) == Some(e@),
                Err(LoadError::Invalid(e)) => config_fault(*gguf) is None && exists|c: ModelConfig|
                    #[trigger] config_of_file(c, *gguf) && first_fault(c) == Some(e),
                Err(LoadError::Tokenizer(e)) => config_fault(*gguf) is None && array_under(
                    *gguf,
                    "tokenizer.ggml.tokens"@,
                ) is None && e@ == "Missing tokenizer.ggml.tokens"@ && exists|c: ModelConfig|
                    #[trigger] config_of_file(c, *gguf) && first_fault(c) is None,
                Err(LoadError::OutOfFile(k)) => config_fault(*gguf) is None && array_under(
                    *gguf,
                    "tokenizer.ggml.tokens"@,
                ) is Some && k < gguf.tensors@.len() && !gguf.holds(gguf.tensors@[k as int]) && (
                forall|i: int| 0 <= i < k ==> gguf.holds(#[trigger] gguf.tensors@[i]))
                    && exists|c: ModelConfig| #[trigger]
                    config_of_file(c, *gguf) && first_fault(c) is None,
                Ok(m) => config_fault(*gguf) is None && array_under(
                    *gguf,
                    "tokenizer.ggml.tokens"@,
                ) is Some && m.tokenizer.wf() && tokenizer_of_file(m.tokenizer@, *gguf) && (
                forall|i: int|
                    0 <= i < gguf.tensors@.len() ==> gguf.holds(#[trigger] gguf.tensors@[i]))
                    && m.weights.holds(*gguf, gguf.tensors@.len()) && (exists|c: ModelConfig|
                    #[trigger] config_of_file(c, *gguf) && first_fault(c) is None && m.config
                        == with_head_dim(c, m.weights.tensors@)) && m.head == if
                m.weights.tensors@.contains_key(weight_name(Weight::Output)) {
                    Weight::Output
                } else {
                    Weight::TokenEmbd
                },
            },
    {
        let mut config = match ModelConfig::from_gguf(gguf) {
            Ok(c) => c,
            Err(e) => return Err(LoadError::Config(e)),
        };
        let ghost stated = config;
        match config.validate() {
            Ok(()) => {},
            Err(e) => return Err(LoadError::Invalid(e)),
        }
        let tokenizer = match Tokenizer::from_gguf(gguf) {
            Ok(t) => t,
            Err(e) => return Err(LoadError::Tokenizer(e)),
        };
        let weights = match WeightTable::of_file(gguf) {
            Ok(w) => w,
            Err(k) => return Err(LoadError::OutOfFile(k)),
        };
        let query_name = Weight::AttnQ(0).name();
        let rows: Option<usize> = match weights.tensors.get(query_name.as_str()) {
            Some(t) => Some(t.n_rows()),
            None => None,
        };
        let width: usize = resolve_head_dim(
            rows,
            config.n_heads as usize,
            config.head_dim as usize,
        );
        config.head_dim = #[verifier::truncate]
        (width as u32);
        let output_name = Weight::Output.name();
        let head = lm_head(weights.tensors.contains_key(output_name.as_str()));
        assert(config == with_head_dim(stated, weights.tensors@));
        Ok(LoadedModel { config, tokenizer, weights, head })
    }
}

} // verus!
