//! The header of a GGUF file: version, metadata, tensor table, start of the tensor data.
use vstd::hash_map::StringHashMap;
use vstd::prelude::*;

use crate::gguf::ggml::{byte_size_of, dtype_of_id, GgmlDType};
use crate::gguf::meta::{models_of, MetaModel, MetaValue};
use crate::gguf::reader::{
    le32, le64, left, read_meta_value, read_string, read_u32, read_u64, take_text, take_u32,
    take_u64, take_value, take_values,
};
use crate::gguf::tensor::{saturating_product, TensorInfo, TensorModel};
use crate::text::{concat2, concat3, decimal, decimal_string, push_decimal, same_str};

verus! {

/// Why a file could not be read.
#[derive(Debug)]
pub enum GgufError {
    Io(String),
    InvalidMagic([u8; 4]),
    UnsupportedVersion(u32),
    FileTooSmall,
    UnexpectedEof(usize),
    UnknownDtype(u32, String),
    Other(String),
}

/// What an error says.
pub enum GgufFault {
    Io(Seq<char>),
    InvalidMagic(Seq<u8>),
    UnsupportedVersion(u32),
    FileTooSmall,
    UnexpectedEof(int),
    UnknownDtype(u32, Seq<char>),
    Other(Seq<char>),
}

impl View for GgufError {
    type V = GgufFault;

    open spec fn view(&self) -> GgufFault {
        match *self {
            GgufError::Io(s) => GgufFault::Io(s@),
            GgufError::InvalidMagic(m) => GgufFault::InvalidMagic(m@),
            GgufError::UnsupportedVersion(v) => GgufFault::UnsupportedVersion(v),
            GgufError::FileTooSmall => GgufFault::FileTooSmall,
            GgufError::UnexpectedEof(p) => GgufFault::UnexpectedEof(p as int),
            GgufError::UnknownDtype(id, name) => GgufFault::UnknownDtype(id, name@),
            GgufError::Other(s) => GgufFault::Other(s@),
        }
    }
}

/// The text of an error.
pub open spec fn fault_text(f: GgufFault) -> Seq<char> {
    match f {
        GgufFault::Io(s) => "IO error: "@ + s,
        GgufFault::InvalidMagic(m) => "Invalid GGUF magic: expected GGUF, got ["@ + decimal(
            m[0] as nat,
        ) + ", "@ + decimal(m[1] as nat) + ", "@ + decimal(m[2] as nat) + ", "@ + decimal(
            m[3] as nat,
        ) + "]"@,
        GgufFault::UnsupportedVersion(v) => "Unsupported GGUF version: "@ + decimal(v as nat),
        GgufFault::FileTooSmall => "File too small"@,
        GgufFault::UnexpectedEof(p) => "Unexpected end of file at offset "@ + decimal(p as nat),
        GgufFault::UnknownDtype(id, name) => "Unknown dtype id "@ + decimal(id as nat)
            + " for tensor "@ + name,
        GgufFault::Other(s) => s,
    }
}

impl GgufError {
    /// The text of the error.
    pub fn message(&self) -> (r: String)
        ensures
            r@ == fault_text(self@),
    {
        match self {
            GgufError::Io(s) => concat2("IO error: ", s.as_str()),
            GgufError::InvalidMagic(m) => {
                let mut out = "Invalid GGUF magic: expected GGUF, got [".to_owned();
                push_decimal(&mut out, m[0] as u64);
                out.append(", ");
                push_decimal(&mut out, m[1] as u64);
                out.append(", ");
                push_decimal(&mut out, m[2] as u64);
                out.append(", ");
                push_decimal(&mut out, m[3] as u64);
                out.append("]");
                out
            },
            GgufError::UnsupportedVersion(v) => {
                let n = decimal_string(*v as u64);
                concat2("Unsupported GGUF version: ", n.as_str())
            },
            GgufError::FileTooSmall => "File too small".to_owned(),
            GgufError::UnexpectedEof(p) => {
                let n = decimal_string(*p as u64);
                concat2("Unexpected end of file at offset ", n.as_str())
            },
            GgufError::UnknownDtype(id, name) => {
                let n = decimal_string(*id as u64);
                let mut out = concat3("Unknown dtype id ", n.as_str(), " for tensor ");
                out.append(name.as_str());
                out
            },
            GgufError::Other(s) => s.clone(),
        }
    }
}

/// What the header of a file says.
pub struct GgufModel {
    pub version: u32,
    pub metadata: Map<Seq<char>, MetaModel>,
    pub tensors: Seq<TensorModel>,
    pub data_offset: int,
    pub alignment: nat,
}

/// `n` metadata entries on top of those in `acc`; a later entry replaces an earlier one with the
/// same key.
pub open spec fn take_entries(
    d: Seq<u8>,
    p: int,
    n: nat,
    acc: Map<Seq<char>, MetaModel>,
) -> Result<(Map<Seq<char>, MetaModel>, int), int>
    decreases n,
{
    if n == 0 {
        Ok((acc, p))
    } else {
        match take_text(d, p) {
            Err(e) => Err(e),
            Ok((key, q)) => match take_u32(d, q) {
                Err(e) => Err(e),
                Ok((type_id, r)) => match take_value(d, r, type_id) {
                    Err(e) => Err(e),
                    Ok((v, s)) => take_entries(d, s, (n - 1) as nat, acc.insert(key, v)),
                },
            },
        }
    }
}

/// `n` dimensions.
pub open spec fn take_dims(d: Seq<u8>, p: int, n: nat) -> Result<(Seq<u64>, int), int>
    decreases n,
{
    if n == 0 {
        Ok((Seq::empty(), p))
    } else {
        match take_u64(d, p) {
            Err(e) => Err(e),
            Ok((x, q)) => match take_dims(d, q, (n - 1) as nat) {
                Err(e) => Err(e),
                Ok((xs, r)) => Ok((seq![x] + xs, r)),
            },
        }
    }
}

/// One entry of the tensor table.
pub open spec fn take_tensor(d: Seq<u8>, p: int) -> Result<(TensorModel, int), GgufFault> {
    match take_text(d, p) {
        Err(e) => Err(GgufFault::UnexpectedEof(e)),
        Ok((name, q)) => match take_u32(d, q) {
            Err(e) => Err(GgufFault::UnexpectedEof(e)),
            Ok((n_dims, r)) => match take_dims(d, r, n_dims as nat) {
                Err(e) => Err(GgufFault::UnexpectedEof(e)),
                Ok((shape, s)) => match take_u32(d, s) {
                    Err(e) => Err(GgufFault::UnexpectedEof(e)),
                    Ok((dtype_id, t)) => match take_u64(d, t) {
                        Err(e) => Err(GgufFault::UnexpectedEof(e)),
                        Ok((offset, u)) => match dtype_of_id(dtype_id) {
                            None => Err(GgufFault::UnknownDtype(dtype_id, name)),
                            Some(dtype) => Ok(
                                (TensorModel { name, shape, dtype, dtype_id, offset }, u),
                            ),
                        },
                    },
                },
            },
        },
    }
}

/// `n` entries of the tensor table.
pub open spec fn take_tensors(d: Seq<u8>, p: int, n: nat) -> Result<
    (Seq<TensorModel>, int),
    GgufFault,
>
    decreases n,
{
    if n == 0 {
        Ok((Seq::empty(), p))
    } else {
        match take_tensor(d, p) {
            Err(e) => Err(e),
            Ok((t, q)) => match take_tensors(d, q, (n - 1) as nat) {
                Err(e) => Err(e),
                Ok((ts, r)) => Ok((seq![t] + ts, r)),
            },
        }
    }
}

/// The alignment that the metadata asks for.
pub open spec fn alignment_of(m: Map<Seq<char>, MetaModel>) -> nat {
    if m.contains_key("general.alignment"@) {
        match m["general.alignment"@].word() {
            Some(a) => a as nat,
            None => 32,
        }
    } else {
        32
    }
}

/// The smallest multiple of `a` that is not below `p`.
pub open spec fn round_up(p: int, a: int) -> int {
    p + (a - p % a) % a
}

/// What follows the version: counts, metadata, tensor table, data.
pub open spec fn parse_body(d: Seq<u8>, version: u32) -> Result<GgufModel, GgufFault> {
    if !left(d, 8, 8) {
        Err(GgufFault::UnexpectedEof(8))
    } else if !left(d, 16, 8) {
        Err(GgufFault::UnexpectedEof(16))
    } else {
        match take_entries(d, 24, le64(d, 16) as nat, Map::empty()) {
            Err(e) => Err(GgufFault::UnexpectedEof(e)),
            Ok((metadata, p)) => match take_tensors(d, p, le64(d, 8) as nat) {
                Err(e) => Err(e),
                Ok((tensors, q)) => {
                    let alignment = alignment_of(metadata);
                    if version != 3 {
                        Ok(GgufModel { version, metadata, tensors, data_offset: q, alignment })
                    } else if alignment == 0 {
                        Err(GgufFault::Other("Alignment is zero"@))
                    } else {
                        Ok(
                            GgufModel {
                                version,
                                metadata,
                                tensors,
                                data_offset: round_up(q, alignment as int),
                                alignment,
                            },
                        )
                    }
                },
            },
        }
    }
}

/// The header at the start of `d`.
pub open spec fn parse_header(d: Seq<u8>) -> Result<GgufModel, GgufFault> {
    if d.len() < 4 {
        Err(GgufFault::FileTooSmall)
    } else if d.take(4) != seq![0x47u8, 0x47u8, 0x55u8, 0x46u8] {
        Err(GgufFault::InvalidMagic(d.take(4)))
    } else if !left(d, 4, 4) {
        Err(GgufFault::UnexpectedEof(4))
    } else if le32(d, 4) != 2 && le32(d, 4) != 3 {
        Err(GgufFault::UnsupportedVersion(le32(d, 4)))
    } else {
        parse_body(d, le32(d, 4))
    }
}

/// The models of a metadata table.
pub open spec fn metadata_model(m: Map<Seq<char>, MetaValue>) -> Map<Seq<char>, MetaModel> {
    m.map_values(|v: MetaValue| v@)
}

/// The models of a tensor table.
pub open spec fn tensor_models(ts: Seq<TensorInfo>) -> Seq<TensorModel> {
    ts.map_values(|t: TensorInfo| t@)
}

/// A GGUF file in memory: its parsed header and its bytes.
pub struct GgufFile<'a> {
    pub data: &'a [u8],
    pub version: u32,
    pub metadata: StringHashMap<MetaValue>,
    pub tensors: Vec<TensorInfo>,
    pub data_offset: u64,
    pub alignment: u64,
}

impl<'a> View for GgufFile<'a> {
    type V = GgufModel;

    open spec fn view(&self) -> GgufModel {
        GgufModel {
            version: self.version,
            metadata: metadata_model(self.metadata@),
            tensors: tensor_models(self.tensors@),
            data_offset: self.data_offset as int,
            alignment: self.alignment as nat,
        }
    }
}

fn read_dims(data: &[u8], pos: &mut usize, count: u32) -> (r: Result<Vec<u64>, usize>)
    requires
        *old(pos) <= data@.len(),
    ensures
        *final(pos) <= data@.len(),
        match r {
            Ok(v) => take_dims(data@, *old(pos) as int, count as nat) == Ok::<(Seq<u64>, int), int>(
                (v@, *final(pos) as int),
            ),
            Err(e) => take_dims(data@, *old(pos) as int, count as nat) == Err::<
                (Seq<u64>, int),
                int,
            >(e as int),
        },
{
    let mut shape: Vec<u64> = Vec::new();
    let mut i: u32 = 0;
    let ghost whole = take_dims(data@, *pos as int, count as nat);
    proof {
        if whole is Ok {
            assert(shape@ + whole->Ok_0.0 =~= whole->Ok_0.0);
        }
    }
    while i < count
        invariant
            i <= count,
            *pos <= data@.len(),
            whole == take_dims(data@, *old(pos) as int, count as nat),
            whole == match take_dims(data@, *pos as int, (count - i) as nat) {
                Ok((xs, q)) => Ok::<(Seq<u64>, int), int>((shape@ + xs, q)),
                Err(e) => Err(e),
            },
        decreases count - i,
    {
        let ghost done = shape@;
        match read_u64(data, pos) {
            Ok(x) => {
                shape.push(x);
                proof {
                    let rest = take_dims(data@, *pos as int, (count - i - 1) as nat);
                    if rest is Ok {
                        assert(done + (seq![x] + rest->Ok_0.0) =~= shape@ + rest->Ok_0.0);
                    }
                }
            },
            Err(e) => return Err(e),
        }
        i += 1;
    }
    assert(shape@ + Seq::<u64>::empty() =~= shape@);
    Ok(shape)
}

fn read_tensor(data: &[u8], pos: &mut usize) -> (r: Result<TensorInfo, GgufError>)
    requires
        *old(pos) <= data@.len(),
    ensures
        *final(pos) <= data@.len(),
        match r {
            Ok(t) => take_tensor(data@, *old(pos) as int) == Ok::<(TensorModel, int), GgufFault>(
                (t@, *final(pos) as int),
            ),
            Err(e) => take_tensor(data@, *old(pos) as int) == Err::<(TensorModel, int), GgufFault>(
                e@,
            ),
        },
{
    let name = match read_string(data, pos) {
        Ok(x) => x,
        Err(e) => return Err(GgufError::UnexpectedEof(e)),
    };
    let n_dims: u32 = match read_u32(data, pos) {
        Ok(x) => x,
        Err(e) => return Err(GgufError::UnexpectedEof(e)),
    };
    let shape = match read_dims(data, pos, n_dims) {
        Ok(x) => x,
        Err(e) => return Err(GgufError::UnexpectedEof(e)),
    };
    let dtype_id: u32 = match read_u32(data, pos) {
        Ok(x) => x,
        Err(e) => return Err(GgufError::UnexpectedEof(e)),
    };
    let offset: u64 = match read_u64(data, pos) {
        Ok(x) => x,
        Err(e) => return Err(GgufError::UnexpectedEof(e)),
    };
    match GgmlDType::from_id(dtype_id) {
        None => Err(GgufError::UnknownDtype(dtype_id, name)),
        Some(dtype) => Ok(TensorInfo { name, shape, dtype, dtype_id, offset }),
    }
}

fn read_tensors(data: &[u8], pos: &mut usize, count: u64) -> (r: Result<Vec<TensorInfo>, GgufError>)
    requires
        *old(pos) <= data@.len(),
    ensures
        *final(pos) <= data@.len(),
        match r {
            Ok(v) => take_tensors(data@, *old(pos) as int, count as nat) == Ok::<
                (Seq<TensorModel>, int),
                GgufFault,
            >((tensor_models(v@), *final(pos) as int)),
            Err(e) => take_tensors(data@, *old(pos) as int, count as nat) == Err::<
                (Seq<TensorModel>, int),
                GgufFault,
            >(e@),
        },
{
    let mut tensors: Vec<TensorInfo> = Vec::new();
    let mut i: u64 = 0;
    let ghost whole = take_tensors(data@, *pos as int, count as nat);
    proof {
        if whole is Ok {
            assert(tensor_models(tensors@) + whole->Ok_0.0 =~= whole->Ok_0.0);
        }
    }
    while i < count
        invariant
            i <= count,
            *pos <= data@.len(),
            whole == take_tensors(data@, *old(pos) as int, count as nat),
            whole == match take_tensors(data@, *pos as int, (count - i) as nat) {
                Ok((xs, q)) => Ok::<(Seq<TensorModel>, int), GgufFault>(
                    (tensor_models(tensors@) + xs, q),
                ),
                Err(e) => Err(e),
            },
        decreases count - i,
    {
        let ghost done = tensor_models(tensors@);
        match read_tensor(data, pos) {
            Ok(x) => {
                tensors.push(x);
                proof {
                    assert(tensor_models(tensors@) =~= done.push(x@));
                    let rest = take_tensors(data@, *pos as int, (count - i - 1) as nat);
                    if rest is Ok {
                        assert(done + (seq![x@] + rest->Ok_0.0) =~= tensor_models(tensors@)
                            + rest->Ok_0.0);
                    }
                }
            },
            Err(e) => return Err(e),
        }
        i += 1;
    }
    assert(tensor_models(tensors@) + Seq::<TensorModel>::empty() =~= tensor_models(tensors@));
    Ok(tensors)
}

fn read_entries(data: &[u8], pos: &mut usize, count: u64) -> (r: Result<
    StringHashMap<MetaValue>,
    usize,
>)
    requires
        *old(pos) <= data@.len(),
    ensures
        *final(pos) <= data@.len(),
        match r {
            Ok(m) => take_entries(data@, *old(pos) as int, count as nat, Map::empty()) == Ok::<
                (Map<Seq<char>, MetaModel>, int),
                int,
            >((metadata_model(m@), *final(pos) as int)),
            Err(e) => take_entries(data@, *old(pos) as int, count as nat, Map::empty()) == Err::<
                (Map<Seq<char>, MetaModel>, int),
                int,
            >(e as int),
        },
{
    let mut metadata: StringHashMap<MetaValue> = StringHashMap::new();
    let mut i: u64 = 0;
    let ghost whole = take_entries(data@, *pos as int, count as nat, Map::empty());
    assert(metadata_model(metadata@) =~= Map::empty());
    while i < count
        invariant
            i <= count,
            *pos <= data@.len(),
            whole == take_entries(data@, *old(pos) as int, count as nat, Map::empty()),
            whole == take_entries(
                data@,
                *pos as int,
                (count - i) as nat,
                metadata_model(metadata@),
            ),
        decreases count - i,
    {
        let key = match read_string(data, pos) {
            Ok(x) => x,
            Err(e) => return Err(e),
        };
        let type_id: u32 = match read_u32(data, pos) {
            Ok(x) => x,
            Err(e) => return Err(e),
        };
        let value = match read_meta_value(data, pos, type_id) {
            Ok(x) => x,
            Err(e) => return Err(e),
        };
        let ghost before = metadata@;
        metadata.insert(key, value);
        proof {
            assert(metadata_model(metadata@) =~= metadata_model(before).insert(key@, value@));
        }
        i += 1;
    }
    Ok(metadata)
}

impl<'a> GgufFile<'a> {
    /// The bytes of the file.
    pub open spec fn bytes(&self) -> Seq<u8> {
        self.data@
    }

    /// Reads the header at the start of `data`.  No slice is longer than `isize::MAX` bytes.
    pub fn parse(data: &'a [u8]) -> (r: Result<GgufFile<'a>, GgufError>)
        requires
            data@.len() <= isize::MAX,
        ensures
            match r {
                Ok(f) => parse_header(data@) == Ok::<GgufModel, GgufFault>(f@) && f.bytes()
                    == data@,
                Err(e) => parse_header(data@) == Err::<GgufModel, GgufFault>(e@),
            },
    {
        if data.len() < 4 {
            return Err(GgufError::FileTooSmall);
        }
        if data[0] != 0x47 || data[1] != 0x47 || data[2] != 0x55 || data[3] != 0x46 {
            let magic: [u8; 4] = [data[0], data[1], data[2], data[3]];
            proof {
                assert(magic@ =~= data@.take(4));
                let g = seq![0x47u8, 0x47u8, 0x55u8, 0x46u8];
                assert(data@.take(4)[0] != g[0] || data@.take(4)[1] != g[1] || data@.take(4)[2]
                    != g[2] || data@.take(4)[3] != g[3]);
            }
            return Err(GgufError::InvalidMagic(magic));
        }
        assert(data@.take(4) =~= seq![0x47u8, 0x47u8, 0x55u8, 0x46u8]);
        let mut pos: usize = 4;
        let version: u32 = match read_u32(data, &mut pos) {
            Ok(x) => x,
            Err(e) => return Err(GgufError::UnexpectedEof(e)),
        };
        if version != 2 && version != 3 {
            return Err(GgufError::UnsupportedVersion(version));
        }
        let tensor_count: u64 = match read_u64(data, &mut pos) {
            Ok(x) => x,
            Err(e) => return Err(GgufError::UnexpectedEof(e)),
        };
        let entry_count: u64 = match read_u64(data, &mut pos) {
            Ok(x) => x,
            Err(e) => return Err(GgufError::UnexpectedEof(e)),
        };
        let metadata = match read_entries(data, &mut pos, entry_count) {
            Ok(x) => x,
            Err(e) => return Err(GgufError::UnexpectedEof(e)),
        };
        let alignment: u64 = match metadata.get("general.alignment") {
            Some(v) => match v.as_u32() {
                Some(a) => a as u64,
                None => 32,
            },
            None => 32,
        };
        let tensors = match read_tensors(data, &mut pos, tensor_count) {
            Ok(x) => x,
            Err(e) => return Err(e),
        };
        let end: u64 = pos as u64;
        let data_offset: u64 = if version == 3 {
            if alignment == 0 {
                return Err(GgufError::Other("Alignment is zero".to_owned()));
            }
            assert(0 <= (alignment - end % alignment) % alignment as int && (alignment - end
                % alignment) % alignment as int <= alignment) by (nonlinear_arith)
                requires
                    0 < alignment,
            {
            }
            end + (alignment - end % alignment) % alignment
        } else {
            end
        };
        Ok(GgufFile { data, version, metadata, tensors, data_offset, alignment })
    }

    /// The tensor's bytes lie inside the file.
    pub open spec fn holds(&self, info: TensorInfo) -> bool {
        saturating_product(info.shape@) <= usize::MAX && self.data_offset + info.offset
            + byte_size_of(info.dtype, saturating_product(info.shape@)) <= self.bytes().len()
    }

    /// Whether the tensor's bytes lie inside the file.
    pub fn has_data(&self, info: &TensorInfo) -> (r: bool)
        ensures
            r == self.holds(*info),
    {
        assert(self.bytes().len() == self.data.len());
        match info.checked_byte_size() {
            None => false,
            Some(n) => match self.data_offset.checked_add(info.offset) {
                None => false,
                Some(start) => match start.checked_add(n as u64) {
                    None => false,
                    Some(end) => end <= self.data.len() as u64,
                },
            },
        }
    }

    /// The tensor's bytes.
    pub fn tensor_data(&self, info: &TensorInfo) -> (r: &'a [u8])
        requires
            self.holds(*info),
        ensures
            r@ == self.bytes().subrange(
                self.data_offset + info.offset,
                self.data_offset + info.offset + byte_size_of(
                    info.dtype,
                    saturating_product(info.shape@),
                ),
            ),
    {
        assert(self.bytes().len() == self.data.len());
        let start: usize = self.data_offset as usize + info.offset as usize;
        let end: usize = start + info.byte_size();
        vstd::slice::slice_subrange(self.data, start, end)
    }

    /// The first tensor with the given name.
    pub fn find_tensor(&self, name: &str) -> (r: Option<&TensorInfo>)
        ensures
            match r {
                Some(t) => exists|i: int|
                    0 <= i < self.tensors@.len() && *t == #[trigger] self.tensors@[i] && t.name@
                        == name@ && forall|j: int|
                        0 <= j < i ==> (#[trigger] self.tensors@[j]).name@ != name@,
                None => forall|j: int|
                    0 <= j < self.tensors@.len() ==> (#[trigger] self.tensors@[j]).name@ != name@,
            },
    {
        let mut i: usize = 0;
        while i < self.tensors.len()
            invariant
                i <= self.tensors@.len(),
                forall|j: int| 0 <= j < i ==> (#[trigger] self.tensors@[j]).name@ != name@,
            decreases self.tensors@.len() - i,
        {
            if same_str(self.tensors[i].name.as_str(), name) {
                return Some(&self.tensors[i]);
            }
            i += 1;
        }
        None
    }

    /// The metadata value under a key.
    pub open spec fn entry(&self, key: Seq<char>) -> Option<MetaModel> {
        if self@.metadata.contains_key(key) {
            Some(self@.metadata[key])
        } else {
            None
        }
    }

    pub fn meta_str(&self, key: &str) -> (r: Option<&str>)
        ensures
            match r {
                Some(s) => self.entry(key@) is Some && self.entry(key@)->0.text() == Some(s@),
                None => self.entry(key@) is None || self.entry(key@)->0.text() is None,
            },
    {
        match self.metadata.get(key) {
            Some(v) => v.as_str(),
            None => None,
        }
    }

    pub fn meta_u32(&self, key: &str) -> (r: Option<u32>)
        ensures
            r == match self.entry(key@) {
                Some(v) => v.word(),
                None => None,
            },
    {
        match self.metadata.get(key) {
            Some(v) => v.as_u32(),
            None => None,
        }
    }

    /// The bit pattern of a single-precision value.
    pub fn meta_f32_bits(&self, key: &str) -> (r: Option<u32>)
        ensures
            r == match self.entry(key@) {
                Some(v) => v.float_bits(),
                None => None,
            },
    {
        match self.metadata.get(key) {
            Some(v) => v.as_f32_bits(),
            None => None,
        }
    }

    pub fn meta_u64(&self, key: &str) -> (r: Option<u64>)
        ensures
            r == match self.entry(key@) {
                Some(v) => v.long(),
                None => None,
            },
    {
        match self.metadata.get(key) {
            Some(v) => v.as_u64(),
            None => None,
        }
    }

    pub fn meta_array(&self, key: &str) -> (r: Option<&[MetaValue]>)
        ensures
            match r {
                Some(s) => self.entry(key@) is Some && self.entry(key@)->0.items() == Some(
                    models_of(s@),
                ),
                None => self.entry(key@) is None || self.entry(key@)->0.items() is None,
            },
    {
        match self.metadata.get(key) {
            Some(v) => v.as_array(),
            None => None,
        }
    }

    pub fn meta_bool(&self, key: &str) -> (r: Option<bool>)
        ensures
            r == match self.entry(key@) {
                Some(v) => v.truth(),
                None => None,
            },
    {
        match self.metadata.get(key) {
            Some(v) => v.as_bool(),
            None => None,
        }
    }
}

/// Tensor data of a version 3 file starts at a multiple of the alignment, behind the header and
/// less than one alignment step away from its end.
pub proof fn law_tensor_data_is_aligned(end: int, alignment: int)
    requires
        0 <= end,
        0 < alignment,
    ensures
        round_up(end, alignment) % alignment == 0,
        end <= round_up(end, alignment) < end + alignment,
{
    let m = end % alignment;
    vstd::arithmetic::div_mod::lemma_mod_bound(end, alignment);
    vstd::arithmetic::div_mod::lemma_fundamental_div_mod(end, alignment);
    if m == 0 {
        assert((alignment - 0) % alignment == 0) by {
            vstd::arithmetic::div_mod::lemma_mod_self_0(alignment);
        }
    } else {
        vstd::arithmetic::div_mod::lemma_small_mod((alignment - m) as nat, alignment as nat);
        let q = end / alignment;
        assert(end + (alignment - m) == (q + 1) * alignment) by (nonlinear_arith)
            requires
                end == alignment * q + m,
        {
        }
        vstd::arithmetic::div_mod::lemma_mod_multiples_basic(q + 1, alignment);
    }
}

/// The start of the tensor data of a header that was read lies on the header's own alignment
/// where the file is of version 3.
pub proof fn law_header_is_aligned(d: Seq<u8>)
    requires
        parse_header(d) is Ok,
        parse_header(d)->Ok_0.version == 3,
    ensures
        parse_header(d)->Ok_0.alignment > 0,
        parse_header(d)->Ok_0.data_offset % (parse_header(d)->Ok_0.alignment as int) == 0,
{
    let entries = take_entries(d, 24, le64(d, 16) as nat, Map::empty());
    let p = entries->Ok_0.1;
    lemma_entries_move(d, 24, le64(d, 16) as nat, Map::empty());
    lemma_tensors_move(d, p, le64(d, 8) as nat);
    let q = take_tensors(d, p, le64(d, 8) as nat)->Ok_0.1;
    law_tensor_data_is_aligned(q, alignment_of(entries->Ok_0.0) as int);
}

proof fn lemma_value_moves(d: Seq<u8>, p: int, type_id: u32)
    requires
        0 <= p <= d.len(),
    ensures
        take_value(d, p, type_id) matches Ok((v, q)) ==> p <= q <= d.len(),
    decreases d.len() - p, 0nat,
{
    if type_id == 9 && left(d, p, 12) {
        lemma_values_move(d, p + 12, le32(d, p), le64(d, p + 4) as nat);
    }
}

proof fn lemma_values_move(d: Seq<u8>, p: int, type_id: u32, n: nat)
    requires
        0 <= p <= d.len(),
    ensures
        take_values(d, p, type_id, n) matches Ok((v, q)) ==> p <= q <= d.len(),
    decreases d.len() - p, n + 1,
{
    if n > 0 {
        lemma_value_moves(d, p, type_id);
        if take_value(d, p, type_id) is Ok {
            let q = take_value(d, p, type_id)->Ok_0.1;
            lemma_values_move(d, q, type_id, (n - 1) as nat);
        }
    }
}

proof fn lemma_entries_move(d: Seq<u8>, p: int, n: nat, acc: Map<Seq<char>, MetaModel>)
    requires
        0 <= p <= d.len(),
    ensures
        take_entries(d, p, n, acc) matches Ok((v, q)) ==> p <= q <= d.len(),
    decreases n,
{
    if n > 0 && take_text(d, p) is Ok {
        let (key, q) = take_text(d, p)->Ok_0;
        if take_u32(d, q) is Ok {
            let (type_id, r) = take_u32(d, q)->Ok_0;
            lemma_value_moves(d, r, type_id);
            if take_value(d, r, type_id) is Ok {
                let (v, s) = take_value(d, r, type_id)->Ok_0;
                lemma_entries_move(d, s, (n - 1) as nat, acc.insert(key, v));
            }
        }
    }
}

proof fn lemma_dims_move(d: Seq<u8>, p: int, n: nat)
    requires
        0 <= p <= d.len(),
    ensures
        take_dims(d, p, n) matches Ok((v, q)) ==> p <= q <= d.len(),
    decreases n,
{
    if n > 0 && take_u64(d, p) is Ok {
        lemma_dims_move(d, p + 8, (n - 1) as nat);
    }
}

proof fn lemma_tensor_moves(d: Seq<u8>, p: int)
    requires
        0 <= p <= d.len(),
    ensures
        take_tensor(d, p) matches Ok((t, q)) ==> p <= q <= d.len(),
{
    if take_text(d, p) is Ok {
        let q = take_text(d, p)->Ok_0.1;
        if take_u32(d, q) is Ok {
            let (n, r) = take_u32(d, q)->Ok_0;
            lemma_dims_move(d, r, n as nat);
        }
    }
}

proof fn lemma_tensors_move(d: Seq<u8>, p: int, n: nat)
    requires
        0 <= p <= d.len(),
    ensures
        take_tensors(d, p, n) matches Ok((v, q)) ==> p <= q <= d.len(),
    decreases n,
{
    if n > 0 {
        lemma_tensor_moves(d, p);
        if take_tensor(d, p) is Ok {
            lemma_tensors_move(d, take_tensor(d, p)->Ok_0.1, (n - 1) as nat);
        }
    }
}

/// What is read before the end of a buffer does not depend on what follows the buffer: a header
/// that was read from `d` is read from any longer file that starts with `d`.
pub proof fn law_header_ignores_what_follows(d: Seq<u8>, more: Seq<u8>)
    requires
        parse_header(d) is Ok,
    ensures
        parse_header(d + more) == parse_header(d),
{
    let e = d + more;
    assert(e.take(4) =~= d.take(4));
    let n = le64(d, 16) as nat;
    let entries = take_entries(d, 24, n, Map::empty());
    lemma_entries_extend(d, more, 24, n, Map::empty());
    lemma_entries_move(d, 24, n, Map::empty());
    lemma_tensors_extend(d, more, entries->Ok_0.1, le64(d, 8) as nat);
}

proof fn lemma_text_extends(d: Seq<u8>, more: Seq<u8>, p: int)
    requires
        0 <= p <= d.len(),
        take_text(d, p) is Ok,
    ensures
        take_text(d + more, p) == take_text(d, p),
{
    let n = le64(d, p) as int;
    assert((d + more).subrange(p + 8, p + 8 + n) =~= d.subrange(p + 8, p + 8 + n));
}

proof fn lemma_value_extends(d: Seq<u8>, more: Seq<u8>, p: int, type_id: u32)
    requires
        0 <= p <= d.len(),
        take_value(d, p, type_id) is Ok,
    ensures
        take_value(d + more, p, type_id) == take_value(d, p, type_id),
    decreases d.len() - p, 0nat,
{
    if type_id == 8 {
        lemma_text_extends(d, more, p);
    }
    if type_id == 9 {
        lemma_values_extend(d, more, p + 12, le32(d, p), le64(d, p + 4) as nat);
    }
}

proof fn lemma_values_extend(d: Seq<u8>, more: Seq<u8>, p: int, type_id: u32, n: nat)
    requires
        0 <= p <= d.len(),
        take_values(d, p, type_id, n) is Ok,
    ensures
        take_values(d + more, p, type_id, n) == take_values(d, p, type_id, n),
    decreases d.len() - p, n + 1,
{
    if n > 0 {
        lemma_value_extends(d, more, p, type_id);
        let q = take_value(d, p, type_id)->Ok_0.1;
        lemma_value_moves(d, p, type_id);
        lemma_values_extend(d, more, q, type_id, (n - 1) as nat);
    }
}

proof fn lemma_entries_extend(
    d: Seq<u8>,
    more: Seq<u8>,
    p: int,
    n: nat,
    acc: Map<Seq<char>, MetaModel>,
)
    requires
        0 <= p <= d.len(),
        take_entries(d, p, n, acc) is Ok,
    ensures
        take_entries(d + more, p, n, acc) == take_entries(d, p, n, acc),
    decreases n,
{
    if n > 0 {
        lemma_text_extends(d, more, p);
        let (key, q) = take_text(d, p)->Ok_0;
        let (type_id, r) = take_u32(d, q)->Ok_0;
        lemma_value_extends(d, more, r, type_id);
        lemma_value_moves(d, r, type_id);
        let (v, s) = take_value(d, r, type_id)->Ok_0;
        lemma_entries_extend(d, more, s, (n - 1) as nat, acc.insert(key, v));
    }
}

proof fn lemma_dims_extend(d: Seq<u8>, more: Seq<u8>, p: int, n: nat)
    requires
        0 <= p <= d.len(),
        take_dims(d, p, n) is Ok,
    ensures
        take_dims(d + more, p, n) == take_dims(d, p, n),
    decreases n,
{
    if n > 0 {
        lemma_dims_extend(d, more, p + 8, (n - 1) as nat);
    }
}

proof fn lemma_tensors_extend(d: Seq<u8>, more: Seq<u8>, p: int, n: nat)
    requires
        0 <= p <= d.len(),
        take_tensors(d, p, n) is Ok,
    ensures
        take_tensors(d + more, p, n) == take_tensors(d, p, n),
    decreases n,
{
    if n > 0 {
        lemma_text_extends(d, more, p);
        let q = take_text(d, p)->Ok_0.1;
        let (dims, r) = take_u32(d, q)->Ok_0;
        lemma_dims_extend(d, more, r, dims as nat);
        lemma_dims_move(d, r, dims as nat);
        lemma_tensor_moves(d, p);
        assert(take_tensor(d + more, p) == take_tensor(d, p));
        lemma_tensors_extend(d, more, take_tensor(d, p)->Ok_0.1, (n - 1) as nat);
    }
}

} // verus!
