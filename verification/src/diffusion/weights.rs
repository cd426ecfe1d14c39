//! Model weights on disk: quantised tensors, then plain ones, between two marks.
use vstd::hash_map::StringHashMap;
use vstd::prelude::*;
use vstd::utf8::{decode_utf8, valid_utf8};

use crate::gguf::reader::{le16, le32, le64, left, read_u16, read_u32, read_u64, read_u8};
use crate::quant::codes::half_at;
use crate::quant::widen::{read_singles, widen_brains};
use crate::text::{concat2, decimal, decimal_string, hexadecimal, push_hexadecimal};

verus! {

/// The word at either end of a file.
pub const MAGIC: u32 = 0x3051_3248;

/// A tensor of two-bit codes, one row after the other.
#[derive(Debug)]
pub struct Q2Tensor {
    pub rows: usize,
    pub cols: usize,
    pub data: Vec<u8>,
}

/// A tensor of single-precision bit patterns.
#[derive(Debug)]
pub struct F32Tensor {
    pub rows: usize,
    pub cols: usize,
    pub data: Vec<u32>,
}

/// A tensor of brain-float values, two bytes each.
#[derive(Debug)]
pub struct Bf16Tensor {
    pub rows: usize,
    pub cols: usize,
    pub data: Vec<u8>,
}

#[derive(Debug)]
pub enum StoredTensor {
    Q2(Q2Tensor),
    F32(F32Tensor),
    Bf16(Bf16Tensor),
}

/// What a stored tensor holds.
pub enum StoredModel {
    Q2 { rows: usize, cols: usize, data: Seq<u8> },
    F32 { rows: usize, cols: usize, bits: Seq<u32> },
    Bf16 { rows: usize, cols: usize, data: Seq<u8> },
}

impl View for StoredTensor {
    type V = StoredModel;

    open spec fn view(&self) -> StoredModel {
        match *self {
            StoredTensor::Q2(t) => StoredModel::Q2 { rows: t.rows, cols: t.cols, data: t.data@ },
            StoredTensor::F32(t) => StoredModel::F32 { rows: t.rows, cols: t.cols, bits: t.data@ },
            StoredTensor::Bf16(t) => StoredModel::Bf16 { rows: t.rows, cols: t.cols, data: t.data@ },
        }
    }
}

/// The tensors of a model, by name.
pub struct ModelWeights {
    pub tensors: StringHashMap<StoredTensor>,
}

impl View for ModelWeights {
    type V = Map<Seq<char>, StoredModel>;

    open spec fn view(&self) -> Map<Seq<char>, StoredModel> {
        self.tensors@.map_values(|t: StoredTensor| t@)
    }
}

/// Why weights could not be read.
#[derive(Debug)]
pub enum WeightsError {
    UnexpectedEof,
    BadMagic(u32),
    BadName(Vec<u8>),
    UnknownDtype(u8),
    BadEndMagic,
}

/// What an error says.
pub enum WeightsFault {
    UnexpectedEof,
    BadMagic(u32),
    BadName(Seq<u8>),
    UnknownDtype(u8),
    BadEndMagic,
}

impl View for WeightsError {
    type V = WeightsFault;

    open spec fn view(&self) -> WeightsFault {
        match *self {
            WeightsError::UnexpectedEof => WeightsFault::UnexpectedEof,
            WeightsError::BadMagic(m) => WeightsFault::BadMagic(m),
            WeightsError::BadName(b) => WeightsFault::BadName(b@),
            WeightsError::UnknownDtype(t) => WeightsFault::UnknownDtype(t),
            WeightsError::BadEndMagic => WeightsFault::BadEndMagic,
        }
    }
}

impl WeightsFault {
    /// The wording of the faults that this format defines.
    pub open spec fn text(self) -> Option<Seq<char>> {
        match self {
            WeightsFault::BadMagic(m) => Some("bad magic: 0x"@ + hexadecimal(m as nat)),
            WeightsFault::UnknownDtype(t) => Some("unknown dtype: "@ + decimal(t as nat)),
            WeightsFault::BadEndMagic => Some("bad end magic"@),
            _ => None,
        }
    }
}

impl WeightsError {
    /// The wording of the errors that this format defines; a short read or a malformed name is
    /// worded by whoever reads the file.
    pub fn message(&self) -> (r: Option<String>)
        ensures
            match r {
                Some(s) => self@.text() == Some(s@),
                None => self@.text() is None,
            },
    {
        match self {
            WeightsError::BadMagic(m) => {
                let mut s = "bad magic: 0x".to_owned();
                push_hexadecimal(&mut s, *m as u64);
                Some(s)
            },
            WeightsError::UnknownDtype(t) => {
                let n = decimal_string(*t as u64);
                Some(concat2("unknown dtype: ", n.as_str()))
            },
            WeightsError::BadEndMagic => Some("bad end magic".to_owned()),
            _ => None,
        }
    }
}

/// `String::from_utf8`: the text of bytes that are UTF-8, and nothing for bytes that are not.
#[verifier::external_body]
fn strict_string(bytes: Vec<u8>) -> (r: Option<String>)
    ensures
        match r {
            Some(s) => valid_utf8(bytes@) && s@ == decode_utf8(bytes@),
            None => !valid_utf8(bytes@),
        },
{
    String::from_utf8(bytes).ok()
}

/// The name at `p`: a length, then that many bytes of text.
pub open spec fn take_name(d: Seq<u8>, p: int) -> Result<(Seq<char>, int), WeightsFault> {
    if !left(d, p, 2) || !left(d, p + 2, le16(d, p) as int) {
        Err(WeightsFault::UnexpectedEof)
    } else {
        let bytes = d.subrange(p + 2, p + 2 + le16(d, p));
        if valid_utf8(bytes) {
            Ok((decode_utf8(bytes), p + 2 + le16(d, p)))
        } else {
            Err(WeightsFault::BadName(bytes))
        }
    }
}

/// The single-precision bit patterns of a run of bytes.
pub open spec fn singles_of(data: Seq<u8>) -> Seq<u32> {
    Seq::new(data.len() / 4, |i: int| le32(data, 4 * i))
}

/// The tensor behind a name: dimensions, an element type unless all are quantised, a length, that
/// many bytes.
pub open spec fn take_tensor(d: Seq<u8>, p: int, plain: bool) -> Result<
    (StoredModel, int),
    WeightsFault,
> {
    let q = if plain {
        p + 17
    } else {
        p + 16
    };
    if !left(d, q, 4) || !left(d, q + 4, le32(d, q) as int) {
        Err(WeightsFault::UnexpectedEof)
    } else {
        let (rows, cols) = (le64(d, p) as usize, le64(d, p + 8) as usize);
        let end = q + 4 + le32(d, q);
        let data = d.subrange(q + 4, end);
        if !plain {
            Ok((StoredModel::Q2 { rows, cols, data }, end))
        } else if d[p + 16] == 0 {
            Ok((StoredModel::F32 { rows, cols, bits: singles_of(data) }, end))
        } else if d[p + 16] == 1 {
            Ok((StoredModel::Bf16 { rows, cols, data }, end))
        } else {
            Err(WeightsFault::UnknownDtype(d[p + 16]))
        }
    }
}

/// `n` named tensors on top of those in `acc`; a later one replaces an earlier one of its name.
pub open spec fn take_tensors(
    d: Seq<u8>,
    p: int,
    n: nat,
    plain: bool,
    acc: Map<Seq<char>, StoredModel>,
) -> Result<(Map<Seq<char>, StoredModel>, int), WeightsFault>
    decreases n,
{
    if n == 0 {
        Ok((acc, p))
    } else {
        match take_name(d, p) {
            Err(e) => Err(e),
            Ok((name, q)) => match take_tensor(d, q, plain) {
                Err(e) => Err(e),
                Ok((t, r)) => take_tensors(d, r, (n - 1) as nat, plain, acc.insert(name, t)),
            },
        }
    }
}

/// The weights at the start of `d`.
pub open spec fn weights_of(d: Seq<u8>) -> Result<Map<Seq<char>, StoredModel>, WeightsFault> {
    if !left(d, 0, 4) {
        Err(WeightsFault::UnexpectedEof)
    } else if le32(d, 0) != MAGIC {
        Err(WeightsFault::BadMagic(le32(d, 0)))
    } else if !left(d, 4, 4) {
        Err(WeightsFault::UnexpectedEof)
    } else {
        match take_tensors(d, 8, le32(d, 4) as nat, false, Map::empty()) {
            Err(e) => Err(e),
            Ok((quantised, p)) => if !left(d, p, 4) {
                Err(WeightsFault::UnexpectedEof)
            } else {
                match take_tensors(d, p + 4, le32(d, p) as nat, true, quantised) {
                    Err(e) => Err(e),
                    Ok((all, q)) => if !left(d, q, 4) {
                        Err(WeightsFault::UnexpectedEof)
                    } else if le32(d, q) != MAGIC {
                        Err(WeightsFault::BadEndMagic)
                    } else {
                        Ok(all)
                    },
                }
            },
        }
    }
}

fn copy_bytes(data: &[u8], from: usize, to: usize) -> (r: Vec<u8>)
    requires
        from <= to <= data@.len(),
    ensures
        r@ == data@.subrange(from as int, to as int),
{
    let mut out: Vec<u8> = Vec::new();
    let mut i: usize = from;
    while i < to
        invariant
            from <= i <= to <= data@.len(),
            out@ == data@.subrange(from as int, i as int),
        decreases to - i,
    {
        out.push(data[i]);
        i += 1;
        assert(out@ =~= data@.subrange(from as int, i as int));
    }
    out
}

fn read_name(data: &[u8], pos: &mut usize) -> (r: Result<String, WeightsError>)
    requires
        *old(pos) <= data@.len(),
    ensures
        *final(pos) <= data@.len(),
        match r {
            Ok(s) => take_name(data@, *old(pos) as int) == Ok::<(Seq<char>, int), WeightsFault>(
                (s@, *final(pos) as int),
            ),
            Err(e) => take_name(data@, *old(pos) as int) == Err::<(Seq<char>, int), WeightsFault>(
                e@,
            ),
        },
{
    let n: u16 = match read_u16(data, pos) {
        Ok(n) => n,
        Err(_) => return Err(WeightsError::UnexpectedEof),
    };
    if data.len() - *pos < n as usize {
        return Err(WeightsError::UnexpectedEof);
    }
    let end: usize = *pos + n as usize;
    let bytes = copy_bytes(data, *pos, end);
    *pos = end;
    match strict_string(bytes) {
        Some(s) => Ok(s),
        None => Err(WeightsError::BadName(copy_bytes(data, end - n as usize, end))),
    }
}

fn read_tensor(data: &[u8], pos: &mut usize, plain: bool) -> (r: Result<StoredTensor, WeightsError>)
    requires
        *old(pos) <= data@.len(),
    ensures
        *final(pos) <= data@.len(),
        match r {
            Ok(t) => take_tensor(data@, *old(pos) as int, plain) == Ok::<
                (StoredModel, int),
                WeightsFault,
            >((t@, *final(pos) as int)),
            Err(e) => take_tensor(data@, *old(pos) as int, plain) == Err::<
                (StoredModel, int),
                WeightsFault,
            >(e@),
        },
{
    let rows: u64 = match read_u64(data, pos) {
        Ok(x) => x,
        Err(_) => return Err(WeightsError::UnexpectedEof),
    };
    let cols: u64 = match read_u64(data, pos) {
        Ok(x) => x,
        Err(_) => return Err(WeightsError::UnexpectedEof),
    };
    let rows: usize = #[verifier::truncate]
    (rows as usize);
    let cols: usize = #[verifier::truncate]
    (cols as usize);
    let mut dtype: u8 = 0;
    if plain {
        dtype = match read_u8(data, pos) {
            Ok(x) => x,
            Err(_) => return Err(WeightsError::UnexpectedEof),
        };
    }
    let n: u32 = match read_u32(data, pos) {
        Ok(x) => x,
        Err(_) => return Err(WeightsError::UnexpectedEof),
    };
    if data.len() - *pos < n as usize {
        return Err(WeightsError::UnexpectedEof);
    }
    let end: usize = *pos + n as usize;
    let bytes = copy_bytes(data, *pos, end);
    *pos = end;
    if !plain {
        Ok(StoredTensor::Q2(Q2Tensor { rows, cols, data: bytes }))
    } else if dtype == 0 {
        let bits = read_singles(bytes.as_slice(), bytes.len());
        assert(bits@ =~= singles_of(bytes@));
        Ok(StoredTensor::F32(F32Tensor { rows, cols, data: bits }))
    } else if dtype == 1 {
        Ok(StoredTensor::Bf16(Bf16Tensor { rows, cols, data: bytes }))
    } else {
        Err(WeightsError::UnknownDtype(dtype))
    }
}

fn read_tensors(data: &[u8], pos: &mut usize, n: u32, plain: bool, into: &mut ModelWeights) -> (r:
    Result<(), WeightsError>)
    requires
        *old(pos) <= data@.len(),
    ensures
        *final(pos) <= data@.len(),
        match r {
            Ok(_) => take_tensors(data@, *old(pos) as int, n as nat, plain, old(into)@) == Ok::<
                (Map<Seq<char>, StoredModel>, int),
                WeightsFault,
            >((final(into)@, *final(pos) as int)),
            Err(e) => take_tensors(data@, *old(pos) as int, n as nat, plain, old(into)@) == Err::<
                (Map<Seq<char>, StoredModel>, int),
                WeightsFault,
            >(e@),
        },
{
    let ghost whole = take_tensors(data@, *pos as int, n as nat, plain, into@);
    let mut i: u32 = 0;
    while i < n
        invariant
            i <= n,
            *pos <= data@.len(),
            whole == take_tensors(data@, *pos as int, (n - i) as nat, plain, into@),
            whole == take_tensors(data@, *old(pos) as int, n as nat, plain, old(into)@),
        decreases n - i,
    {
        let ghost before = into@;
        let name = match read_name(data, pos) {
            Ok(s) => s,
            Err(e) => return Err(e),
        };
        let t = match read_tensor(data, pos, plain) {
            Ok(t) => t,
            Err(e) => return Err(e),
        };
        let ghost key = name@;
        into.tensors.insert(name, t);
        assert(into@ =~= before.insert(key, t@));
        i += 1;
    }
    Ok(())
}

/// Reads weights from the bytes of a file.
pub fn parse_weights(data: &[u8]) -> (r: Result<ModelWeights, WeightsError>)
    ensures
        match r {
            Ok(w) => weights_of(data@) == Ok::<Map<Seq<char>, StoredModel>, WeightsFault>(w@),
            Err(e) => weights_of(data@) == Err::<Map<Seq<char>, StoredModel>, WeightsFault>(e@),
        },
{
    let mut pos: usize = 0;
    let magic: u32 = match read_u32(data, &mut pos) {
        Ok(x) => x,
        Err(_) => return Err(WeightsError::UnexpectedEof),
    };
    if magic != MAGIC {
        return Err(WeightsError::BadMagic(magic));
    }
    let n_quant: u32 = match read_u32(data, &mut pos) {
        Ok(x) => x,
        Err(_) => return Err(WeightsError::UnexpectedEof),
    };
    let mut weights = ModelWeights { tensors: StringHashMap::new() };
    assert(weights@ =~= Map::empty());
    match read_tensors(data, &mut pos, n_quant, false, &mut weights) {
        Ok(_) => {},
        Err(e) => return Err(e),
    }
    let n_plain: u32 = match read_u32(data, &mut pos) {
        Ok(x) => x,
        Err(_) => return Err(WeightsError::UnexpectedEof),
    };
    match read_tensors(data, &mut pos, n_plain, true, &mut weights) {
        Ok(_) => {},
        Err(e) => return Err(e),
    }
    let end: u32 = match read_u32(data, &mut pos) {
        Ok(x) => x,
        Err(_) => return Err(WeightsError::UnexpectedEof),
    };
    if end != MAGIC {
        return Err(WeightsError::BadEndMagic);
    }
    Ok(weights)
}

/// The values of a brain-float tensor as single-precision bit patterns.
pub open spec fn widened_bits(data: Seq<u8>) -> Seq<u32> {
    Seq::new(data.len() / 2, |i: int| (0x1_0000 * half_at(data, 2 * i)) as u32)
}

/// The single-precision bit patterns of a tensor that is not quantised.
pub open spec fn dense_bits(t: StoredModel) -> Option<Seq<u32>> {
    match t {
        StoredModel::Bf16 { data, .. } => Some(widened_bits(data)),
        StoredModel::F32 { bits, .. } => Some(bits),
        StoredModel::Q2 { .. } => None,
    }
}

impl ModelWeights {
    /// The quantised tensor of a name.
    pub fn q2(&self, name: &str) -> (r: Option<&Q2Tensor>)
        ensures
            match r {
                Some(t) => self@.contains_key(name@) && self@[name@] == (StoredModel::Q2 {
                    rows: t.rows,
                    cols: t.cols,
                    data: t.data@,
                }),
                None => !(self@.contains_key(name@) && self@[name@] is Q2),
            },
    {
        match self.tensors.get(name) {
            Some(StoredTensor::Q2(t)) => Some(t),
            _ => None,
        }
    }

    /// The single-precision tensor of a name.
    pub fn singles(&self, name: &str) -> (r: Option<&F32Tensor>)
        ensures
            match r {
                Some(t) => self@.contains_key(name@) && self@[name@] == (StoredModel::F32 {
                    rows: t.rows,
                    cols: t.cols,
                    bits: t.data@,
                }),
                None => !(self@.contains_key(name@) && self@[name@] is F32),
            },
    {
        match self.tensors.get(name) {
            Some(StoredTensor::F32(t)) => Some(t),
            _ => None,
        }
    }

    /// The brain-float tensor of a name, widened to single-precision bit patterns.
    pub fn bf16_as_singles(&self, name: &str) -> (r: Option<Vec<u32>>)
        ensures
            match r {
                Some(bits) => self@.contains_key(name@) && (self@[name@] matches StoredModel::Bf16 {
                    data,
                    ..
                } && bits@ == widened_bits(data)),
                None => !(self@.contains_key(name@) && self@[name@] is Bf16),
            },
    {
        match self.tensors.get(name) {
            Some(StoredTensor::Bf16(t)) => {
                let bits = widen_brains(t.data.as_slice(), t.data.len());
                assert(bits@ =~= widened_bits(t.data@));
                Some(bits)
            },
            _ => None,
        }
    }

    /// The single-precision bit patterns of a dense weight: those of a brain-float tensor widened,
    /// or those of a single-precision tensor.
    pub fn dense(&self, name: &str) -> (r: Option<Vec<u32>>)
        ensures
            match r {
                Some(bits) => self@.contains_key(name@) && dense_bits(self@[name@]) == Some(bits@),
                None => !self@.contains_key(name@) || dense_bits(self@[name@]) is None,
            },
    {
        if let Some(bits) = self.bf16_as_singles(name) {
            return Some(bits);
        }
        match self.singles(name) {
            Some(t) => {
                let mut out: Vec<u32> = Vec::new();
                let mut i: usize = 0;
                while i < t.data.len()
                    invariant
                        i <= t.data@.len(),
                        out@ == t.data@.take(i as int),
                    decreases t.data@.len() - i,
                {
                    out.push(t.data[i]);
                    i += 1;
                    assert(out@ =~= t.data@.take(i as int));
                }
                assert(out@ =~= t.data@);
                Some(out)
            },
            None => None,
        }
    }
}

/// What follows the closing mark does not matter.
pub proof fn law_weights_ignore_what_follows(d: Seq<u8>, more: Seq<u8>)
    requires
        weights_of(d) is Ok,
    ensures
        weights_of(d + more) == weights_of(d),
{
    let e = d + more;
    lemma_words(d, more, 0);
    lemma_words(d, more, 4);
    lemma_tensors_prefix(d, more, 8, le32(d, 4) as nat, false, Map::empty());
    let (quantised, p) = take_tensors(d, 8, le32(d, 4) as nat, false, Map::empty())->Ok_0;
    lemma_words(d, more, p);
    lemma_tensors_prefix(d, more, p + 4, le32(d, p) as nat, true, quantised);
    let (all, q) = take_tensors(d, p + 4, le32(d, p) as nat, true, quantised)->Ok_0;
    lemma_words(d, more, q);
}

proof fn lemma_words(d: Seq<u8>, more: Seq<u8>, p: int)
    requires
        0 <= p,
        left(d, p, 4),
    ensures
        le32(d + more, p) == le32(d, p),
{
}

proof fn lemma_tensors_prefix(
    d: Seq<u8>,
    more: Seq<u8>,
    p: int,
    n: nat,
    plain: bool,
    acc: Map<Seq<char>, StoredModel>,
)
    requires
        0 <= p,
        take_tensors(d, p, n, plain, acc) is Ok,
    ensures
        take_tensors(d + more, p, n, plain, acc) == take_tensors(d, p, n, plain, acc),
        take_tensors(d, p, n, plain, acc)->Ok_0.1 >= p,
    decreases n,
{
    let e = d + more;
    if n > 0 {
        let (name, q) = take_name(d, p)->Ok_0;
        assert(e[p] == d[p] && e[p + 1] == d[p + 1]);
        assert(e.subrange(p + 2, q) =~= d.subrange(p + 2, q));
        let (t, r) = take_tensor(d, q, plain)->Ok_0;
        let at = if plain {
            q + 17
        } else {
            q + 16
        };
        lemma_words(d, more, at);
        lemma_words(d, more, q);
        lemma_words(d, more, q + 4);
        lemma_words(d, more, q + 8);
        lemma_words(d, more, q + 12);
        assert(e[q + 16] == d[q + 16]);
        assert(e.subrange(at + 4, r) =~= d.subrange(at + 4, r));
        lemma_tensors_prefix(d, more, r, (n - 1) as nat, plain, acc.insert(name, t));
    }
}

} // verus!
