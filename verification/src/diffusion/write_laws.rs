//! Reading weights gives back what was written.
use vstd::prelude::*;
use vstd::utf8::{encode_utf8, encode_utf8_decode_utf8, encode_utf8_valid_utf8};

use crate::diffusion::weights::{
    singles_of, take_name, take_tensor, take_tensors, weights_of, StoredModel, WeightsFault,
};
use crate::gguf::reader::{le16, le32};
use crate::gguf::write_laws::{
    bytes16, bytes32, bytes64, lemma_bytes16, lemma_bytes32, lemma_bytes64, lemma_stands, stands,
};

verus! {

/// The bytes of a run of single-precision values, four for each.
pub open spec fn singles_bytes(bits: Seq<u32>) -> Seq<u8> {
    Seq::new(4 * bits.len(), |k: int| bytes32(bits[k / 4])[k % 4])
}

/// The data of a tensor.
pub open spec fn data_bytes(t: StoredModel) -> Seq<u8> {
    match t {
        StoredModel::Q2 { rows, cols, data } => data,
        StoredModel::F32 { rows, cols, bits } => singles_bytes(bits),
        StoredModel::Bf16 { rows, cols, data } => data,
    }
}

pub open spec fn shape_bytes(t: StoredModel) -> Seq<u8> {
    match t {
        StoredModel::Q2 { rows, cols, data } => bytes64(rows as u64) + bytes64(cols as u64),
        StoredModel::F32 { rows, cols, bits } => bytes64(rows as u64) + bytes64(cols as u64),
        StoredModel::Bf16 { rows, cols, data } => bytes64(rows as u64) + bytes64(cols as u64),
    }
}

/// The number of a plain tensor's type: none for quantised ones.
pub open spec fn type_bytes(t: StoredModel) -> Seq<u8> {
    match t {
        StoredModel::Q2 { .. } => Seq::empty(),
        StoredModel::F32 { .. } => seq![0u8],
        StoredModel::Bf16 { .. } => seq![1u8],
    }
}

/// A tensor: rows, columns, type, the length of its data, the data.
pub open spec fn tensor_bytes(t: StoredModel) -> Seq<u8> {
    shape_bytes(t) + type_bytes(t) + bytes32(data_bytes(t).len() as u32) + data_bytes(t)
}

/// A name: its length, its bytes.
pub open spec fn name_bytes(name: Seq<char>) -> Seq<u8> {
    bytes16(encode_utf8(name).len() as u16) + encode_utf8(name)
}

/// Named tensors, one behind the other.
pub open spec fn tensors_bytes(ts: Seq<(Seq<char>, StoredModel)>) -> Seq<u8>
    decreases ts.len(),
{
    if ts.len() == 0 {
        Seq::empty()
    } else {
        name_bytes(ts.first().0) + tensor_bytes(ts.first().1) + tensors_bytes(ts.drop_first())
    }
}

/// Tensors by their names; a later one stands for an earlier one of its name.
pub open spec fn tensors_map(
    base: Map<Seq<char>, StoredModel>,
    ts: Seq<(Seq<char>, StoredModel)>,
) -> Map<Seq<char>, StoredModel>
    decreases ts.len(),
{
    if ts.len() == 0 {
        base
    } else {
        tensors_map(base.insert(ts.first().0, ts.first().1), ts.drop_first())
    }
}

/// Names and data whose lengths can be written; quantised tensors stand apart from the others.
pub open spec fn writable(ts: Seq<(Seq<char>, StoredModel)>, plain: bool) -> bool {
    ts.len() <= u32::MAX && forall|i: int|
        0 <= i < ts.len() ==> encode_utf8((#[trigger] ts[i]).0).len() <= u16::MAX && data_bytes(
            ts[i].1,
        ).len() <= u32::MAX && plain == !(ts[i].1 is Q2)
}

/// Single-precision values read back.
pub proof fn law_singles_read_back(bits: Seq<u32>)
    ensures
        singles_of(singles_bytes(bits)) == bits,
{
    let b = singles_bytes(bits);
    assert forall|i: int| 0 <= i < bits.len() implies #[trigger] le32(b, 4 * i) == bits[i] by {
        assert forall|j: int| 0 <= j < 4 implies b[4 * i + j] == bytes32(bits[i])[j] by {
            assert((4 * i + j) / 4 == i && (4 * i + j) % 4 == j);
        }
        assert(b.subrange(4 * i, 4 * i + 4) =~= bytes32(bits[i]));
        lemma_bytes32(b, 4 * i, bits[i]);
    }
    assert(singles_of(b) =~= bits);
}

/// A name reads back.
pub proof fn law_name_reads_back(d: Seq<u8>, p: int, name: Seq<char>)
    requires
        stands(d, p, name_bytes(name)),
        encode_utf8(name).len() <= u16::MAX,
    ensures
        take_name(d, p) == Ok::<(Seq<char>, int), WeightsFault>((name, p + name_bytes(name).len())),
{
    let b = encode_utf8(name);
    lemma_stands(d, p, bytes16(b.len() as u16), b);
    lemma_bytes16(d, p, b.len() as u16);
    assert(le16(d, p) == b.len());
    encode_utf8_valid_utf8(name);
    encode_utf8_decode_utf8(name);
}

/// A tensor reads back: its shape, its type and its data.
pub proof fn law_tensor_reads_back(d: Seq<u8>, p: int, t: StoredModel)
    requires
        stands(d, p, tensor_bytes(t)),
        data_bytes(t).len() <= u32::MAX,
    ensures
        take_tensor(d, p, !(t is Q2)) == Ok::<(StoredModel, int), WeightsFault>(
            (t, p + tensor_bytes(t).len()),
        ),
{
    let (a, b, c, e) = (
        shape_bytes(t),
        type_bytes(t),
        bytes32(data_bytes(t).len() as u32),
        data_bytes(t),
    );
    lemma_stands(d, p, a + b + c, e);
    lemma_stands(d, p, a + b, c);
    lemma_stands(d, p, a, b);
    let (rows, cols) = match t {
        StoredModel::Q2 { rows, cols, data } => (rows, cols),
        StoredModel::F32 { rows, cols, bits } => (rows, cols),
        StoredModel::Bf16 { rows, cols, data } => (rows, cols),
    };
    lemma_stands(d, p, bytes64(rows as u64), bytes64(cols as u64));
    lemma_bytes64(d, p, rows as u64);
    lemma_bytes64(d, p + 8, cols as u64);
    let q = p + 16 + b.len();
    lemma_bytes32(d, q, e.len() as u32);
    if b.len() > 0 {
        assert(d.subrange(p + 16, p + 17)[0] == d[p + 16]);
    }
    if let StoredModel::F32 { rows: r, cols: s, bits } = t {
        law_singles_read_back(bits);
    }
}

proof fn lemma_tensors_read_back(
    d: Seq<u8>,
    p: int,
    ts: Seq<(Seq<char>, StoredModel)>,
    plain: bool,
    base: Map<Seq<char>, StoredModel>,
)
    requires
        writable(ts, plain),
        stands(d, p, tensors_bytes(ts)),
    ensures
        take_tensors(d, p, ts.len(), plain, base) == Ok::<
            (Map<Seq<char>, StoredModel>, int),
            WeightsFault,
        >((tensors_map(base, ts), p + tensors_bytes(ts).len())),
    decreases ts.len(),
{
    if ts.len() > 0 {
        let (name, t) = ts.first();
        let rest = ts.drop_first();
        assert(ts[0] == (name, t));
        let (x, y) = (name_bytes(name), tensor_bytes(t));
        lemma_stands(d, p, x + y, tensors_bytes(rest));
        lemma_stands(d, p, x, y);
        law_name_reads_back(d, p, name);
        law_tensor_reads_back(d, p + x.len(), t);
        assert forall|i: int| 0 <= i < rest.len() implies encode_utf8((#[trigger] rest[i]).0).len()
            <= u16::MAX && data_bytes(rest[i].1).len() <= u32::MAX && plain == !(rest[i].1 is Q2) by {
            assert(rest[i] == ts[i + 1]);
        }
        lemma_tensors_read_back(
            d,
            p + x.len() + y.len(),
            rest,
            plain,
            base.insert(name, t),
        );
    }
}

/// Weights: a mark, the number of quantised tensors and those, the number of the others and those, and the
/// mark again.
pub open spec fn weights_bytes(
    quantised: Seq<(Seq<char>, StoredModel)>,
    plain: Seq<(Seq<char>, StoredModel)>,
) -> Seq<u8> {
    bytes32(0x3051_3248) + bytes32(quantised.len() as u32) + tensors_bytes(quantised) + bytes32(
        plain.len() as u32,
    ) + tensors_bytes(plain) + bytes32(0x3051_3248)
}

/// Where the parts of written weights stand.
proof fn lemma_parts_stand(
    d: Seq<u8>,
    quantised: Seq<(Seq<char>, StoredModel)>,
    plain: Seq<(Seq<char>, StoredModel)>,
)
    requires
        stands(d, 0, weights_bytes(quantised, plain)),
    ensures
        stands(d, 0, bytes32(0x3051_3248)),
        stands(d, 4, bytes32(quantised.len() as u32)),
        stands(d, 8, tensors_bytes(quantised)),
        stands(d, 8int + tensors_bytes(quantised).len(), bytes32(plain.len() as u32)),
        stands(d, 12int + tensors_bytes(quantised).len(), tensors_bytes(plain)),
        stands(
            d,
            12int + tensors_bytes(quantised).len() + tensors_bytes(plain).len(),
            bytes32(0x3051_3248),
        ),
{
    let m = bytes32(0x3051_3248);
    let (a, b, c, e) = (
        bytes32(quantised.len() as u32),
        tensors_bytes(quantised),
        bytes32(plain.len() as u32),
        tensors_bytes(plain),
    );
    assert(m.len() == 4 && a.len() == 4 && c.len() == 4);
    lemma_stands(d, 0, m + a + b + c + e, m);
    lemma_stands(d, 0, m + a + b + c, e);
    lemma_stands(d, 0, m + a + b, c);
    lemma_stands(d, 0, m + a, b);
    lemma_stands(d, 0, m, a);
}

/// Weights read back, whatever follows them: every tensor under its name.
pub proof fn law_weights_read_back(
    quantised: Seq<(Seq<char>, StoredModel)>,
    plain: Seq<(Seq<char>, StoredModel)>,
    rest: Seq<u8>,
)
    requires
        writable(quantised, false),
        writable(plain, true),
    ensures
        weights_of(weights_bytes(quantised, plain) + rest) == Ok::<
            Map<Seq<char>, StoredModel>,
            WeightsFault,
        >(tensors_map(tensors_map(Map::empty(), quantised), plain)),
{
    let w = weights_bytes(quantised, plain);
    let d = w + rest;
    assert(d.subrange(0, w.len() as int) =~= w);
    lemma_parts_stand(d, quantised, plain);
    lemma_bytes32(d, 0, 0x3051_3248);
    lemma_bytes32(d, 4, quantised.len() as u32);
    lemma_tensors_read_back(d, 8, quantised, false, Map::empty());
    let p = 8 + tensors_bytes(quantised).len() as int;
    lemma_bytes32(d, p, plain.len() as u32);
    lemma_tensors_read_back(d, p + 4, plain, true, tensors_map(Map::empty(), quantised));
    lemma_bytes32(d, p + 4 + tensors_bytes(plain).len(), 0x3051_3248);
}

} // verus!
