//! Reading gives back what was written.
//!
//! What a file looks like is said here from the writer's side: which bytes stand for a value, an entry
//! of the metadata, a tensor of the table and a whole header.
use vstd::arithmetic::div_mod::{
    lemma_fundamental_div_mod, lemma_mod_bound, lemma_mod_multiples_basic, lemma_mod_self_0,
    lemma_small_mod,
};
use vstd::prelude::*;
use vstd::utf8::{encode_utf8, encode_utf8_decode_utf8, encode_utf8_valid_utf8};

use crate::gguf::file::{
    parse_header, round_up, take_dims, take_entries, take_tensor, take_tensors, GgufFault,
};
use crate::gguf::ggml::dtype_of_id;
use crate::gguf::meta::MetaModel;
use crate::gguf::reader::{
    le32, le64, take_text, take_u16, take_u32, take_u64, take_value, take_values,
};
use crate::gguf::tensor::TensorModel;

verus! {

/// The bytes of a number, the lowest first.
pub open spec fn bytes16(x: u16) -> Seq<u8> {
    seq![(x & 0xff) as u8, (x >> 8) as u8]
}

/// The bytes of a number, the lowest first.
pub open spec fn bytes32(x: u32) -> Seq<u8> {
    seq![
        (x & 0xff) as u8,
        ((x >> 8) & 0xff) as u8,
        ((x >> 16) & 0xff) as u8,
        (x >> 24) as u8,
    ]
}

/// The bytes of a number, the lowest first.
pub open spec fn bytes64(x: u64) -> Seq<u8> {
    bytes32((x & 0xffff_ffff) as u32) + bytes32((x >> 32) as u32)
}

/// Text: the number of its bytes, then the bytes.
pub open spec fn text_bytes(s: Seq<char>) -> Seq<u8> {
    bytes64(encode_utf8(s).len() as u64) + encode_utf8(s)
}

/// The bytes that stand in `d` at `p`.
pub open spec fn stands(d: Seq<u8>, p: int, b: Seq<u8>) -> bool {
    0 <= p && p + b.len() <= d.len() && d.subrange(p, p + b.len()) == b
}

/// The number by which a file names the type of a value.
pub open spec fn type_number(v: MetaModel) -> u32 {
    match v {
        MetaModel::U8(_) => 0,
        MetaModel::I8(_) => 1,
        MetaModel::U16(_) => 2,
        MetaModel::I16(_) => 3,
        MetaModel::U32(_) => 4,
        MetaModel::I32(_) => 5,
        MetaModel::F32(_) => 6,
        MetaModel::Bool(_) => 7,
        MetaModel::Text(_) => 8,
        MetaModel::Array(_, _) => 9,
        MetaModel::U64(_) => 10,
        MetaModel::I64(_) => 11,
        MetaModel::F64(_) => 12,
    }
}

/// The bytes of a value that is no array.
pub open spec fn plain_bytes(v: MetaModel) -> Seq<u8> {
    match v {
        MetaModel::U8(x) => seq![x],
        MetaModel::I8(x) => seq![x as u8],
        MetaModel::U16(x) => bytes16(x),
        MetaModel::I16(x) => bytes16(x as u16),
        MetaModel::U32(x) => bytes32(x),
        MetaModel::I32(x) => bytes32(x as u32),
        MetaModel::F32(x) => bytes32(x),
        MetaModel::Bool(x) => seq![
            if x {
                1u8
            } else {
                0u8
            },
        ],
        MetaModel::Text(s) => text_bytes(s),
        MetaModel::U64(x) => bytes64(x),
        MetaModel::I64(x) => bytes64(x as u64),
        MetaModel::F64(x) => bytes64(x),
        MetaModel::Array(_, _) => Seq::empty(),
    }
}

/// The bytes of a run of values.
pub open spec fn run_bytes(items: Seq<MetaModel>) -> Seq<u8>
    decreases items.len(),
{
    if items.len() == 0 {
        Seq::empty()
    } else {
        plain_bytes(items.first()) + run_bytes(items.drop_first())
    }
}

/// The bytes of a value; an array is written as the type of its items, their number, and the items.
pub open spec fn value_bytes(v: MetaModel) -> Seq<u8> {
    match v {
        MetaModel::Array(t, items) => bytes32(t) + bytes64(items.len() as u64) + run_bytes(items),
        _ => plain_bytes(v),
    }
}

/// A value that is no array and whose length can be written.
pub open spec fn plain(v: MetaModel) -> bool {
    !(v is Array) && (v matches MetaModel::Text(s) ==> encode_utf8(s).len() <= u64::MAX)
}

/// A value that can be written: a plain one, or an array of plain ones of one type.
pub open spec fn writable(v: MetaModel) -> bool {
    match v {
        MetaModel::Array(t, items) => items.len() <= u64::MAX && forall|i: int|
            0 <= i < items.len() ==> plain(#[trigger] items[i]) && type_number(items[i]) == t,
        _ => plain(v),
    }
}

pub proof fn lemma_bytes16(d: Seq<u8>, p: int, x: u16)
    requires
        stands(d, p, bytes16(x)),
    ensures
        take_u16(d, p) == Ok::<(u16, int), int>((x, p + 2)),
{
    let b = bytes16(x);
    assert(d.subrange(p, p + 2)[0] == d[p] && d.subrange(p, p + 2)[1] == d[p + 1]);
    assert(x == ((x & 0xff) as u8) as u16 + 0x100 * (((x >> 8) as u8) as u16)) by (bit_vector);
}

pub proof fn lemma_bytes32(d: Seq<u8>, p: int, x: u32)
    requires
        stands(d, p, bytes32(x)),
    ensures
        take_u32(d, p) == Ok::<(u32, int), int>((x, p + 4)),
        le32(d, p) == x,
{
    let s = d.subrange(p, p + 4);
    assert(s[0] == d[p] && s[1] == d[p + 1] && s[2] == d[p + 2] && s[3] == d[p + 3]);
    let (a, b, c, e) = (
        (x & 0xff) as u8,
        ((x >> 8) & 0xff) as u8,
        ((x >> 16) & 0xff) as u8,
        (x >> 24) as u8,
    );
    assert(x == (a as u32) + 0x100 * (b as u32) + 0x1_0000 * (c as u32) + 0x100_0000 * (e as u32))
        by (bit_vector)
        requires
            a == (x & 0xff) as u8,
            b == ((x >> 8) & 0xff) as u8,
            c == ((x >> 16) & 0xff) as u8,
            e == (x >> 24) as u8,
    ;
}

pub proof fn lemma_bytes64(d: Seq<u8>, p: int, x: u64)
    requires
        stands(d, p, bytes64(x)),
    ensures
        take_u64(d, p) == Ok::<(u64, int), int>((x, p + 8)),
        le64(d, p) == x,
{
    let (lo, hi) = ((x & 0xffff_ffff) as u32, (x >> 32) as u32);
    let s = d.subrange(p, p + 8);
    assert(bytes64(x).subrange(0, 4) =~= bytes32(lo));
    assert(bytes64(x).subrange(4, 8) =~= bytes32(hi));
    assert(d.subrange(p, p + 4) =~= s.subrange(0, 4));
    assert(d.subrange(p + 4, p + 8) =~= s.subrange(4, 8));
    lemma_bytes32(d, p, lo);
    lemma_bytes32(d, p + 4, hi);
    assert(x == (lo as u64) + 0x1_0000_0000 * (hi as u64)) by (bit_vector)
        requires
            lo == (x & 0xffff_ffff) as u32,
            hi == (x >> 32) as u32,
    ;
}

/// What stands behind a first part.
pub proof fn lemma_stands(d: Seq<u8>, p: int, x: Seq<u8>, y: Seq<u8>)
    requires
        stands(d, p, x + y),
    ensures
        stands(d, p, x),
        stands(d, p + x.len(), y),
{
    let s = d.subrange(p, p + (x + y).len());
    assert(d.subrange(p, p + x.len()) =~= s.subrange(0, x.len() as int));
    assert(x =~= (x + y).subrange(0, x.len() as int));
    assert(d.subrange(p + x.len(), p + x.len() + y.len()) =~= s.subrange(
        x.len() as int,
        s.len() as int,
    ));
    assert(y =~= (x + y).subrange(x.len() as int, (x + y).len() as int));
}

/// A text reads back.
pub proof fn law_text_reads_back(d: Seq<u8>, p: int, s: Seq<char>)
    requires
        stands(d, p, text_bytes(s)),
        encode_utf8(s).len() <= u64::MAX,
    ensures
        take_text(d, p) == Ok::<(Seq<char>, int), int>((s, p + text_bytes(s).len())),
{
    let b = encode_utf8(s);
    lemma_stands(d, p, bytes64(b.len() as u64), b);
    lemma_bytes64(d, p, b.len() as u64);
    assert(bytes64(b.len() as u64).len() == 8);
    encode_utf8_valid_utf8(s);
    encode_utf8_decode_utf8(s);
}

/// A value that is no array reads back, under the number of its type.
pub proof fn law_plain_value_reads_back(d: Seq<u8>, p: int, v: MetaModel)
    requires
        plain(v),
        stands(d, p, plain_bytes(v)),
    ensures
        take_value(d, p, type_number(v)) == Ok::<(MetaModel, int), int>(
            (v, p + plain_bytes(v).len()),
        ),
{
    match v {
        MetaModel::U8(x) => {
            assert(d.subrange(p, p + 1)[0] == d[p]);
        },
        MetaModel::I8(x) => {
            assert(d.subrange(p, p + 1)[0] == d[p]);
            assert((x as u8) as i8 == x) by (bit_vector);
        },
        MetaModel::Bool(x) => {
            assert(d.subrange(p, p + 1)[0] == d[p]);
        },
        MetaModel::U16(x) => {
            lemma_bytes16(d, p, x);
        },
        MetaModel::I16(x) => {
            lemma_bytes16(d, p, x as u16);
            assert((x as u16) as i16 == x) by (bit_vector);
        },
        MetaModel::U32(x) => {
            lemma_bytes32(d, p, x);
        },
        MetaModel::F32(x) => {
            lemma_bytes32(d, p, x);
        },
        MetaModel::I32(x) => {
            lemma_bytes32(d, p, x as u32);
            assert((x as u32) as i32 == x) by (bit_vector);
        },
        MetaModel::U64(x) => {
            lemma_bytes64(d, p, x);
        },
        MetaModel::F64(x) => {
            lemma_bytes64(d, p, x);
        },
        MetaModel::I64(x) => {
            lemma_bytes64(d, p, x as u64);
            assert((x as u64) as i64 == x) by (bit_vector);
        },
        MetaModel::Text(s) => {
            law_text_reads_back(d, p, s);
        },
        _ => {},
    }
}

proof fn lemma_run_reads_back(d: Seq<u8>, p: int, t: u32, items: Seq<MetaModel>)
    requires
        stands(d, p, run_bytes(items)),
        forall|i: int|
            0 <= i < items.len() ==> plain(#[trigger] items[i]) && type_number(items[i]) == t,
    ensures
        take_values(d, p, t, items.len()) == Ok::<(Seq<MetaModel>, int), int>(
            (items, p + run_bytes(items).len()),
        ),
    decreases items.len(),
{
    if items.len() > 0 {
        let (v, rest) = (items.first(), items.drop_first());
        assert(plain(items[0]) && type_number(items[0]) == t);
        lemma_stands(d, p, plain_bytes(v), run_bytes(rest));
        law_plain_value_reads_back(d, p, v);
        assert forall|i: int| 0 <= i < rest.len() implies plain(#[trigger] rest[i]) && type_number(
            rest[i],
        ) == t by {
            assert(rest[i] == items[i + 1]);
        }
        lemma_run_reads_back(d, p + plain_bytes(v).len(), t, rest);
        assert(seq![v] + rest =~= items);
    } else {
        assert(items =~= Seq::empty());
    }
}

/// Every value that can be written reads back, arrays with all their items in order.
pub proof fn law_value_reads_back(d: Seq<u8>, p: int, v: MetaModel)
    requires
        writable(v),
        stands(d, p, value_bytes(v)),
    ensures
        take_value(d, p, type_number(v)) == Ok::<(MetaModel, int), int>(
            (v, p + value_bytes(v).len()),
        ),
{
    match v {
        MetaModel::Array(t, items) => {
            let (x, y) = (bytes32(t), bytes64(items.len() as u64));
            lemma_stands(d, p, x + y, run_bytes(items));
            lemma_stands(d, p, x, y);
            lemma_bytes32(d, p, t);
            lemma_bytes64(d, p + 4, items.len() as u64);
            lemma_run_reads_back(d, p + 12, t, items);
        },
        _ => {
            law_plain_value_reads_back(d, p, v);
        },
    }
}

/// An entry of the metadata: its key, the type of its value, the value.
pub open spec fn entry_bytes(key: Seq<char>, v: MetaModel) -> Seq<u8> {
    text_bytes(key) + bytes32(type_number(v)) + value_bytes(v)
}

/// The bytes of all entries.
pub open spec fn entries_bytes(e: Seq<(Seq<char>, MetaModel)>) -> Seq<u8>
    decreases e.len(),
{
    if e.len() == 0 {
        Seq::empty()
    } else {
        entry_bytes(e.first().0, e.first().1) + entries_bytes(e.drop_first())
    }
}

/// The entries by their keys; a later one stands for an earlier one with its key.
pub open spec fn entries_map(
    base: Map<Seq<char>, MetaModel>,
    e: Seq<(Seq<char>, MetaModel)>,
) -> Map<Seq<char>, MetaModel>
    decreases e.len(),
{
    if e.len() == 0 {
        base
    } else {
        entries_map(base.insert(e.first().0, e.first().1), e.drop_first())
    }
}

pub open spec fn entries_writable(e: Seq<(Seq<char>, MetaModel)>) -> bool {
    e.len() <= u64::MAX && forall|i: int|
        0 <= i < e.len() ==> encode_utf8((#[trigger] e[i]).0).len() <= u64::MAX && writable(e[i].1)
}

proof fn lemma_entries_read_back(
    d: Seq<u8>,
    p: int,
    e: Seq<(Seq<char>, MetaModel)>,
    base: Map<Seq<char>, MetaModel>,
)
    requires
        entries_writable(e),
        stands(d, p, entries_bytes(e)),
    ensures
        take_entries(d, p, e.len(), base) == Ok::<(Map<Seq<char>, MetaModel>, int), int>(
            (entries_map(base, e), p + entries_bytes(e).len()),
        ),
    decreases e.len(),
{
    if e.len() > 0 {
        let (key, v) = e.first();
        let rest = e.drop_first();
        assert(e[0] == (key, v));
        let (x, y, z) = (text_bytes(key), bytes32(type_number(v)), value_bytes(v));
        lemma_stands(d, p, x + y + z, entries_bytes(rest));
        lemma_stands(d, p, x + y, z);
        lemma_stands(d, p, x, y);
        law_text_reads_back(d, p, key);
        lemma_bytes32(d, p + x.len(), type_number(v));
        law_value_reads_back(d, p + x.len() + 4, v);
        assert forall|i: int| 0 <= i < rest.len() implies encode_utf8((#[trigger] rest[i]).0).len()
            <= u64::MAX && writable(rest[i].1) by {
            assert(rest[i] == e[i + 1]);
        }
        lemma_entries_read_back(
            d,
            p + entry_bytes(key, v).len(),
            rest,
            base.insert(key, v),
        );
    }
}

/// The bytes of a shape.
pub open spec fn dims_bytes(shape: Seq<u64>) -> Seq<u8>
    decreases shape.len(),
{
    if shape.len() == 0 {
        Seq::empty()
    } else {
        bytes64(shape.first()) + dims_bytes(shape.drop_first())
    }
}

proof fn lemma_dims_read_back(d: Seq<u8>, p: int, shape: Seq<u64>)
    requires
        stands(d, p, dims_bytes(shape)),
    ensures
        take_dims(d, p, shape.len()) == Ok::<(Seq<u64>, int), int>(
            (shape, p + dims_bytes(shape).len()),
        ),
    decreases shape.len(),
{
    if shape.len() > 0 {
        let (x, rest) = (shape.first(), shape.drop_first());
        lemma_stands(d, p, bytes64(x), dims_bytes(rest));
        lemma_bytes64(d, p, x);
        lemma_dims_read_back(d, p + 8, rest);
        assert(seq![x] + rest =~= shape);
    } else {
        assert(shape =~= Seq::empty());
    }
}

/// A tensor of the table: its name, the number of its dimensions, the dimensions, the number of its
/// type, the place of its data.
pub open spec fn tensor_bytes(t: TensorModel) -> Seq<u8> {
    text_bytes(t.name) + bytes32(t.shape.len() as u32) + dims_bytes(t.shape) + bytes32(t.dtype_id)
        + bytes64(t.offset)
}

pub open spec fn tensor_writable(t: TensorModel) -> bool {
    &&& encode_utf8(t.name).len() <= u64::MAX
    &&& t.shape.len() <= u32::MAX
    &&& dtype_of_id(t.dtype_id) == Some(t.dtype)
}

/// A tensor of the table reads back.
pub proof fn law_tensor_reads_back(d: Seq<u8>, p: int, t: TensorModel)
    requires
        tensor_writable(t),
        stands(d, p, tensor_bytes(t)),
    ensures
        take_tensor(d, p) == Ok::<(TensorModel, int), GgufFault>((t, p + tensor_bytes(t).len())),
{
    let (a, b, c, e, f) = (
        text_bytes(t.name),
        bytes32(t.shape.len() as u32),
        dims_bytes(t.shape),
        bytes32(t.dtype_id),
        bytes64(t.offset),
    );
    lemma_stands(d, p, a + b + c + e, f);
    lemma_stands(d, p, a + b + c, e);
    lemma_stands(d, p, a + b, c);
    lemma_stands(d, p, a, b);
    law_text_reads_back(d, p, t.name);
    let q = p + a.len();
    lemma_bytes32(d, q, t.shape.len() as u32);
    lemma_dims_read_back(d, q + 4, t.shape);
    let r = q + 4 + c.len();
    lemma_bytes32(d, r, t.dtype_id);
    lemma_bytes64(d, r + 4, t.offset);
}

/// The bytes of the tensor table.
pub open spec fn tensors_bytes(ts: Seq<TensorModel>) -> Seq<u8>
    decreases ts.len(),
{
    if ts.len() == 0 {
        Seq::empty()
    } else {
        tensor_bytes(ts.first()) + tensors_bytes(ts.drop_first())
    }
}

proof fn lemma_tensors_read_back(d: Seq<u8>, p: int, ts: Seq<TensorModel>)
    requires
        forall|i: int| 0 <= i < ts.len() ==> tensor_writable(#[trigger] ts[i]),
        stands(d, p, tensors_bytes(ts)),
    ensures
        take_tensors(d, p, ts.len()) == Ok::<(Seq<TensorModel>, int), GgufFault>(
            (ts, p + tensors_bytes(ts).len()),
        ),
    decreases ts.len(),
{
    if ts.len() > 0 {
        let (t, rest) = (ts.first(), ts.drop_first());
        assert(tensor_writable(ts[0]));
        lemma_stands(d, p, tensor_bytes(t), tensors_bytes(rest));
        law_tensor_reads_back(d, p, t);
        assert forall|i: int| 0 <= i < rest.len() implies tensor_writable(#[trigger] rest[i]) by {
            assert(rest[i] == ts[i + 1]);
        }
        lemma_tensors_read_back(d, p + tensor_bytes(t).len(), rest);
        assert(seq![t] + rest =~= ts);
    } else {
        assert(ts =~= Seq::empty());
    }
}

/// A header: the word `GGUF`, the version, how many tensors and how many entries there are, the entries,
/// the tensors.
pub open spec fn header_bytes(
    version: u32,
    e: Seq<(Seq<char>, MetaModel)>,
    ts: Seq<TensorModel>,
) -> Seq<u8> {
    seq![0x47u8, 0x47, 0x55, 0x46] + bytes32(version) + bytes64(ts.len() as u64) + bytes64(
        e.len() as u64,
    ) + entries_bytes(e) + tensors_bytes(ts)
}

/// Where the parts of a written header stand.
proof fn lemma_header_parts_stand(
    d: Seq<u8>,
    version: u32,
    e: Seq<(Seq<char>, MetaModel)>,
    ts: Seq<TensorModel>,
)
    requires
        stands(d, 0, header_bytes(version, e, ts)),
    ensures
        d.len() >= 24,
        d.take(4) == seq![0x47u8, 0x47, 0x55, 0x46],
        stands(d, 4, bytes32(version)),
        stands(d, 8, bytes64(ts.len() as u64)),
        stands(d, 16, bytes64(e.len() as u64)),
        stands(d, 24, entries_bytes(e)),
        stands(d, 24int + entries_bytes(e).len(), tensors_bytes(ts)),
        header_bytes(version, e, ts).len() == 24 + entries_bytes(e).len() + tensors_bytes(ts).len(),
{
    let (a, b, c, x, y, z) = (
        seq![0x47u8, 0x47, 0x55, 0x46],
        bytes32(version),
        bytes64(ts.len() as u64),
        bytes64(e.len() as u64),
        entries_bytes(e),
        tensors_bytes(ts),
    );
    assert(a.len() == 4 && b.len() == 4 && c.len() == 8 && x.len() == 8);
    lemma_stands(d, 0, a + b + c + x + y, z);
    lemma_stands(d, 0, a + b + c + x, y);
    lemma_stands(d, 0, a + b + c, x);
    lemma_stands(d, 0, a + b, c);
    lemma_stands(d, 0, a, b);
    assert(d.take(4) =~= d.subrange(0, 4));
}

/// A header reads back, whatever follows it: the version, every entry under its key, every tensor in
/// order.  The data begins directly behind the table in version 2, and in version 3 at the next multiple
/// of the alignment that the entries state, 32 where they state none.
#[verifier::spinoff_prover]
#[verifier::rlimit(60)]
pub proof fn law_header_reads_back(
    version: u32,
    e: Seq<(Seq<char>, MetaModel)>,
    ts: Seq<TensorModel>,
    rest: Seq<u8>,
    align: u32,
)
    requires
        version == 2 || version == 3,
        entries_writable(e),
        ts.len() <= u64::MAX,
        forall|i: int| 0 <= i < ts.len() ==> tensor_writable(#[trigger] ts[i]),
        align > 0,
        ({
            let m = entries_map(Map::empty(), e);
            &&& m.contains_key("general.alignment"@) ==> m["general.alignment"@] == MetaModel::U32(
                align,
            )
            &&& !m.contains_key("general.alignment"@) ==> align == 32
        }),
    ensures
        ({
            let end = header_bytes(version, e, ts).len() as int;
            &&& parse_header(header_bytes(version, e, ts) + rest) matches Ok(m)
            &&& m.version == version
            &&& m.metadata == entries_map(Map::empty(), e)
            &&& m.tensors == ts
            &&& m.alignment == align
            &&& version == 2 ==> m.data_offset == end
            &&& version == 3 ==> end <= m.data_offset < end + align && m.data_offset % align as int
                == 0
        }),
{
    let h = header_bytes(version, e, ts);
    let d = h + rest;
    assert(d.subrange(0, h.len() as int) =~= h);
    lemma_header_parts_stand(d, version, e, ts);
    lemma_bytes32(d, 4, version);
    lemma_bytes64(d, 8, ts.len() as u64);
    lemma_bytes64(d, 16, e.len() as u64);
    lemma_entries_read_back(d, 24, e, Map::empty());
    lemma_tensors_read_back(d, 24 + entries_bytes(e).len() as int, ts);
    let end = h.len() as int;
    lemma_round_up(end, align as int);
}

proof fn lemma_round_up(end: int, n: int)
    requires
        0 <= end,
        0 < n,
    ensures
        round_up(end, n) % n == 0,
        end <= round_up(end, n) < end + n,
{
    lemma_mod_bound(end, n);
    lemma_fundamental_div_mod(end, n);
    if end % n == 0 {
        lemma_mod_self_0(n);
    } else {
        lemma_small_mod((n - end % n) as nat, n as nat);
        let q = end / n;
        assert(end + (n - end % n) == (q + 1) * n) by (nonlinear_arith)
            requires
                end == n * q + end % n,
        {
        }
        lemma_mod_multiples_basic(q + 1, n);
    }
}

} // verus!
