//! Little-endian reading from a byte buffer.
//!
//! A read either yields a value and moves behind it, or stops at the position at which the buffer
//! was too short and fails with that position.
use vstd::prelude::*;
use vstd::utf8::{decode_utf8, valid_utf8};

use crate::gguf::meta::{lemma_array_model, models_of, MetaModel, MetaValue};
use crate::text::{concat3, decimal, decimal_string};

verus! {

/// What `String::from_utf8_lossy` makes of a byte sequence.
pub uninterp spec fn utf8_lossy(bytes: Seq<u8>) -> Seq<char>;

/// `String::from_utf8_lossy`: the text of `bytes`, with replacement characters where they are not
/// UTF-8.  Which characters those are is not stated; well-formed bytes decode to their text.
#[verifier::external_body]
fn lossy_string(bytes: &[u8]) -> (r: String)
    ensures
        r@ == utf8_lossy(bytes@),
        valid_utf8(bytes@) ==> r@ == decode_utf8(bytes@),
{
    String::from_utf8_lossy(bytes).into_owned()
}

/// The text of a byte sequence: decoded where it is UTF-8, with replacement characters elsewhere.
pub open spec fn lossy_text(bytes: Seq<u8>) -> Seq<char> {
    if valid_utf8(bytes) {
        decode_utf8(bytes)
    } else {
        utf8_lossy(bytes)
    }
}

/// The text of a byte sequence.
pub fn text_of_bytes(bytes: &[u8]) -> (r: String)
    ensures
        r@ == lossy_text(bytes@),
{
    lossy_string(bytes)
}

pub open spec fn le16(d: Seq<u8>, p: int) -> u16 {
    (d[p] + 0x100 * d[p + 1]) as u16
}

pub open spec fn le32(d: Seq<u8>, p: int) -> u32 {
    (d[p] + 0x100 * d[p + 1] + 0x1_0000 * d[p + 2] + 0x100_0000 * d[p + 3]) as u32
}

pub open spec fn le64(d: Seq<u8>, p: int) -> u64 {
    (le32(d, p) + 0x1_0000_0000 * le32(d, p + 4)) as u64
}

/// `n` bytes are left at `p`.
pub open spec fn left(d: Seq<u8>, p: int, n: int) -> bool {
    p + n <= d.len()
}

pub open spec fn take_u8(d: Seq<u8>, p: int) -> Result<(u8, int), int> {
    if left(d, p, 1) {
        Ok((d[p], p + 1))
    } else {
        Err(p)
    }
}

pub open spec fn take_u16(d: Seq<u8>, p: int) -> Result<(u16, int), int> {
    if left(d, p, 2) {
        Ok((le16(d, p), p + 2))
    } else {
        Err(p)
    }
}

pub open spec fn take_u32(d: Seq<u8>, p: int) -> Result<(u32, int), int> {
    if left(d, p, 4) {
        Ok((le32(d, p), p + 4))
    } else {
        Err(p)
    }
}

pub open spec fn take_u64(d: Seq<u8>, p: int) -> Result<(u64, int), int> {
    if left(d, p, 8) {
        Ok((le64(d, p), p + 8))
    } else {
        Err(p)
    }
}

/// A length as `u64`, then that many bytes of text.
pub open spec fn take_text(d: Seq<u8>, p: int) -> Result<(Seq<char>, int), int> {
    match take_u64(d, p) {
        Err(e) => Err(e),
        Ok((n, q)) => if left(d, q, n as int) {
            Ok((lossy_text(d.subrange(q, q + n)), q + n))
        } else {
            Err(q)
        },
    }
}

/// The text that stands for a value of an unknown type.
pub open spec fn unknown_text(type_id: u32) -> Seq<char> {
    "<unknown_type_"@ + decimal(type_id as nat) + ">"@
}

/// A metadata value of the given type.  A value of an unknown type takes no bytes.
pub open spec fn take_value(d: Seq<u8>, p: int, type_id: u32) -> Result<(MetaModel, int), int>
    decreases d.len() - p, 0nat,
{
    match type_id {
        0u32 => match take_u8(d, p) {
            Ok((x, q)) => Ok((MetaModel::U8(x), q)),
            Err(e) => Err(e),
        },
        1u32 => match take_u8(d, p) {
            Ok((x, q)) => Ok((MetaModel::I8(x as i8), q)),
            Err(e) => Err(e),
        },
        2u32 => match take_u16(d, p) {
            Ok((x, q)) => Ok((MetaModel::U16(x), q)),
            Err(e) => Err(e),
        },
        3u32 => match take_u16(d, p) {
            Ok((x, q)) => Ok((MetaModel::I16(x as i16), q)),
            Err(e) => Err(e),
        },
        4u32 => match take_u32(d, p) {
            Ok((x, q)) => Ok((MetaModel::U32(x), q)),
            Err(e) => Err(e),
        },
        5u32 => match take_u32(d, p) {
            Ok((x, q)) => Ok((MetaModel::I32(x as i32), q)),
            Err(e) => Err(e),
        },
        6u32 => match take_u32(d, p) {
            Ok((x, q)) => Ok((MetaModel::F32(x), q)),
            Err(e) => Err(e),
        },
        7u32 => match take_u8(d, p) {
            Ok((x, q)) => Ok((MetaModel::Bool(x != 0), q)),
            Err(e) => Err(e),
        },
        8u32 => match take_text(d, p) {
            Ok((x, q)) => Ok((MetaModel::Text(x), q)),
            Err(e) => Err(e),
        },
        9u32 => if !left(d, p, 4) {
            Err(p)
        } else if !left(d, p + 4, 8) {
            Err(p + 4)
        } else {
            match take_values(d, p + 12, le32(d, p), le64(d, p + 4) as nat) {
                Ok((items, q)) => Ok((MetaModel::Array(le32(d, p), items), q)),
                Err(e) => Err(e),
            }
        },
        10u32 => match take_u64(d, p) {
            Ok((x, q)) => Ok((MetaModel::U64(x), q)),
            Err(e) => Err(e),
        },
        11u32 => match take_u64(d, p) {
            Ok((x, q)) => Ok((MetaModel::I64(x as i64), q)),
            Err(e) => Err(e),
        },
        12u32 => match take_u64(d, p) {
            Ok((x, q)) => Ok((MetaModel::F64(x), q)),
            Err(e) => Err(e),
        },
        _ => Ok((MetaModel::Text(unknown_text(type_id)), p)),
    }
}

/// `n` values of the given type, one after the other.
pub open spec fn take_values(d: Seq<u8>, p: int, type_id: u32, n: nat) -> Result<
    (Seq<MetaModel>, int),
    int,
>
    decreases d.len() - p, n + 1,
{
    if n == 0 {
        Ok((Seq::empty(), p))
    } else {
        match take_value(d, p, type_id) {
            Err(e) => Err(e),
            Ok((v, q)) => if !(p <= q <= d.len()) {
                // Reading never moves back, nor past the end.
                Err(p)
            } else {
                match take_values(d, q, type_id, (n - 1) as nat) {
                    Err(e) => Err(e),
                    Ok((vs, r)) => Ok((seq![v] + vs, r)),
                }
            },
        }
    }
}

pub fn read_u8(data: &[u8], pos: &mut usize) -> (r: Result<u8, usize>)
    ensures
        *old(pos) <= data@.len() ==> *final(pos) <= data@.len(),
        match r {
            Ok(x) => take_u8(data@, *old(pos) as int) == Ok::<(u8, int), int>(
                (x, *final(pos) as int),
            ),
            Err(e) => e == *final(pos) && take_u8(data@, *old(pos) as int) == Err::<(u8, int), int>(
                e as int,
            ),
        },
{
    if *pos > data.len() || data.len() - *pos < 1 {
        return Err(*pos);
    }
    let x: u8 = data[*pos];
    *pos += 1;
    Ok(x)
}

pub fn read_u16(data: &[u8], pos: &mut usize) -> (r: Result<u16, usize>)
    ensures
        *old(pos) <= data@.len() ==> *final(pos) <= data@.len(),
        match r {
            Ok(x) => take_u16(data@, *old(pos) as int) == Ok::<(u16, int), int>(
                (x, *final(pos) as int),
            ),
            Err(e) => e == *final(pos) && take_u16(data@, *old(pos) as int) == Err::<(u16, int), int>(
                e as int,
            ),
        },
{
    if *pos > data.len() || data.len() - *pos < 2 {
        return Err(*pos);
    }
    let p: usize = *pos;
    let x: u16 = data[p] as u16 + 0x100 * data[p + 1] as u16;
    *pos += 2;
    Ok(x)
}

/// The four bytes at `p` as a number.
pub fn word_at(data: &[u8], p: usize) -> (r: u32)
    requires
        p + 4 <= data@.len(),
    ensures
        r == le32(data@, p as int),
{
    assert(p + 4 <= data.len());
    data[p] as u32 + 0x100 * data[p + 1] as u32 + 0x1_0000 * data[p + 2] as u32 + 0x100_0000
        * data[p + 3] as u32
}

pub fn read_u32(data: &[u8], pos: &mut usize) -> (r: Result<u32, usize>)
    ensures
        *old(pos) <= data@.len() ==> *final(pos) <= data@.len(),
        match r {
            Ok(x) => take_u32(data@, *old(pos) as int) == Ok::<(u32, int), int>(
                (x, *final(pos) as int),
            ),
            Err(e) => e == *final(pos) && take_u32(data@, *old(pos) as int) == Err::<(u32, int), int>(
                e as int,
            ),
        },
{
    if *pos > data.len() || data.len() - *pos < 4 {
        return Err(*pos);
    }
    let x: u32 = word_at(data, *pos);
    *pos += 4;
    Ok(x)
}

pub fn read_u64(data: &[u8], pos: &mut usize) -> (r: Result<u64, usize>)
    ensures
        *old(pos) <= data@.len() ==> *final(pos) <= data@.len(),
        match r {
            Ok(x) => take_u64(data@, *old(pos) as int) == Ok::<(u64, int), int>(
                (x, *final(pos) as int),
            ),
            Err(e) => e == *final(pos) && take_u64(data@, *old(pos) as int) == Err::<(u64, int), int>(
                e as int,
            ),
        },
{
    if *pos > data.len() || data.len() - *pos < 8 {
        return Err(*pos);
    }
    let low: u32 = word_at(data, *pos);
    let high: u32 = word_at(data, *pos + 4);
    *pos += 8;
    Ok(low as u64 + 0x1_0000_0000 * high as u64)
}

/// A 32-bit value read as two's complement.
pub fn read_i32(data: &[u8], pos: &mut usize) -> (r: Result<i32, usize>)
    ensures
        *old(pos) <= data@.len() ==> *final(pos) <= data@.len(),
        match r {
            Ok(x) => take_u32(data@, *old(pos) as int) matches Ok((u, q)) && x == u as i32 && q
                == *final(pos),
            Err(e) => e == *final(pos) && take_u32(data@, *old(pos) as int) == Err::<(u32, int), int>(
                e as int,
            ),
        },
{
    match read_u32(data, pos) {
        Ok(u) => Ok(
            #[verifier::truncate]
            (u as i32),
        ),
        Err(e) => Err(e),
    }
}

/// A 64-bit value read as two's complement.
pub fn read_i64(data: &[u8], pos: &mut usize) -> (r: Result<i64, usize>)
    ensures
        *old(pos) <= data@.len() ==> *final(pos) <= data@.len(),
        match r {
            Ok(x) => take_u64(data@, *old(pos) as int) matches Ok((u, q)) && x == u as i64 && q
                == *final(pos),
            Err(e) => e == *final(pos) && take_u64(data@, *old(pos) as int) == Err::<(u64, int), int>(
                e as int,
            ),
        },
{
    match read_u64(data, pos) {
        Ok(u) => Ok(
            #[verifier::truncate]
            (u as i64),
        ),
        Err(e) => Err(e),
    }
}

pub fn read_string(data: &[u8], pos: &mut usize) -> (r: Result<String, usize>)
    ensures
        *old(pos) <= data@.len() ==> *final(pos) <= data@.len(),
        match r {
            Ok(s) => take_text(data@, *old(pos) as int) == Ok::<(Seq<char>, int), int>(
                (s@, *final(pos) as int),
            ),
            Err(e) => e == *final(pos) && take_text(data@, *old(pos) as int) == Err::<(Seq<char>, int), int>(
                e as int,
            ),
        },
{
    let n: u64 = match read_u64(data, pos) {
        Ok(n) => n,
        Err(e) => return Err(e),
    };
    if n > (data.len() - *pos) as u64 {
        return Err(*pos);
    }
    let from: usize = *pos;
    let to: usize = from + n as usize;
    let s = text_of_bytes(vstd::slice::slice_subrange(data, from, to));
    *pos = to;
    Ok(s)
}

/// A result and position agree with a read of the model.
pub open spec fn value_read(
    r: Result<MetaValue, usize>,
    pos: int,
    model: Result<(MetaModel, int), int>,
) -> bool {
    match r {
        Ok(v) => model == Ok::<(MetaModel, int), int>((v@, pos)),
        Err(e) => e == pos && model == Err::<(MetaModel, int), int>(e as int),
    }
}

pub fn read_meta_value(data: &[u8], pos: &mut usize, type_id: u32) -> (r: Result<MetaValue, usize>)
    ensures
        *old(pos) <= data@.len() ==> *final(pos) <= data@.len(),
        r is Ok ==> *old(pos) <= *final(pos),
        value_read(r, *final(pos) as int, take_value(data@, *old(pos) as int, type_id)),
    decreases data@.len() - *old(pos),
{
    match type_id {
        0 => match read_u8(data, pos) {
            Ok(x) => Ok(MetaValue::U8(x)),
            Err(e) => Err(e),
        },
        1 => match read_u8(data, pos) {
            Ok(x) => Ok(
                MetaValue::I8(
                    #[verifier::truncate]
                    (x as i8),
                ),
            ),
            Err(e) => Err(e),
        },
        2 => match read_u16(data, pos) {
            Ok(x) => Ok(MetaValue::U16(x)),
            Err(e) => Err(e),
        },
        3 => match read_u16(data, pos) {
            Ok(x) => Ok(
                MetaValue::I16(
                    #[verifier::truncate]
                    (x as i16),
                ),
            ),
            Err(e) => Err(e),
        },
        4 => match read_u32(data, pos) {
            Ok(x) => Ok(MetaValue::U32(x)),
            Err(e) => Err(e),
        },
        5 => match read_i32(data, pos) {
            Ok(x) => Ok(MetaValue::I32(x)),
            Err(e) => Err(e),
        },
        6 => match read_u32(data, pos) {
            Ok(x) => Ok(MetaValue::F32(x)),
            Err(e) => Err(e),
        },
        7 => match read_u8(data, pos) {
            Ok(x) => Ok(MetaValue::Bool(x != 0)),
            Err(e) => Err(e),
        },
        8 => match read_string(data, pos) {
            Ok(x) => Ok(MetaValue::String(x)),
            Err(e) => Err(e),
        },
        9 => {
            let elem_type: u32 = match read_u32(data, pos) {
                Ok(x) => x,
                Err(e) => return Err(e),
            };
            let count: u64 = match read_u64(data, pos) {
                Ok(x) => x,
                Err(e) => return Err(e),
            };
            let ghost start = *pos as int;
            let ghost whole = take_values(data@, start, elem_type, count as nat);
            let mut items: Vec<MetaValue> = Vec::new();
            let mut i: u64 = 0;
            proof {
                match whole {
                    Ok((vs, q)) => assert(models_of(items@) + vs =~= vs),
                    Err(e) => {},
                }
            }
            while i < count
                invariant
                    type_id == 9,
                    i <= count,
                    *old(pos) + 12 <= start <= *pos <= data@.len(),
                    whole == match take_values(
                        data@,
                        *pos as int,
                        elem_type,
                        (count - i) as nat,
                    ) {
                        Ok((vs, q)) => Ok::<(Seq<MetaModel>, int), int>(
                            (models_of(items@) + vs, q),
                        ),
                        Err(e) => Err(e),
                    },
                    whole == take_values(data@, start, elem_type, count as nat),
                    take_value(data@, *old(pos) as int, 9) == match whole {
                        Ok((vs, q)) => Ok::<(MetaModel, int), int>(
                            (MetaModel::Array(elem_type, vs), q),
                        ),
                        Err(e) => Err(e),
                    },
                decreases count - i,
            {
                let ghost at = *pos as int;
                let ghost done = models_of(items@);
                match read_meta_value(data, pos, elem_type) {
                    Ok(v) => {
                        items.push(v);
                        proof {
                            assert(models_of(items@) =~= done.push(v@));
                            match take_values(
                                data@,
                                *pos as int,
                                elem_type,
                                (count - i - 1) as nat,
                            ) {
                                Ok((vs, q)) => assert(done + (seq![v@] + vs) =~= models_of(items@)
                                    + vs),
                                Err(e) => {},
                            }
                        }
                    },
                    Err(e) => return Err(e),
                }
                i += 1;
            }
            proof {
                assert(models_of(items@) + Seq::<MetaModel>::empty() =~= models_of(items@));
                lemma_array_model(elem_type, items);
            }
            Ok(MetaValue::Array(elem_type, items))
        },
        10 => match read_u64(data, pos) {
            Ok(x) => Ok(MetaValue::U64(x)),
            Err(e) => Err(e),
        },
        11 => match read_i64(data, pos) {
            Ok(x) => Ok(MetaValue::I64(x)),
            Err(e) => Err(e),
        },
        12 => match read_u64(data, pos) {
            Ok(x) => Ok(MetaValue::F64(x)),
            Err(e) => Err(e),
        },
        _ => {
            let number = decimal_string(type_id as u64);
            Ok(MetaValue::String(concat3("<unknown_type_", number.as_str(), ">")))
        },
    }
}

} // verus!
