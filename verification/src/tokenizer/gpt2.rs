//! The byte alphabet of GPT-2 style vocabularies.
//!
//! Such vocabularies spell raw bytes with printable characters: a byte that is printable in
//! Latin-1 stands for itself, and the others take the code points from U+0100 on, in order.
use vstd::prelude::*;

use crate::gguf::reader::{lossy_text, text_of_bytes};

verus! {

/// Bytes that stand for themselves.
pub open spec fn stands_for_itself(b: int) -> bool {
    33 <= b <= 126 || 161 <= b <= 172 || 174 <= b <= 255
}

/// How many bytes below `b` do not stand for themselves.
pub open spec fn others_below(b: int) -> int
    decreases b,
{
    if b <= 0 {
        0
    } else {
        others_below(b - 1) + if stands_for_itself(b - 1) {
            0int
        } else {
            1
        }
    }
}

/// The character that spells a byte.
pub open spec fn byte_char(b: u8) -> char {
    if stands_for_itself(b as int) {
        b as char
    } else {
        (256 + others_below(b as int)) as u32 as char
    }
}

/// The byte that a character spells.  Plain ASCII outside the alphabet is taken as it is, and any
/// other character spells nothing.
pub open spec fn char_byte(c: char) -> Option<u8> {
    let u = c as u32;
    if stands_for_itself(u as int) {
        Some(u as u8)
    } else if 256 <= u <= 288 {
        Some((u - 256) as u8)
    } else if 289 <= u <= 322 {
        Some((u - 162) as u8)
    } else if u == 323 {
        Some(173u8)
    } else if u < 128 {
        Some(u as u8)
    } else {
        None
    }
}

/// The bytes that a string spells.
pub open spec fn spelled_bytes(s: Seq<char>) -> Seq<u8>
    decreases s.len(),
{
    if s.len() == 0 {
        Seq::empty()
    } else {
        match char_byte(s.last()) {
            Some(b) => spelled_bytes(s.drop_last()).push(b),
            None => spelled_bytes(s.drop_last()),
        }
    }
}

/// The text that a string spells.
pub open spec fn spelled_text(s: Seq<char>) -> Seq<char> {
    lossy_text(spelled_bytes(s))
}

/// The spelling of a byte sequence.
pub open spec fn spelling(bytes: Seq<u8>) -> Seq<char> {
    bytes.map_values(|b: u8| byte_char(b))
}

fn byte_of(c: char) -> (r: Option<u8>)
    ensures
        r == char_byte(c),
{
    let u: u32 = c as u32;
    if (33 <= u && u <= 126) || (161 <= u && u <= 172) || (174 <= u && u <= 255) {
        Some(u as u8)
    } else if 256 <= u && u <= 288 {
        Some((u - 256) as u8)
    } else if 289 <= u && u <= 322 {
        Some((u - 162) as u8)
    } else if u == 323 {
        Some(173)
    } else if u < 128 {
        Some(u as u8)
    } else {
        None
    }
}

/// The bytes that `s` spells.
pub fn gpt2_bytes(s: &str) -> (r: Vec<u8>)
    ensures
        r@ == spelled_bytes(s@),
{
    let mut bytes: Vec<u8> = Vec::new();
    assert(s@.take(0).len() == 0);
    for c in it: s.chars()
        invariant
            it.seq() == s@,
            bytes@ == spelled_bytes(s@.take(it.index() as int)),
    {
        proof {
            let k = it.index() as int;
            assert(s@.take(k + 1).drop_last() =~= s@.take(k));
            assert(s@.take(k + 1).last() == s@[k]);
        }
        if let Some(b) = byte_of(c) {
            bytes.push(b);
        }
    }
    assert(s@.take(s@.len() as int) =~= s@);
    bytes
}

/// The text that `s` spells, with replacement characters where its bytes are not UTF-8.
pub fn gpt2_decode(s: &str) -> (r: String)
    ensures
        r@ == spelled_text(s@),
{
    let bytes = gpt2_bytes(s);
    text_of_bytes(bytes.as_slice())
}

/// Reading undoes spelling, byte by byte.
pub proof fn law_byte_survives_spelling(b: u8)
    ensures
        char_byte(byte_char(b)) == Some(b),
{
    lemma_others(b as int);
}

proof fn lemma_others(b: int)
    requires
        0 <= b <= 256,
    ensures
        others_below(b) == if b <= 33 {
            b
        } else if b <= 127 {
            33
        } else if b <= 161 {
            b - 94
        } else if b <= 173 {
            67
        } else {
            68
        },
    decreases b,
{
    if b > 0 {
        lemma_others(b - 1);
    }
}

/// Reading undoes spelling: any byte sequence comes back.
pub proof fn law_bytes_survive_spelling(bytes: Seq<u8>)
    ensures
        spelled_bytes(spelling(bytes)) == bytes,
    decreases bytes.len(),
{
    if bytes.len() > 0 {
        law_bytes_survive_spelling(bytes.drop_last());
        law_byte_survives_spelling(bytes.last());
        assert(spelling(bytes).drop_last() =~= spelling(bytes.drop_last()));
        assert(bytes.drop_last().push(bytes.last()) =~= bytes);
    }
}

/// Different bytes have different spellings.
pub proof fn law_spelling_is_one_to_one(a: u8, b: u8)
    requires
        byte_char(a) == byte_char(b),
    ensures
        a == b,
{
    law_byte_survives_spelling(a);
    law_byte_survives_spelling(b);
}

/// What two strings spell in a row is what they spell together.
pub proof fn law_spelling_concatenates(a: Seq<char>, b: Seq<char>)
    ensures
        spelled_bytes(a + b) == spelled_bytes(a) + spelled_bytes(b),
    decreases b.len(),
{
    if b.len() == 0 {
        assert(a + b =~= a);
        assert(spelled_bytes(a) + Seq::<u8>::empty() =~= spelled_bytes(a));
    } else {
        law_spelling_concatenates(a, b.drop_last());
        assert((a + b).drop_last() =~= a + b.drop_last());
        assert((a + b).last() == b.last());
        if let Some(x) = char_byte(b.last()) {
            assert((spelled_bytes(a) + spelled_bytes(b.drop_last())).push(x) =~= spelled_bytes(a)
                + spelled_bytes(b.drop_last()).push(x));
        }
    }
}

} // verus!
