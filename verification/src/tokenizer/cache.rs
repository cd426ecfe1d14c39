//! A bounded memory of earlier results.
use std::collections::{HashMap, VecDeque};

use vstd::prelude::*;

use crate::text::same_chars;

verus! {

broadcast use vstd::std_specs::hash::group_hash_axioms;

struct EncodeItem {
    text: Vec<char>,
    add_bos: bool,
    ids: Vec<u32>,
}

struct DecodeItem {
    ids: Vec<u32>,
    text: String,
}

/// Encodings and decodings that were computed before, oldest first out.
pub struct TokenCache {
    encodings: HashMap<u64, EncodeItem>,
    decodings: HashMap<u64, DecodeItem>,
    order: VecDeque<u64>,
    capacity: usize,
}

/// One step of the hash.
spec fn mix(h: u64, x: u32) -> u64 {
    (h ^ (x as u64)).wrapping_mul(0x100_0000_01b3)
}

spec fn hash_words(seed: u64, s: Seq<u32>) -> u64
    decreases s.len(),
{
    if s.len() == 0 {
        seed
    } else {
        mix(hash_words(seed, s.drop_last()), s.last())
    }
}

/// The key of a text to encode.
spec fn text_key(text: Seq<char>, add_bos: bool) -> u64 {
    let words = text.map_values(|c: char| c as u32);
    mix(
        hash_words(0xcbf2_9ce4_8422_2325, words),
        if add_bos {
            1
        } else {
            0
        },
    )
}

/// The key of a token sequence to decode.
spec fn ids_key(ids: Seq<u32>) -> u64 {
    hash_words(0x9ae1_6a3b_2f90_404f, ids)
}

fn cache_key(text: &[char], add_bos: bool) -> (r: u64)
    ensures
        r == text_key(text@, add_bos),
{
    let ghost words = text@.map_values(|c: char| c as u32);
    let mut h: u64 = 0xcbf2_9ce4_8422_2325;
    let mut i: usize = 0;
    assert(words.take(0).len() == 0);
    while i < text.len()
        invariant
            i <= text@.len(),
            words == text@.map_values(|c: char| c as u32),
            h == hash_words(0xcbf2_9ce4_8422_2325, words.take(i as int)),
        decreases text@.len() - i,
    {
        assert(words.take(i + 1).drop_last() =~= words.take(i as int));
        h = (h ^ (text[i] as u32 as u64)).wrapping_mul(0x100_0000_01b3);
        i += 1;
    }
    assert(words.take(i as int) =~= words);
    let flag: u32 = if add_bos { 1 } else { 0 };
    (h ^ (flag as u64)).wrapping_mul(0x100_0000_01b3)
}

fn decode_key(ids: &[u32]) -> (r: u64)
    ensures
        r == ids_key(ids@),
{
    let mut h: u64 = 0x9ae1_6a3b_2f90_404f;
    let mut i: usize = 0;
    assert(ids@.take(0).len() == 0);
    while i < ids.len()
        invariant
            i <= ids@.len(),
            h == hash_words(0x9ae1_6a3b_2f90_404f, ids@.take(i as int)),
        decreases ids@.len() - i,
    {
        assert(ids@.take(i + 1).drop_last() =~= ids@.take(i as int));
        h = (h ^ (ids[i] as u64)).wrapping_mul(0x100_0000_01b3);
        i += 1;
    }
    assert(ids@.take(i as int) =~= ids@);
    h
}

/// Whether two token sequences are equal.
pub fn same_ids(a: &[u32], b: &[u32]) -> (r: bool)
    ensures
        r == (a@ == b@),
{
    if a.len() != b.len() {
        return false;
    }
    let mut i: usize = 0;
    while i < a.len()
        invariant
            i <= a@.len(),
            a@.len() == b@.len(),
            forall|k: int| 0 <= k < i ==> a@[k] == b@[k],
        decreases a@.len() - i,
    {
        if a[i] != b[i] {
            return false;
        }
        i += 1;
    }
    assert(a@ =~= b@);
    true
}

/// A copy of a token sequence.
pub fn copy_ids(a: &[u32]) -> (r: Vec<u32>)
    ensures
        r@ == a@,
{
    vstd::slice::slice_to_vec(a)
}

impl TokenCache {
    /// The encoding that is remembered for a text.
    pub closed spec fn encoding_of(&self, text: Seq<char>, add_bos: bool) -> Option<Seq<u32>> {
        let key = text_key(text, add_bos);
        if self.encodings@.contains_key(key) && self.encodings@[key].text@ == text
            && self.encodings@[key].add_bos == add_bos {
            Some(self.encodings@[key].ids@)
        } else {
            None
        }
    }

    /// The decoding that is remembered for a token sequence.
    pub closed spec fn decoding_of(&self, ids: Seq<u32>) -> Option<Seq<char>> {
        let key = ids_key(ids);
        if self.decodings@.contains_key(key) && self.decodings@[key].ids@ == ids {
            Some(self.decodings@[key].text@)
        } else {
            None
        }
    }

    /// Every remembered result is in line to be forgotten, and the line has a bounded length.
    pub closed spec fn wf(&self) -> bool {
        &&& self.order@.len() <= self.limit()
        &&& forall|k: u64|
            #[trigger] self.encodings@.contains_key(k) ==> self.order@.contains(k)
        &&& forall|k: u64|
            #[trigger] self.decodings@.contains_key(k) ==> self.order@.contains(k)
    }

    /// The most results of one sort that can be remembered.
    pub closed spec fn limit(&self) -> nat {
        if self.capacity == 0 {
            1
        } else {
            self.capacity as nat
        }
    }

    pub closed spec fn encoding_count(&self) -> nat {
        self.encodings@.dom().len()
    }

    pub closed spec fn decoding_count(&self) -> nat {
        self.decodings@.dom().len()
    }

    /// A memory for 256 results.
    pub fn new() -> (r: Self)
        ensures
            r.wf(),
            r.limit() == 256,
            forall|t: Seq<char>, b: bool| r.encoding_of(t, b) is None,
            forall|i: Seq<u32>| r.decoding_of(i) is None,
    {
        TokenCache {
            encodings: HashMap::new(),
            decodings: HashMap::new(),
            order: VecDeque::new(),
            capacity: 256,
        }
    }

    pub fn cache_get(&self, text: &[char], add_bos: bool) -> (r: Option<Vec<u32>>)
        ensures
            match r {
                Some(ids) => self.encoding_of(text@, add_bos) == Some(ids@),
                None => self.encoding_of(text@, add_bos) is None,
            },
    {
        let key: u64 = cache_key(text, add_bos);
        match self.encodings.get(&key) {
            Some(item) => if item.add_bos == add_bos && same_chars(item.text.as_slice(), text) {
                Some(copy_ids(item.ids.as_slice()))
            } else {
                None
            },
            None => None,
        }
    }

    pub fn decode_get(&self, ids: &[u32]) -> (r: Option<String>)
        ensures
            match r {
                Some(text) => self.decoding_of(ids@) == Some(text@),
                None => self.decoding_of(ids@) is None,
            },
    {
        let key: u64 = decode_key(ids);
        match self.decodings.get(&key) {
            Some(item) => if same_ids(item.ids.as_slice(), ids) {
                Some(item.text.clone())
            } else {
                None
            },
            None => None,
        }
    }

    /// Makes room for one result and puts `key` last in line.
    fn admit_key(&mut self, key: u64)
        requires
            old(self).wf(),
        ensures
            final(self).wf(),
            final(self).order@.contains(key),
            final(self).capacity == old(self).capacity,
            forall|k: u64| #[trigger]
                final(self).encodings@.contains_key(k) ==> old(self).encodings@.contains_key(k)
                    && final(self).encodings@[k] == old(self).encodings@[k],
            forall|k: u64| #[trigger]
                final(self).decodings@.contains_key(k) ==> old(self).decodings@.contains_key(k)
                    && final(self).decodings@[k] == old(self).decodings@[k],
    {
        let ghost order0 = self.order@;
        if self.order.len() >= self.capacity {
            if let Some(oldest) = self.order.pop_front() {
                self.encodings.remove(&oldest);
                self.decodings.remove(&oldest);
                proof {
                    assert forall|k: u64|
                        order0.contains(k) && k != oldest implies self.order@.contains(k) by {
                        let i = choose|i: int| 0 <= i < order0.len() && order0[i] == k;
                        assert(self.order@[i - 1] == k);
                    }
                }
            }
        }
        let ghost order1 = self.order@;
        self.order.push_back(key);
        proof {
            assert(self.order@[order1.len() as int] == key);
            assert forall|k: u64| order1.contains(k) implies self.order@.contains(k) by {
                let i = choose|i: int| 0 <= i < order1.len() && order1[i] == k;
                assert(self.order@[i] == k);
            }
        }
    }

    /// Remembers an encoding.
    pub fn cache_set(&mut self, text: &[char], add_bos: bool, ids: Vec<u32>)
        requires
            old(self).wf(),
        ensures
            final(self).wf(),
            final(self).limit() == old(self).limit(),
            final(self).encoding_of(text@, add_bos) == Some(ids@),
            forall|t: Seq<char>, b: bool|
                (t, b) != (text@, add_bos) && (#[trigger] final(self).encoding_of(t, b)) is Some
                    ==> final(self).encoding_of(t, b) == old(self).encoding_of(t, b),
            forall|i: Seq<u32>| (#[trigger]
                final(self).decoding_of(i)) is Some ==> final(self).decoding_of(i) == old(self).decoding_of(i),
    {
        let key: u64 = cache_key(text, add_bos);
        self.admit_key(key);
        let copy = vstd::slice::slice_to_vec(text);
        self.encodings.insert(key, EncodeItem { text: copy, add_bos, ids });
    }

    /// Remembers a decoding.
    pub fn decode_set(&mut self, ids: &[u32], text: String)
        requires
            old(self).wf(),
        ensures
            final(self).wf(),
            final(self).limit() == old(self).limit(),
            final(self).decoding_of(ids@) == Some(text@),
            forall|i: Seq<u32>|
                i != ids@ && (#[trigger] final(self).decoding_of(i)) is Some ==> final(self).decoding_of(i) == old(self).decoding_of(i),
            forall|t: Seq<char>, b: bool|
                (#[trigger] final(self).encoding_of(t, b)) is Some ==> final(self).encoding_of(t, b)
                    == old(self).encoding_of(t, b),
    {
        let key: u64 = decode_key(ids);
        self.admit_key(key);
        let copy = copy_ids(ids);
        self.decodings.insert(key, DecodeItem { ids: copy, text });
    }
}

/// However many results pass through, at most `limit` encodings and as many decodings are
/// remembered.
pub proof fn law_cache_is_bounded(c: TokenCache)
    requires
        c.wf(),
    ensures
        c.encoding_count() <= c.limit(),
        c.decoding_count() <= c.limit(),
{
    let line = c.order@.to_set();
    c.order@.lemma_cardinality_of_set();
    vstd::seq_lib::seq_to_set_is_finite(c.order@);
    assert(c.encodings@.dom().subset_of(line));
    assert(c.decodings@.dom().subset_of(line));
    vstd::set_lib::lemma_len_subset(c.encodings@.dom(), line);
    vstd::set_lib::lemma_len_subset(c.decodings@.dom(), line);
}

} // verus!
