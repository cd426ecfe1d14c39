//! The tokenizer: text to token ids and back, and chat prompts.
use std::collections::HashMap;

use vstd::hash_map::StringHashMap;
use vstd::prelude::*;
use vstd::utf8::{encode_utf8, is_ascii_chars};

use crate::text::{
    chars_of, find, find_chars_from, has_prefix, lemma_find_from, occurs_chars_at, sub_vec,
};
use crate::tokenizer::bpe::{merge_all, merge_tokens, texts, MergeTable};
use crate::tokenizer::cache::{copy_ids, TokenCache};
use crate::tokenizer::gpt2::{gpt2_decode, spelled_text};
use crate::tokenizer::template::TemplateKind;
use crate::tokenizer::words::{pre_tokenize, words_of};

verus! {

broadcast use vstd::std_specs::hash::group_hash_axioms;

/// A vocabulary with its merge rules and special tokens.
pub struct Tokenizer {
    pub vocab: Vec<String>,
    pub token_to_id: StringHashMap<u32>,
    pub merges: Vec<(String, String)>,
    pub merge_ranks: MergeTable,
    pub bos_id: u32,
    pub eos_id: u32,
    pub byte_tokens: HashMap<u8, u32>,
    pub template_kind: TemplateKind,
    pub chat_template: Option<String>,
    pub special_tokens: Vec<(String, u32)>,
    pub cache: TokenCache,
}

/// What a tokenizer knows.
pub struct TokenizerModel {
    pub vocab: Seq<Seq<char>>,
    pub token_to_id: Map<Seq<char>, u32>,
    pub merges: Seq<(Seq<char>, Seq<char>)>,
    pub merge_ranks: Map<(Seq<char>, Seq<char>), usize>,
    pub bos_id: u32,
    pub eos_id: u32,
    pub byte_tokens: Map<u8, u32>,
    pub template_kind: TemplateKind,
    pub chat_template: Option<Seq<char>>,
    pub special_tokens: Seq<(Seq<char>, u32)>,
}

/// The texts of a list of pairs.
pub open spec fn pair_texts(v: Seq<(String, String)>) -> Seq<(Seq<char>, Seq<char>)> {
    v.map_values(|p: (String, String)| (p.0@, p.1@))
}

/// The texts and ids of a list of tokens.
pub open spec fn token_texts(v: Seq<(String, u32)>) -> Seq<(Seq<char>, u32)> {
    v.map_values(|p: (String, u32)| (p.0@, p.1))
}

impl View for Tokenizer {
    type V = TokenizerModel;

    open spec fn view(&self) -> TokenizerModel {
        TokenizerModel {
            vocab: texts(self.vocab@),
            token_to_id: self.token_to_id@,
            merges: pair_texts(self.merges@),
            merge_ranks: self.merge_ranks@,
            bos_id: self.bos_id,
            eos_id: self.eos_id,
            byte_tokens: self.byte_tokens@,
            template_kind: self.template_kind,
            chat_template: match self.chat_template {
                Some(t) => Some(t@),
                None => None,
            },
            special_tokens: token_texts(self.special_tokens@),
        }
    }
}

/// Among the first `n` special tokens, the longest that `text` starts with.
pub open spec fn longest_of(special: Seq<(Seq<char>, u32)>, text: Seq<char>, n: nat) -> Option<int>
    decreases n,
{
    if n == 0 {
        None
    } else {
        let prev = longest_of(special, text, (n - 1) as nat);
        if has_prefix(text, special[n - 1].0) && (prev is None || special[prev->0].0.len()
            < special[n - 1].0.len()) {
            Some(n - 1)
        } else {
            prev
        }
    }
}

/// The longest special token that `text` starts with.
pub open spec fn longest_special(special: Seq<(Seq<char>, u32)>, text: Seq<char>) -> Option<int> {
    longest_of(special, text, special.len())
}

/// The first position at which one of the first `n` special tokens stands; the end of the text
/// where none does.
pub open spec fn next_of(special: Seq<(Seq<char>, u32)>, text: Seq<char>, n: nat) -> int
    decreases n,
{
    if n == 0 {
        text.len() as int
    } else {
        let prev = next_of(special, text, (n - 1) as nat);
        match find(text, special[n - 1].0) {
            Some(p) => if p < prev {
                p
            } else {
                prev
            },
            None => prev,
        }
    }
}

/// The first position at which a special token stands; the end of the text where none does.
pub open spec fn next_special(special: Seq<(Seq<char>, u32)>, text: Seq<char>) -> int {
    next_of(special, text, special.len())
}

/// The ids of single bytes: by their byte token, else by the token that is the one character with
/// that code, else none.
pub open spec fn byte_ids(m: TokenizerModel, bytes: Seq<u8>) -> Seq<u32>
    decreases bytes.len(),
{
    if bytes.len() == 0 {
        Seq::empty()
    } else {
        let front = byte_ids(m, bytes.drop_last());
        let b = bytes.last();
        if m.byte_tokens.contains_key(b) {
            front.push(m.byte_tokens[b])
        } else if m.token_to_id.contains_key(seq![b as char]) {
            front.push(m.token_to_id[seq![b as char]])
        } else {
            front
        }
    }
}

/// The ids of single bytes, by their byte tokens alone.
pub open spec fn byte_token_ids(m: TokenizerModel, bytes: Seq<u8>) -> Seq<u32>
    decreases bytes.len(),
{
    if bytes.len() == 0 {
        Seq::empty()
    } else {
        let front = byte_token_ids(m, bytes.drop_last());
        if m.byte_tokens.contains_key(bytes.last()) {
            front.push(m.byte_tokens[bytes.last()])
        } else {
            front
        }
    }
}

/// The ids of a word before merging: its own where it is plain ASCII and in the vocabulary, else
/// those of its bytes.
pub open spec fn word_ids(m: TokenizerModel, word: Seq<char>) -> Seq<u32> {
    if is_ascii_chars(word) && m.token_to_id.contains_key(word) {
        seq![m.token_to_id[word]]
    } else {
        byte_ids(m, encode_utf8(word))
    }
}

/// The text of an id; empty where the vocabulary has none.
pub open spec fn id_text(m: TokenizerModel, id: u32) -> Seq<char> {
    if id < m.vocab.len() {
        m.vocab[id as int]
    } else {
        Seq::empty()
    }
}

/// The texts of a run of ids.
pub open spec fn id_texts(m: TokenizerModel, ids: Seq<u32>) -> Seq<Seq<char>> {
    ids.map_values(|id: u32| id_text(m, id))
}

/// The ids of a run of tokens: a token of the vocabulary has its own, another those of its bytes.
pub open spec fn token_ids(m: TokenizerModel, tokens: Seq<Seq<char>>) -> Seq<u32>
    decreases tokens.len(),
{
    if tokens.len() == 0 {
        Seq::empty()
    } else {
        let front = token_ids(m, tokens.drop_last());
        let t = tokens.last();
        if m.token_to_id.contains_key(t) {
            front.push(m.token_to_id[t])
        } else {
            front + byte_token_ids(m, encode_utf8(t))
        }
    }
}

/// The ids of a word after merging.
pub open spec fn merged_ids(m: TokenizerModel, ids: Seq<u32>) -> Seq<u32> {
    if ids.len() <= 1 || m.merges.len() == 0 {
        ids
    } else {
        token_ids(m, merge_tokens(id_texts(m, ids), m.merge_ranks))
    }
}

/// The ids of a run of words.
pub open spec fn words_ids(m: TokenizerModel, words: Seq<Seq<char>>) -> Seq<u32>
    decreases words.len(),
{
    if words.len() == 0 {
        Seq::empty()
    } else {
        words_ids(m, words.drop_last()) + merged_ids(m, word_ids(m, words.last()))
    }
}

/// The ids of a text.  A special token at the front is taken whole, the longest that fits; the
/// text up to the next special token is split into words.
pub open spec fn text_ids(m: TokenizerModel, text: Seq<char>) -> Seq<u32>
    decreases text.len(),
{
    if text.len() == 0 {
        Seq::empty()
    } else {
        match longest_special(m.special_tokens, text) {
            Some(k) => {
                let n = m.special_tokens[k].0.len();
                if n == 0 || n > text.len() {
                    Seq::empty()
                } else {
                    seq![m.special_tokens[k].1] + text_ids(m, text.skip(n as int))
                }
            },
            None => {
                let end = next_special(m.special_tokens, text);
                if end <= 0 || end > text.len() {
                    Seq::empty()
                } else {
                    words_ids(m, words_of(text.take(end))) + text_ids(m, text.skip(end))
                }
            },
        }
    }
}

/// The ids of a text, behind the id that begins a text where that is asked for.
pub open spec fn encoded(m: TokenizerModel, text: Seq<char>, add_bos: bool) -> Seq<u32> {
    if add_bos {
        seq![m.bos_id] + text_ids(m, text)
    } else {
        text_ids(m, text)
    }
}

/// The vocabulary texts of a run of ids in a row.
pub open spec fn raw_text(m: TokenizerModel, ids: Seq<u32>) -> Seq<char>
    decreases ids.len(),
{
    if ids.len() == 0 {
        Seq::empty()
    } else {
        raw_text(m, ids.drop_last()) + id_text(m, ids.last())
    }
}

/// The text of a run of ids.
pub open spec fn decoded(m: TokenizerModel, ids: Seq<u32>) -> Seq<char> {
    spelled_text(raw_text(m, ids))
}

/// No two special tokens have the same text.
pub open spec fn distinct_tokens(special: Seq<(Seq<char>, u32)>) -> bool {
    forall|i: int, j: int|
        0 <= i < j < special.len() ==> #[trigger] special[i].0 != #[trigger] special[j].0
}

/// No special token is empty.
pub open spec fn no_empty_token(special: Seq<(Seq<char>, u32)>) -> bool {
    forall|i: int| 0 <= i < special.len() ==> (#[trigger] special[i]).0.len() > 0
}

/// The longest special token that is chosen does stand at the front, and no special token that
/// stands there is longer.
pub proof fn law_longest_special_is_taken(special: Seq<(Seq<char>, u32)>, text: Seq<char>)
    ensures
        match longest_special(special, text) {
            Some(k) => 0 <= k < special.len() && has_prefix(text, special[k].0) && forall|j: int|
                0 <= j < special.len() && has_prefix(text, #[trigger] special[j].0)
                    ==> special[j].0.len() <= special[k].0.len(),
            None => forall|j: int|
                0 <= j < special.len() ==> !has_prefix(text, #[trigger] special[j].0),
        },
{
    lemma_longest_of(special, text, special.len());
}

proof fn lemma_longest_of(special: Seq<(Seq<char>, u32)>, text: Seq<char>, n: nat)
    requires
        n <= special.len(),
    ensures
        match longest_of(special, text, n) {
            Some(k) => 0 <= k < n && has_prefix(text, special[k].0) && forall|j: int|
                0 <= j < n && has_prefix(text, #[trigger] special[j].0) ==> special[j].0.len()
                    <= special[k].0.len(),
            None => forall|j: int| 0 <= j < n ==> !has_prefix(text, #[trigger] special[j].0),
        },
    decreases n,
{
    if n > 0 {
        lemma_longest_of(special, text, (n - 1) as nat);
    }
}

/// The next special token lies in the text, and behind its front where none stands there.
pub proof fn lemma_next_of(special: Seq<(Seq<char>, u32)>, text: Seq<char>, n: nat)
    requires
        n <= special.len(),
    ensures
        0 <= next_of(special, text, n) <= text.len(),
        (forall|j: int| 0 <= j < n ==> !has_prefix(text, #[trigger] special[j].0)) && text.len() > 0
            ==> next_of(special, text, n) > 0,
    decreases n,
{
    if n > 0 {
        lemma_next_of(special, text, (n - 1) as nat);
        lemma_find_from(text, special[n - 1].0, 0);
    }
}

impl Tokenizer {
    /// Special tokens are distinct, and the memory holds only true results.
    pub open spec fn wf(&self) -> bool {
        &&& distinct_tokens(self@.special_tokens)
        &&& self.cache.wf()
        &&& forall|t: Seq<char>, b: bool|
            (#[trigger] self.cache.encoding_of(t, b)) is Some ==> self.cache.encoding_of(t, b)
                == Some(encoded(self@, t, b))
        &&& forall|i: Seq<u32>|
            (#[trigger] self.cache.decoding_of(i)) is Some ==> self.cache.decoding_of(i) == Some(
                decoded(self@, i),
            )
    }

    fn find_special(&self, text: &[char]) -> (r: Option<usize>)
        ensures
            match r {
                Some(k) => longest_special(self@.special_tokens, text@) == Some(k as int) && k
                    < self.special_tokens@.len(),
                None => longest_special(self@.special_tokens, text@) is None,
            },
    {
        let ghost sp = self@.special_tokens;
        let mut best: Option<usize> = None;
        let mut best_len: usize = 0;
        let mut i: usize = 0;
        while i < self.special_tokens.len()
            invariant
                sp == token_texts(self.special_tokens@),
                i <= self.special_tokens@.len(),
                match best {
                    Some(k) => longest_of(sp, text@, i as nat) == Some(k as int) && k
                        < self.special_tokens@.len() && best_len == sp[k as int].0.len(),
                    None => longest_of(sp, text@, i as nat) is None,
                },
            decreases self.special_tokens@.len() - i,
        {
            assert(sp[i as int].0 == self.special_tokens@[i as int].0@);
            let token = chars_of(self.special_tokens[i].0.as_str());
            if occurs_chars_at(text, 0, token.as_slice()) && (best.is_none() || best_len
                < token.len()) {
                best = Some(i);
                best_len = token.len();
            }
            i += 1;
        }
        best
    }

    fn find_next_special_or_end(&self, text: &[char]) -> (r: usize)
        ensures
            r == next_special(self@.special_tokens, text@),
    {
        let ghost sp = self@.special_tokens;
        let mut earliest: usize = text.len();
        let mut i: usize = 0;
        while i < self.special_tokens.len()
            invariant
                sp == token_texts(self.special_tokens@),
                i <= self.special_tokens@.len(),
                earliest == next_of(sp, text@, i as nat),
            decreases self.special_tokens@.len() - i,
        {
            assert(sp[i as int].0 == self.special_tokens@[i as int].0@);
            let token = chars_of(self.special_tokens[i].0.as_str());
            if let Some(p) = find_chars_from(text, token.as_slice(), 0) {
                if p < earliest {
                    earliest = p;
                }
            }
            i += 1;
        }
        earliest
    }

    fn ids_of_word(&self, word: &str) -> (r: Vec<u32>)
        ensures
            r@ == word_ids(self@, word@),
    {
        if word.is_ascii() {
            if let Some(id) = self.token_to_id.get(word) {
                return vec![*id];
            }
        }
        let bytes = word.as_bytes();
        let mut ids: Vec<u32> = Vec::new();
        let mut i: usize = 0;
        assert(bytes@.take(0).len() == 0);
        while i < bytes.len()
            invariant
                i <= bytes@.len(),
                ids@ == byte_ids(self@, bytes@.take(i as int)),
            decreases bytes@.len() - i,
        {
            assert(bytes@.take(i + 1).drop_last() =~= bytes@.take(i as int));
            let b: u8 = bytes[i];
            match self.byte_tokens.get(&b) {
                Some(id) => {
                    ids.push(*id);
                },
                None => {
                    let mut s = String::new();
                    s.push(b as char);
                    assert(s@ =~= seq![b as char]);
                    if let Some(id) = self.token_to_id.get(s.as_str()) {
                        ids.push(*id);
                    }
                },
            }
            i += 1;
        }
        assert(bytes@.take(i as int) =~= bytes@);
        ids
    }

    fn push_byte_tokens(&self, token: &str, out: &mut Vec<u32>)
        ensures
            final(out)@ == old(out)@ + byte_token_ids(self@, encode_utf8(token@)),
    {
        let bytes = token.as_bytes();
        let mut i: usize = 0;
        assert(bytes@.take(0).len() == 0);
        assert(old(out)@ + Seq::<u32>::empty() =~= old(out)@);
        while i < bytes.len()
            invariant
                i <= bytes@.len(),
                out@ == old(out)@ + byte_token_ids(self@, bytes@.take(i as int)),
            decreases bytes@.len() - i,
        {
            assert(bytes@.take(i + 1).drop_last() =~= bytes@.take(i as int));
            let b: u8 = bytes[i];
            let ghost before = out@;
            if let Some(id) = self.byte_tokens.get(&b) {
                out.push(*id);
            }
            assert(out@ =~= old(out)@ + byte_token_ids(self@, bytes@.take(i + 1)));
            i += 1;
        }
        assert(bytes@.take(i as int) =~= bytes@);
    }

    /// The vocabulary text of an id; empty where there is none.
    pub fn text_of_id(&self, id: u32) -> (r: &str)
        ensures
            r@ == id_text(self@, id),
    {
        if (id as usize) < self.vocab.len() {
            self.vocab[id as usize].as_str()
        } else {
            proof {
                reveal_strlit("");
            }
            assert(""@ =~= Seq::<char>::empty());
            ""
        }
    }

    /// Merges the tokens of a word.
    pub fn bpe_merge(&self, ids: Vec<u32>) -> (r: Vec<u32>)
        ensures
            r@ == merged_ids(self@, ids@),
    {
        if ids.len() <= 1 || self.merges.len() == 0 {
            return ids;
        }
        let mut tokens: Vec<String> = Vec::new();
        let mut i: usize = 0;
        while i < ids.len()
            invariant
                i <= ids@.len(),
                texts(tokens@) == id_texts(self@, ids@.take(i as int)),
            decreases ids@.len() - i,
        {
            let ghost done = texts(tokens@);
            tokens.push(self.text_of_id(ids[i]).to_owned());
            i += 1;
            proof {
                assert(texts(tokens@) =~= done.push(id_text(self@, ids@[i - 1])));
                assert(id_texts(self@, ids@.take(i as int)) =~= id_texts(
                    self@,
                    ids@.take(i - 1),
                ).push(id_text(self@, ids@[i - 1])));
            }
        }
        assert(ids@.take(i as int) =~= ids@);
        let merged = merge_all(tokens, &self.merge_ranks);
        let ghost all = texts(merged@);
        let mut result: Vec<u32> = Vec::new();
        let mut k: usize = 0;
        assert(all.take(0).len() == 0);
        while k < merged.len()
            invariant
                k <= merged@.len(),
                all == texts(merged@),
                result@ == token_ids(self@, all.take(k as int)),
            decreases merged@.len() - k,
        {
            proof {
                assert(all.take(k + 1).drop_last() =~= all.take(k as int));
                assert(all.take(k + 1).last() == merged@[k as int]@);
            }
            match self.token_to_id.get(merged[k].as_str()) {
                Some(id) => {
                    result.push(*id);
                },
                None => {
                    self.push_byte_tokens(merged[k].as_str(), &mut result);
                },
            }
            k += 1;
        }
        assert(all.take(k as int) =~= all);
        result
    }

    fn push_words(&self, segment: &[char], out: &mut Vec<u32>)
        ensures
            final(out)@ == old(out)@ + words_ids(self@, words_of(segment@)),
    {
        let words = pre_tokenize(segment);
        let ghost all = texts(words@);
        let mut i: usize = 0;
        assert(all.take(0).len() == 0);
        assert(old(out)@ + Seq::<u32>::empty() =~= old(out)@);
        while i < words.len()
            invariant
                i <= words@.len(),
                all == texts(words@),
                out@ == old(out)@ + words_ids(self@, all.take(i as int)),
            decreases words@.len() - i,
        {
            proof {
                assert(all.take(i + 1).drop_last() =~= all.take(i as int));
                assert(all.take(i + 1).last() == words@[i as int]@);
            }
            let ids = self.ids_of_word(words[i].as_str());
            let mut merged = self.bpe_merge(ids);
            out.append(&mut merged);
            assert(out@ =~= old(out)@ + words_ids(self@, all.take(i + 1)));
            i += 1;
        }
        assert(all.take(i as int) =~= all);
    }

    /// The ids of a text, computed afresh.
    pub fn encode_fresh(&self, text: &[char], add_bos: bool) -> (r: Vec<u32>)
        requires
            no_empty_token(self@.special_tokens),
        ensures
            r@ == encoded(self@, text@, add_bos),
    {
        let mut tokens: Vec<u32> = Vec::new();
        if add_bos {
            tokens.push(self.bos_id);
        }
        let mut rest: Vec<char> = sub_vec(text, 0, text.len());
        proof {
            assert(rest@ =~= text@);
            assert(tokens@ + text_ids(self@, text@) =~= encoded(self@, text@, add_bos));
        }
        while rest.len() > 0
            invariant
                no_empty_token(self@.special_tokens),
                encoded(self@, text@, add_bos) == tokens@ + text_ids(self@, rest@),
            decreases rest@.len(),
        {
            let ghost done = tokens@;
            let ghost now = rest@;
            let ghost sp = self@.special_tokens;
            proof {
                law_longest_special_is_taken(sp, now);
                lemma_next_of(sp, now, sp.len());
            }
            match self.find_special(rest.as_slice()) {
                Some(k) => {
                    let n: usize = self.special_tokens[k].0.as_str().unicode_len();
                    assert(sp[k as int] == (
                        self.special_tokens@[k as int].0@,
                        self.special_tokens@[k as int].1,
                    ));
                    tokens.push(self.special_tokens[k].1);
                    rest = sub_vec(rest.as_slice(), n, rest.len());
                    proof {
                        assert(rest@ =~= now.skip(n as int));
                        assert(tokens@ + text_ids(self@, rest@) =~= done + text_ids(self@, now));
                    }
                },
                None => {
                    let end: usize = self.find_next_special_or_end(rest.as_slice());
                    let segment = sub_vec(rest.as_slice(), 0, end);
                    self.push_words(segment.as_slice(), &mut tokens);
                    rest = sub_vec(rest.as_slice(), end, rest.len());
                    proof {
                        assert(segment@ =~= now.take(end as int));
                        assert(rest@ =~= now.skip(end as int));
                        assert(tokens@ + text_ids(self@, rest@) =~= done + text_ids(self@, now));
                    }
                },
            }
        }
        assert(tokens@ + Seq::<u32>::empty() =~= tokens@);
        tokens
    }

    /// The ids of a text.  Earlier results are remembered; that changes no result.
    pub fn encode(&mut self, text: &str, add_bos: bool) -> (r: Vec<u32>)
        requires
            old(self).wf(),
            no_empty_token(old(self)@.special_tokens),
        ensures
            r@ == encoded(old(self)@, text@, add_bos),
            final(self)@ == old(self)@,
            final(self).wf(),
    {
        let chars = chars_of(text);
        if let Some(ids) = self.cache.cache_get(chars.as_slice(), add_bos) {
            return ids;
        }
        let tokens = self.encode_fresh(chars.as_slice(), add_bos);
        let copy = copy_ids(tokens.as_slice());
        self.cache.cache_set(chars.as_slice(), add_bos, copy);
        tokens
    }

    /// The text of a run of ids, computed afresh.
    pub fn decode_fresh(&self, ids: &[u32]) -> (r: String)
        ensures
            r@ == decoded(self@, ids@),
    {
        let mut raw = String::new();
        let mut i: usize = 0;
        assert(ids@.take(0).len() == 0);
        while i < ids.len()
            invariant
                i <= ids@.len(),
                raw@ == raw_text(self@, ids@.take(i as int)),
            decreases ids@.len() - i,
        {
            assert(ids@.take(i + 1).drop_last() =~= ids@.take(i as int));
            raw.append(self.text_of_id(ids[i]));
            i += 1;
        }
        assert(ids@.take(i as int) =~= ids@);
        gpt2_decode(raw.as_str())
    }

    /// The text of a run of ids.  Earlier results are remembered; that changes no result.
    pub fn decode(&mut self, ids: &[u32]) -> (r: String)
        requires
            old(self).wf(),
        ensures
            r@ == decoded(old(self)@, ids@),
            final(self)@ == old(self)@,
            final(self).wf(),
    {
        if let Some(text) = self.cache.decode_get(ids) {
            return text;
        }
        let out = self.decode_fresh(ids);
        self.cache.decode_set(ids, out.clone());
        out
    }

    /// The text of one id.
    pub fn decode_token(&self, id: u32) -> (r: String)
        ensures
            r@ == spelled_text(id_text(self@, id)),
    {
        gpt2_decode(self.text_of_id(id))
    }
}

} // verus!
