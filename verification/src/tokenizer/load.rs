//! A tokenizer out of a model file.
use std::collections::HashMap;

use vstd::hash_map::StringHashMap;
use vstd::prelude::*;

use crate::gguf::file::GgufFile;
use crate::gguf::meta::{models_of, MetaModel, MetaValue};
use crate::text::{
    chars_of, concat3, decimal, decimal_string, ends_with_str, find, find_str_from, has_prefix,
    has_suffix, lemma_find_from, same_str, starts_with_str, string_of,
};
use crate::tokenizer::bpe::{ranks_of, texts, MergeTable};
use crate::tokenizer::cache::TokenCache;
use crate::tokenizer::encoder::{
    distinct_tokens, no_empty_token, pair_texts, token_texts, Tokenizer, TokenizerModel,
};
use crate::tokenizer::template::{array_under, detect_template, format_of_file, text_under};

verus! {

broadcast use vstd::std_specs::hash::group_hash_axioms;

/// The text of vocabulary entry `i`; an entry that is no text gets a made-up one.
pub open spec fn vocab_text(v: MetaModel, i: int) -> Seq<char> {
    match v.text() {
        Some(s) => s,
        None => "<token_"@ + decimal(i as nat) + ">"@,
    }
}

/// The vocabulary of a list of entries.
pub open spec fn vocab_of(tokens: Seq<MetaModel>) -> Seq<Seq<char>> {
    Seq::new(tokens.len(), |i: int| vocab_text(tokens[i], i))
}

/// The id of each text: the last place where it stands.
pub open spec fn ids_by_text(vocab: Seq<Seq<char>>) -> Map<Seq<char>, u32>
    decreases vocab.len(),
{
    if vocab.len() == 0 {
        Map::empty()
    } else {
        ids_by_text(vocab.drop_last()).insert(vocab.last(), (vocab.len() - 1) as u32)
    }
}

/// The value of a hexadecimal digit.
pub open spec fn hex_value(c: char) -> Option<int> {
    let u = c as u32;
    if '0' as u32 <= u <= '9' as u32 {
        Some(u - '0' as u32)
    } else if 'a' as u32 <= u <= 'f' as u32 {
        Some(u - 'a' as u32 + 10)
    } else if 'A' as u32 <= u <= 'F' as u32 {
        Some(u - 'A' as u32 + 10)
    } else {
        None
    }
}

/// The byte that a token such as `<0x0A>` stands for: two hexadecimal digits, or a plus sign and
/// one, between the delimiters.
pub open spec fn byte_of_token(t: Seq<char>) -> Option<u8> {
    if t.len() == 6 && has_prefix(t, "<0x"@) && has_suffix(t, ">"@) {
        match (hex_value(t[3]), hex_value(t[4])) {
            (Some(a), Some(b)) => Some((16 * a + b) as u8),
            (None, Some(b)) => if t[3] == '+' {
                Some(b as u8)
            } else {
                None
            },
            _ => None,
        }
    } else {
        None
    }
}

/// The id of each byte: the last token that stands for it.
pub open spec fn ids_by_byte(vocab: Seq<Seq<char>>) -> Map<u8, u32>
    decreases vocab.len(),
{
    if vocab.len() == 0 {
        Map::empty()
    } else {
        let front = ids_by_byte(vocab.drop_last());
        match byte_of_token(vocab.last()) {
            Some(b) => front.insert(b, (vocab.len() - 1) as u32),
            None => front,
        }
    }
}

/// The merge rules of a list of entries: texts, split at their first space.
pub open spec fn merges_of(entries: Seq<MetaModel>) -> Seq<(Seq<char>, Seq<char>)>
    decreases entries.len(),
{
    if entries.len() == 0 {
        Seq::empty()
    } else {
        let front = merges_of(entries.drop_last());
        match entries.last().text() {
            Some(s) => match find(s, " "@) {
                Some(p) => front.push((s.subrange(0, p), s.subrange(p + 1, s.len() as int))),
                None => front,
            },
            None => front,
        }
    }
}

/// The special tokens among added tokens: texts that do not begin as byte tokens do.
pub open spec fn special_of_added(added: Seq<MetaModel>) -> Map<Seq<char>, u32>
    decreases added.len(),
{
    if added.len() == 0 {
        Map::empty()
    } else {
        let front = special_of_added(added.drop_last());
        match added.last().text() {
            Some(s) => if has_prefix(s, "<0x"@) {
                front
            } else {
                front.insert(s, (added.len() - 1) as u32)
            },
            None => front,
        }
    }
}

/// The special tokens of a vocabulary, such as `<|end|>`, on top of others.
pub open spec fn special_of_vocab(
    base: Map<Seq<char>, u32>,
    vocab: Seq<Seq<char>>,
) -> Map<Seq<char>, u32>
    decreases vocab.len(),
{
    if vocab.len() == 0 {
        base
    } else {
        let front = special_of_vocab(base, vocab.drop_last());
        let t = vocab.last();
        if has_prefix(t, "<|"@) && has_suffix(t, "|>"@) {
            front.insert(t, (vocab.len() - 1) as u32)
        } else {
            front
        }
    }
}

/// A list of tokens holds the entries of a map, each once.
pub open spec fn lists(special: Seq<(Seq<char>, u32)>, m: Map<Seq<char>, u32>) -> bool {
    &&& distinct_tokens(special)
    &&& forall|i: int|
        0 <= i < special.len() ==> m.contains_key((#[trigger] special[i]).0) && m[special[i].0]
            == special[i].1
    &&& forall|k: Seq<char>| #[trigger]
        m.contains_key(k) ==> exists|i: int| 0 <= i < special.len() && #[trigger] special[i].0 == k
}

/// The array under a key; empty where there is none.
pub open spec fn list_under(f: GgufFile, key: Seq<char>) -> Seq<MetaModel> {
    match array_under(f, key) {
        Some(v) => v,
        None => Seq::empty(),
    }
}

/// The number under a key.
pub open spec fn word_under(f: GgufFile, key: Seq<char>) -> Option<u32> {
    match f.entry(key) {
        Some(v) => v.word(),
        None => None,
    }
}

/// A tokenizer has what a file with a vocabulary says.
pub open spec fn tokenizer_of_file(m: TokenizerModel, f: GgufFile) -> bool {
    let tokens = list_under(f, "tokenizer.ggml.tokens"@);
    let merges = merges_of(list_under(f, "tokenizer.ggml.merges"@));
    let added = special_of_added(list_under(f, "tokenizer.ggml.added_tokens"@));
    &&& m.vocab == vocab_of(tokens)
    &&& m.token_to_id == ids_by_text(m.vocab)
    &&& m.byte_tokens == ids_by_byte(m.vocab)
    &&& m.merges == merges
    &&& m.merge_ranks == ranks_of(merges)
    &&& m.bos_id == match word_under(f, "tokenizer.ggml.bos_token_id"@) {
        Some(x) => x,
        None => 1,
    }
    &&& m.eos_id == match word_under(f, "tokenizer.ggml.eos_token_id"@) {
        Some(x) => x,
        None => 2,
    }
    &&& m.template_kind == format_of_file(f)
    &&& m.chat_template == text_under(f, "tokenizer.chat_template"@)
    &&& lists(m.special_tokens, special_of_vocab(added, m.vocab))
}

fn hex_digit(c: char) -> (r: Option<u8>)
    ensures
        match r {
            Some(v) => hex_value(c) == Some(v as int) && v < 16,
            None => hex_value(c) is None,
        },
{
    let u: u32 = c as u32;
    if 48 <= u && u <= 57 {
        Some((u - 48) as u8)
    } else if 97 <= u && u <= 102 {
        Some((u - 87) as u8)
    } else if 65 <= u && u <= 70 {
        Some((u - 55) as u8)
    } else {
        None
    }
}

fn byte_token_value(t: &[char]) -> (r: Option<u8>)
    ensures
        r == byte_of_token(t@),
{
    if t.len() != 6 || !starts_with_str(t, "<0x") || !ends_with_str(t, ">") {
        return None;
    }
    match hex_digit(t[4]) {
        None => None,
        Some(b) => match hex_digit(t[3]) {
            Some(a) => Some(16 * a + b),
            None => if t[3] == '+' {
                Some(b)
            } else {
                None
            },
        },
    }
}

/// Gives a token an id, in place of one that it had.
fn set_special(special: &mut Vec<(String, u32)>, text: &str, id: u32)
    ensures
        forall|m: Map<Seq<char>, u32>|
            #![trigger lists(token_texts(old(special)@), m)]
            lists(token_texts(old(special)@), m) ==> lists(
                token_texts(final(special)@),
                m.insert(text@, id),
            ),
{
    let ghost before = token_texts(special@);
    let mut i: usize = 0;
    while i < special.len()
        invariant
            i <= special@.len(),
            before == token_texts(special@),
            special@ == old(special)@,
            forall|j: int| 0 <= j < i ==> (#[trigger] before[j]).0 != text@,
        decreases special@.len() - i,
    {
        assert(before[i as int] == (special@[i as int].0@, special@[i as int].1));
        if same_str(special[i].0.as_str(), text) {
            let entry = (text.to_owned(), id);
            special.set(i, entry);
            proof {
                let after = token_texts(special@);
                assert(after =~= before.update(i as int, (text@, id)));
                assert forall|m: Map<Seq<char>, u32>|
                    #![trigger lists(before, m)]
                    lists(before, m) implies lists(after, m.insert(text@, id)) by {
                    assert forall|k: Seq<char>| #[trigger]
                        m.insert(text@, id).contains_key(k) implies exists|j: int|
                        0 <= j < after.len() && #[trigger] after[j].0 == k by {
                        if k == text@ {
                            assert(after[i as int].0 == k);
                        } else {
                            assert(m.contains_key(k));
                            let j = choose|j: int|
                                0 <= j < before.len() && #[trigger] before[j].0 == k;
                            assert(after[j].0 == k);
                        }
                    }
                    assert forall|j: int| 0 <= j < after.len() implies m.insert(
                        text@,
                        id,
                    ).contains_key((#[trigger] after[j]).0) && m.insert(text@, id)[after[j].0]
                        == after[j].1 by {
                        if j != i {
                            assert(before[j].0 != before[i as int].0);
                        }
                    }
                    assert forall|a: int, b: int| 0 <= a < b < after.len() implies #[trigger] after[a].0
                        != #[trigger] after[b].0 by {
                        assert(before[a].0 != before[b].0);
                    }
                }
            }
            return;
        }
        i += 1;
    }
    special.push((text.to_owned(), id));
    proof {
        let after = token_texts(special@);
        assert(after =~= before.push((text@, id)));
        assert forall|m: Map<Seq<char>, u32>|
            #![trigger lists(before, m)]
            lists(before, m) implies lists(after, m.insert(text@, id)) by {
            assert forall|k: Seq<char>| #[trigger]
                m.insert(text@, id).contains_key(k) implies exists|j: int|
                0 <= j < after.len() && #[trigger] after[j].0 == k by {
                if k == text@ {
                    assert(after[before.len() as int].0 == k);
                } else {
                    assert(m.contains_key(k));
                    let j = choose|j: int| 0 <= j < before.len() && #[trigger] before[j].0 == k;
                    assert(after[j].0 == k);
                }
            }
            assert forall|j: int| 0 <= j < after.len() implies m.insert(text@, id).contains_key(
                (#[trigger] after[j]).0,
            ) && m.insert(text@, id)[after[j].0] == after[j].1 by {
                if j < before.len() {
                    assert(after[j] == before[j]);
                    assert(before[j].0 != text@);
                }
            }
            assert forall|a: int, b: int| 0 <= a < b < after.len() implies #[trigger] after[a].0
                != #[trigger] after[b].0 by {
                assert(after[a] == before[a]);
                if b < before.len() {
                    assert(after[b] == before[b]);
                } else {
                    assert(before[a].0 != text@);
                }
            }
        }
    }
}

fn read_vocab(tokens: &[MetaValue]) -> (r: (Vec<String>, StringHashMap<u32>, HashMap<u8, u32>))
    ensures
        texts(r.0@) == vocab_of(models_of(tokens@)),
        r.1@ == ids_by_text(texts(r.0@)),
        r.2@ == ids_by_byte(texts(r.0@)),
{
    let ghost all = vocab_of(models_of(tokens@));
    let mut vocab: Vec<String> = Vec::new();
    let mut token_to_id: StringHashMap<u32> = StringHashMap::new();
    let mut byte_tokens: HashMap<u8, u32> = HashMap::new();
    let mut i: usize = 0;
    assert(texts(vocab@) =~= all.take(0));
    assert(byte_tokens@ =~= Map::empty());
    while i < tokens.len()
        invariant
            i <= tokens@.len(),
            all == vocab_of(models_of(tokens@)),
            vocab@.len() == i,
            texts(vocab@) == all.take(i as int),
            token_to_id@ == ids_by_text(all.take(i as int)),
            byte_tokens@ == ids_by_byte(all.take(i as int)),
        decreases tokens@.len() - i,
    {
        let text: String = match tokens[i].as_str() {
            Some(s) => s.to_owned(),
            None => {
                let n = decimal_string(i as u64);
                concat3("<token_", n.as_str(), ">")
            },
        };
        let id: u32 = #[verifier::truncate]
        (i as u32);
        let chars = chars_of(text.as_str());
        proof {
            assert(models_of(tokens@)[i as int] == tokens@[i as int]@);
            assert(all[i as int] == text@);
            assert(all.take(i + 1).drop_last() =~= all.take(i as int));
            assert(all.take(i + 1).last() == text@);
        }
        token_to_id.insert(text.clone(), id);
        if let Some(b) = byte_token_value(chars.as_slice()) {
            byte_tokens.insert(b, id);
        }
        let ghost done = texts(vocab@);
        vocab.push(text);
        assert(texts(vocab@) =~= all.take(i + 1));
        i += 1;
    }
    assert(all.take(i as int) =~= all);
    (vocab, token_to_id, byte_tokens)
}

fn read_merges(entries: &[MetaValue]) -> (r: (Vec<(String, String)>, MergeTable))
    ensures
        pair_texts(r.0@) == merges_of(models_of(entries@)),
        r.1@ == ranks_of(merges_of(models_of(entries@))),
{
    let ghost all = models_of(entries@);
    let mut merges: Vec<(String, String)> = Vec::new();
    let mut ranks = MergeTable::new();
    let mut i: usize = 0;
    assert(all.take(0).len() == 0);
    assert(pair_texts(merges@) =~= merges_of(all.take(0)));
    while i < entries.len()
        invariant
            i <= entries@.len(),
            all == models_of(entries@),
            pair_texts(merges@) == merges_of(all.take(i as int)),
            ranks@ == ranks_of(merges_of(all.take(i as int))),
        decreases entries@.len() - i,
    {
        proof {
            assert(all.take(i + 1).drop_last() =~= all.take(i as int));
            assert(all.take(i + 1).last() == entries@[i as int]@);
            reveal_strlit(" ");
        }
        if let Some(s) = entries[i].as_str() {
            let chars = chars_of(s);
            proof {
                lemma_find_from(s@, " "@, 0);
            }
            if let Some(p) = find_str_from(chars.as_slice(), " ", 0) {
                assert(p + 1 <= chars.len());
                let a = string_of(chars.as_slice(), 0, p);
                let b = string_of(chars.as_slice(), p + 1, chars.len());
                let ghost done = pair_texts(merges@);
                ranks.insert(a.as_str(), b.as_str(), merges.len());
                merges.push((a, b));
                proof {
                    assert(pair_texts(merges@) =~= done.push((a@, b@)));
                    assert(done.push((a@, b@)).drop_last() =~= done);
                }
            }
        }
        i += 1;
    }
    assert(all.take(i as int) =~= all);
    (merges, ranks)
}

fn read_special(added: &[MetaValue], vocab: &Vec<String>) -> (r: Vec<(String, u32)>)
    ensures
        lists(
            token_texts(r@),
            special_of_vocab(special_of_added(models_of(added@)), texts(vocab@)),
        ),
{
    let ghost all = models_of(added@);
    let mut special: Vec<(String, u32)> = Vec::new();
    let mut i: usize = 0;
    assert(all.take(0).len() == 0);
    assert(token_texts(special@) =~= Seq::empty());
    while i < added.len()
        invariant
            i <= added@.len(),
            all == models_of(added@),
            lists(token_texts(special@), special_of_added(all.take(i as int))),
        decreases added@.len() - i,
    {
        proof {
            assert(all.take(i + 1).drop_last() =~= all.take(i as int));
            assert(all.take(i + 1).last() == added@[i as int]@);
        }
        if let Some(s) = added[i].as_str() {
            let chars = chars_of(s);
            if !starts_with_str(chars.as_slice(), "<0x") {
                let id: u32 = #[verifier::truncate]
                (i as u32);
                set_special(&mut special, s, id);
            }
        }
        i += 1;
    }
    assert(all.take(i as int) =~= all);
    let ghost base = special_of_added(all);
    let ghost words = texts(vocab@);
    let mut k: usize = 0;
    assert(words.take(0).len() == 0);
    while k < vocab.len()
        invariant
            k <= vocab@.len(),
            words == texts(vocab@),
            lists(token_texts(special@), special_of_vocab(base, words.take(k as int))),
        decreases vocab@.len() - k,
    {
        proof {
            assert(words.take(k + 1).drop_last() =~= words.take(k as int));
            assert(words.take(k + 1).last() == vocab@[k as int]@);
        }
        let chars = chars_of(vocab[k].as_str());
        if starts_with_str(chars.as_slice(), "<|") && ends_with_str(chars.as_slice(), "|>") {
            let id: u32 = #[verifier::truncate]
            (k as u32);
            set_special(&mut special, vocab[k].as_str(), id);
        }
        k += 1;
    }
    assert(words.take(k as int) =~= words);
    special
}

impl Tokenizer {
    /// The tokenizer of a model file.
    pub fn from_gguf(gguf: &GgufFile) -> (r: Result<Tokenizer, String>)
        ensures
            match r {
                Ok(t) => array_under(*gguf, "tokenizer.ggml.tokens"@) is Some && tokenizer_of_file(
                    t@,
                    *gguf,
                ) && t.wf(),
                Err(e) => array_under(*gguf, "tokenizer.ggml.tokens"@) is None && e@
                    == "Missing tokenizer.ggml.tokens"@,
            },
    {
        let tokens = match gguf.meta_array("tokenizer.ggml.tokens") {
            Some(v) => v,
            None => return Err("Missing tokenizer.ggml.tokens".to_owned()),
        };
        let (vocab, token_to_id, byte_tokens) = read_vocab(tokens);
        let bos_id: u32 = match gguf.meta_u32("tokenizer.ggml.bos_token_id") {
            Some(x) => x,
            None => 1,
        };
        let eos_id: u32 = match gguf.meta_u32("tokenizer.ggml.eos_token_id") {
            Some(x) => x,
            None => 2,
        };
        let (merges, merge_ranks) = match gguf.meta_array("tokenizer.ggml.merges") {
            Some(v) => read_merges(v),
            None => {
                let none: Vec<MetaValue> = Vec::new();
                assert(models_of(none@) =~= Seq::empty());
                read_merges(none.as_slice())
            },
        };
        let (template_kind, chat_template) = detect_template(gguf);
        let special_tokens = match gguf.meta_array("tokenizer.ggml.added_tokens") {
            Some(v) => read_special(v, &vocab),
            None => {
                let none: Vec<MetaValue> = Vec::new();
                assert(models_of(none@) =~= Seq::empty());
                read_special(none.as_slice(), &vocab)
            },
        };
        Ok(
            Tokenizer {
                vocab,
                token_to_id,
                merges,
                merge_ranks,
                bos_id,
                eos_id,
                byte_tokens,
                template_kind,
                chat_template,
                special_tokens,
                cache: TokenCache::new(),
            },
        )
    }

    /// Whether no special token is empty, as encoding needs.
    pub fn has_no_empty_token(&self) -> (r: bool)
        ensures
            r == no_empty_token(self@.special_tokens),
    {
        let ghost sp = self@.special_tokens;
        let mut i: usize = 0;
        while i < self.special_tokens.len()
            invariant
                i <= self.special_tokens@.len(),
                sp == token_texts(self.special_tokens@),
                forall|j: int| 0 <= j < i ==> (#[trigger] sp[j]).0.len() > 0,
            decreases self.special_tokens@.len() - i,
        {
            assert(sp[i as int].0 == self.special_tokens@[i as int].0@);
            if self.special_tokens[i].0.as_str().is_empty() {
                return false;
            }
            i += 1;
        }
        true
    }
}

} // verus!
