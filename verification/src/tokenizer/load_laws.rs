//! What a tokenizer has from its file.
use vstd::prelude::*;

use crate::gguf::file::GgufFile;
use crate::gguf::meta::MetaModel;
use crate::llm::config_laws::{no_number_at, no_text_at, number_at, text_at};
use crate::text::{find, has_prefix, has_suffix, lemma_find_from, occurs_at};
use crate::tokenizer::bpe::ranks_of;
use crate::tokenizer::encoder::TokenizerModel;
use crate::tokenizer::load::{
    byte_of_token, ids_by_byte, ids_by_text, lists, merges_of, special_of_added, special_of_vocab,
    tokenizer_of_file,
};

verus! {

/// The file holds a list of values under a key.
pub open spec fn list_at(f: GgufFile, key: Seq<char>, items: Seq<MetaModel>) -> bool {
    f@.metadata.contains_key(key) && (f@.metadata[key] matches MetaModel::Array(_, x) && x == items)
}

/// A token has the place in the vocabulary that the file gives it, and a text has the id of the last
/// place where it stands.
pub proof fn law_vocabulary_is_the_files(
    m: TokenizerModel,
    f: GgufFile,
    items: Seq<MetaModel>,
    i: int,
    s: Seq<char>,
)
    requires
        tokenizer_of_file(m, f),
        list_at(f, "tokenizer.ggml.tokens"@, items),
        items.len() <= u32::MAX,
        0 <= i < items.len(),
        items[i] == MetaModel::Text(s),
    ensures
        m.vocab.len() == items.len(),
        m.vocab[i] == s,
        m.token_to_id.contains_key(s),
        (forall|j: int| i < j < m.vocab.len() ==> m.vocab[j] != s) ==> m.token_to_id[s] == i,
{
    lemma_ids(m.vocab, i);
}

proof fn lemma_ids(vocab: Seq<Seq<char>>, i: int)
    requires
        vocab.len() <= u32::MAX,
        0 <= i < vocab.len(),
    ensures
        ids_by_text(vocab).contains_key(vocab[i]),
        (forall|j: int| i < j < vocab.len() ==> vocab[j] != vocab[i]) ==> ids_by_text(
            vocab,
        )[vocab[i]] == i,
    decreases vocab.len(),
{
    if i < vocab.len() - 1 {
        let front = vocab.drop_last();
        lemma_ids(front, i);
        if forall|j: int| i < j < vocab.len() ==> vocab[j] != vocab[i] {
            assert(vocab[vocab.len() - 1] != vocab[i]);
            assert forall|j: int| i < j < front.len() implies front[j] != front[i] by {
                assert(vocab[j] != vocab[i]);
            }
        }
    }
}

/// The ids that begin and end a text, and the template, are those of the file; where it has none, the
/// ids are 1 and 2 and there is no template.
pub proof fn law_marks_are_the_files(m: TokenizerModel, f: GgufFile)
    requires
        tokenizer_of_file(m, f),
    ensures
        forall|x: u32| number_at(f, "tokenizer.ggml.bos_token_id"@, x) ==> m.bos_id == x,
        forall|x: u32| number_at(f, "tokenizer.ggml.eos_token_id"@, x) ==> m.eos_id == x,
        no_number_at(f, "tokenizer.ggml.bos_token_id"@) ==> m.bos_id == 1,
        no_number_at(f, "tokenizer.ggml.eos_token_id"@) ==> m.eos_id == 2,
        forall|t: Seq<char>|
            text_at(f, "tokenizer.chat_template"@, t) ==> m.chat_template == Some(t),
        no_text_at(f, "tokenizer.chat_template"@) ==> m.chat_template is None,
{
}

/// A merge rule as a file writes it: two texts with a space between, the first without one.
pub open spec fn rule_text(a: Seq<char>, b: Seq<char>) -> Seq<char> {
    a + " "@ + b
}

/// The rules of a file are the rules of the tokenizer, in the same order, and the rank of a rule is the
/// last place where it stands.
pub proof fn law_rules_are_the_files(
    m: TokenizerModel,
    f: GgufFile,
    items: Seq<MetaModel>,
    rules: Seq<(Seq<char>, Seq<char>)>,
)
    requires
        tokenizer_of_file(m, f),
        list_at(f, "tokenizer.ggml.merges"@, items),
        items.len() == rules.len(),
        forall|i: int|
            0 <= i < rules.len() ==> !(#[trigger] rules[i]).0.contains(' ') && items[i]
                == MetaModel::Text(rule_text(rules[i].0, rules[i].1)),
    ensures
        m.merges == rules,
        forall|i: int|
            0 <= i < rules.len() && rules.len() <= usize::MAX && (forall|j: int|
                i < j < rules.len() ==> rules[j] != rules[i]) ==> m.merge_ranks.contains_key(
                #[trigger] rules[i],
            ) && m.merge_ranks[rules[i]] == i,
{
    lemma_rules(items, rules);
    assert forall|i: int|
        0 <= i < rules.len() && rules.len() <= usize::MAX && (forall|j: int|
            i < j < rules.len() ==> rules[j] != rules[i]) implies m.merge_ranks.contains_key(
        #[trigger] rules[i],
    ) && m.merge_ranks[rules[i]] == i by {
        lemma_ranks(rules, i);
    }
}

proof fn lemma_rules(items: Seq<MetaModel>, rules: Seq<(Seq<char>, Seq<char>)>)
    requires
        items.len() == rules.len(),
        forall|i: int|
            0 <= i < rules.len() ==> !(#[trigger] rules[i]).0.contains(' ') && items[i]
                == MetaModel::Text(rule_text(rules[i].0, rules[i].1)),
    ensures
        merges_of(items) == rules,
    decreases items.len(),
{
    if items.len() > 0 {
        let (x, y) = (items.drop_last(), rules.drop_last());
        assert forall|i: int| 0 <= i < y.len() implies !(#[trigger] y[i]).0.contains(' ') && x[i]
            == MetaModel::Text(rule_text(y[i].0, y[i].1)) by {
            assert(y[i] == rules[i]);
        }
        lemma_rules(x, y);
        let (a, b) = rules[rules.len() - 1];
        assert(rules[rules.len() - 1] == (a, b));
        reveal_strlit(" ");
        let s = rule_text(a, b);
        let n = a.len() as int;
        lemma_find_from(s, " "@, 0);
        assert(s.subrange(n, n + 1) =~= " "@);
        assert(occurs_at(s, n, " "@));
        let p = find(s, " "@)->0;
        if p < n {
            assert(s.subrange(p, p + 1)[0] == a[p]);
            assert(a.contains(' '));
        }
        assert(s.subrange(0, n) =~= a);
        assert(s.subrange(n + 1, s.len() as int) =~= b);
        assert(y.push((a, b)) =~= rules);
    } else {
        assert(rules =~= Seq::empty());
    }
}

proof fn lemma_ranks(rules: Seq<(Seq<char>, Seq<char>)>, i: int)
    requires
        0 <= i < rules.len() <= usize::MAX,
        forall|j: int| i < j < rules.len() ==> rules[j] != rules[i],
    ensures
        ranks_of(rules).contains_key(rules[i]),
        ranks_of(rules)[rules[i]] == i,
    decreases rules.len(),
{
    if i < rules.len() - 1 {
        let front = rules.drop_last();
        assert(rules[rules.len() - 1] != rules[i]);
        assert forall|j: int| i < j < front.len() implies front[j] != front[i] by {
            assert(rules[j] != rules[i]);
        }
        lemma_ranks(front, i);
    }
}

/// The digit of a value below sixteen, in capitals.
pub open spec fn capital_digit(x: int) -> char {
    seq!['0', '1', '2', '3', '4', '5', '6', '7', '8', '9', 'A', 'B', 'C', 'D', 'E', 'F'][x]
}

/// How a vocabulary writes a byte: two digits between `<0x` and `>`.
pub open spec fn byte_text(b: u8) -> Seq<char> {
    "<0x"@ + seq![capital_digit((b >> 4) as int), capital_digit((b & 0x0f) as int)] + ">"@
}

/// A byte that the vocabulary writes has the id of the last place where it is written.
pub proof fn law_bytes_have_their_tokens(m: TokenizerModel, f: GgufFile, b: u8, i: int)
    requires
        tokenizer_of_file(m, f),
        m.vocab.len() <= u32::MAX,
        0 <= i < m.vocab.len(),
        m.vocab[i] == byte_text(b),
        forall|j: int| i < j < m.vocab.len() ==> byte_of_token(#[trigger] m.vocab[j]) != Some(b),
    ensures
        m.byte_tokens.contains_key(b),
        m.byte_tokens[b] == i,
{
    lemma_byte_text(b);
    lemma_byte_ids(m.vocab, b, i);
}

proof fn lemma_byte_text(b: u8)
    ensures
        byte_of_token(byte_text(b)) == Some(b),
{
    reveal_strlit("<0x");
    reveal_strlit(">");
    let t = byte_text(b);
    let (h, l) = ((b >> 4) as int, (b & 0x0f) as int);
    assert(b == 16 * (b >> 4) + (b & 0x0f) && b >> 4 < 16 && b & 0x0f < 16) by (bit_vector);
    assert(t.subrange(0, 3) =~= "<0x"@);
    assert(t.subrange(5, 6) =~= ">"@);
    assert(t[3] == capital_digit(h) && t[4] == capital_digit(l));
}

proof fn lemma_byte_ids(vocab: Seq<Seq<char>>, b: u8, i: int)
    requires
        vocab.len() <= u32::MAX,
        0 <= i < vocab.len(),
        byte_of_token(vocab[i]) == Some(b),
        forall|j: int| i < j < vocab.len() ==> byte_of_token(#[trigger] vocab[j]) != Some(b),
    ensures
        ids_by_byte(vocab).contains_key(b),
        ids_by_byte(vocab)[b] == i,
    decreases vocab.len(),
{
    if i < vocab.len() - 1 {
        let front = vocab.drop_last();
        assert(byte_of_token(vocab[vocab.len() - 1]) != Some(b));
        assert forall|j: int| i < j < front.len() implies byte_of_token(#[trigger] front[j]) != Some(
            b,
        ) by {
            assert(front[j] == vocab[j]);
        }
        lemma_byte_ids(front, b, i);
    }
}

/// A token of the vocabulary that stands between `<|` and `|>` is special, with the id of the last place
/// where it stands.
pub proof fn law_marked_tokens_are_special(m: TokenizerModel, f: GgufFile, i: int)
    requires
        tokenizer_of_file(m, f),
        m.vocab.len() <= u32::MAX,
        0 <= i < m.vocab.len(),
        has_prefix(m.vocab[i], "<|"@),
        has_suffix(m.vocab[i], "|>"@),
        forall|j: int| i < j < m.vocab.len() ==> m.vocab[j] != m.vocab[i],
    ensures
        m.special_tokens.contains((m.vocab[i], i as u32)),
{
    let added = special_of_added(
        crate::tokenizer::load::list_under(f, "tokenizer.ggml.added_tokens"@),
    );
    let all = special_of_vocab(added, m.vocab);
    lemma_marked(added, m.vocab, i);
    assert(lists(m.special_tokens, all));
    assert(all.contains_key(m.vocab[i]));
    let k = choose|k: int|
        0 <= k < m.special_tokens.len() && #[trigger] m.special_tokens[k].0 == m.vocab[i];
    assert(m.special_tokens[k] == (m.vocab[i], i as u32));
}

proof fn lemma_marked(base: Map<Seq<char>, u32>, vocab: Seq<Seq<char>>, i: int)
    requires
        vocab.len() <= u32::MAX,
        0 <= i < vocab.len(),
        has_prefix(vocab[i], "<|"@),
        has_suffix(vocab[i], "|>"@),
        forall|j: int| i < j < vocab.len() ==> vocab[j] != vocab[i],
    ensures
        special_of_vocab(base, vocab).contains_key(vocab[i]),
        special_of_vocab(base, vocab)[vocab[i]] == i,
    decreases vocab.len(),
{
    if i < vocab.len() - 1 {
        let front = vocab.drop_last();
        assert(vocab[vocab.len() - 1] != vocab[i]);
        assert forall|j: int| i < j < front.len() implies front[j] != front[i] by {
            assert(vocab[j] != vocab[i]);
        }
        lemma_marked(base, front, i);
    }
}

/// A special token comes from the file: it is a text of the vocabulary between `<|` and `|>`, or one that
/// the file adds and that is no byte.
pub proof fn law_special_tokens_are_the_files(m: TokenizerModel, f: GgufFile, k: int)
    requires
        tokenizer_of_file(m, f),
        m.vocab.len() <= u32::MAX,
        0 <= k < m.special_tokens.len(),
    ensures
        ({
            let (t, id) = m.special_tokens[k];
            let added = crate::tokenizer::load::list_under(f, "tokenizer.ggml.added_tokens"@);
            ||| id < m.vocab.len() && m.vocab[id as int] == t && has_prefix(t, "<|"@) && has_suffix(
                t,
                "|>"@,
            )
            ||| exists|j: int|
                0 <= j < added.len() && #[trigger] added[j] == MetaModel::Text(t) && id == j as u32
                    && !has_prefix(t, "<0x"@)
        }),
{
    let added = crate::tokenizer::load::list_under(f, "tokenizer.ggml.added_tokens"@);
    let base = special_of_added(added);
    assert(lists(m.special_tokens, special_of_vocab(base, m.vocab)));
    let t = m.special_tokens[k].0;
    assert(special_of_vocab(base, m.vocab).contains_key(t));
    lemma_from_vocab(base, m.vocab, t);
    if base.contains_key(t) {
        lemma_from_added(added, t);
    }
}

proof fn lemma_from_vocab(base: Map<Seq<char>, u32>, vocab: Seq<Seq<char>>, t: Seq<char>)
    requires
        vocab.len() <= u32::MAX,
        special_of_vocab(base, vocab).contains_key(t),
    ensures
        ({
            let id = special_of_vocab(base, vocab)[t];
            ||| id < vocab.len() && vocab[id as int] == t && has_prefix(t, "<|"@) && has_suffix(
                t,
                "|>"@,
            )
            ||| base.contains_key(t) && id == base[t]
        }),
    decreases vocab.len(),
{
    if vocab.len() > 0 {
        let last = vocab.last();
        if !(has_prefix(last, "<|"@) && has_suffix(last, "|>"@) && last == t) {
            lemma_from_vocab(base, vocab.drop_last(), t);
        }
    }
}

proof fn lemma_from_added(added: Seq<MetaModel>, t: Seq<char>)
    requires
        special_of_added(added).contains_key(t),
    ensures
        exists|j: int|
            0 <= j < added.len() && #[trigger] added[j] == MetaModel::Text(t) && special_of_added(
                added,
            )[t] == j as u32 && !has_prefix(t, "<0x"@),
    decreases added.len(),
{
    if added.len() > 0 {
        let n = added.len() - 1;
        if added[n] == MetaModel::Text(t) && !has_prefix(t, "<0x"@) {
            assert(added[n] == MetaModel::Text(t));
        } else {
            let front = added.drop_last();
            lemma_from_added(front, t);
            let j = choose|j: int|
                0 <= j < front.len() && #[trigger] front[j] == MetaModel::Text(t)
                    && special_of_added(front)[t] == j as u32 && !has_prefix(t, "<0x"@);
            assert(added[j] == MetaModel::Text(t));
        }
    }
}

} // verus!
