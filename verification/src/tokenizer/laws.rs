//! What holds of encoding and decoding together.
use vstd::prelude::*;
use vstd::utf8::{
    encode_utf8, encode_utf8_decode_utf8, encode_utf8_valid_utf8, is_ascii_chars,
    is_ascii_chars_encode_utf8,
};

use crate::text::{find, has_prefix, latin1, lemma_find_from, occurs_at, white_space};
use crate::tokenizer::bpe::{
    law_best_pair_has_lowest_rank, law_merging_is_complete, law_merging_keeps_the_text, merge_tokens,
    rank_at,
};
use crate::tokenizer::encoder::{
    decoded, distinct_tokens, encoded, id_text, id_texts, law_longest_special_is_taken,
    longest_special, merged_ids, next_of, no_empty_token, raw_text, text_ids, token_ids, word_ids,
    words_ids, TokenizerModel,
};
use crate::tokenizer::gpt2::spelled_bytes;
use crate::tokenizer::jinja::{render, render_from, ContextText};
use crate::tokenizer::words::law_unbroken_text_is_one_word;

verus! {

/// Asking for the id that begins a text adds that id at the front, and nothing else.
pub proof fn law_bos_comes_first(m: TokenizerModel, text: Seq<char>)
    ensures
        encoded(m, text, true) == seq![m.bos_id] + encoded(m, text, false),
{
}

/// A special token at the front of a text is taken whole, unless a longer one stands there too: the
/// text encodes to its id, then the ids of the rest.
pub proof fn law_special_token_comes_off_whole(m: TokenizerModel, k: int, rest: Seq<char>)
    requires
        distinct_tokens(m.special_tokens),
        no_empty_token(m.special_tokens),
        0 <= k < m.special_tokens.len(),
        forall|j: int|
            0 <= j < m.special_tokens.len() && has_prefix(
                m.special_tokens[k].0 + rest,
                (#[trigger] m.special_tokens[j]).0,
            ) ==> m.special_tokens[j].0.len() <= m.special_tokens[k].0.len(),
    ensures
        encoded(m, m.special_tokens[k].0 + rest, false) == seq![m.special_tokens[k].1] + encoded(
            m,
            rest,
            false,
        ),
{
    let sp = m.special_tokens;
    let text = sp[k].0 + rest;
    let n = sp[k].0.len() as int;
    law_longest_special_is_taken(sp, text);
    assert(text.subrange(0, n) =~= sp[k].0);
    assert(has_prefix(text, sp[k].0));
    let j = longest_special(sp, text)->0;
    assert(sp[j].0.len() == n);
    assert(sp[j].0 =~= sp[k].0);
    if j < k {
        assert(sp[j].0 != sp[k].0);
    }
    if k < j {
        assert(sp[k].0 != sp[j].0);
    }
    assert(text.skip(n) =~= rest);
}

/// A special token is never split: its text alone encodes to its id alone.
pub proof fn law_special_token_is_one_id(m: TokenizerModel, k: int)
    requires
        distinct_tokens(m.special_tokens),
        no_empty_token(m.special_tokens),
        0 <= k < m.special_tokens.len(),
    ensures
        encoded(m, m.special_tokens[k].0, false) == seq![m.special_tokens[k].1],
{
    let (text, none) = (m.special_tokens[k].0, Seq::<char>::empty());
    assert(text + none =~= text);
    law_special_token_comes_off_whole(m, k, none);
    assert(text_ids(m, none) =~= Seq::empty());
    assert(seq![m.special_tokens[k].1] + Seq::<u32>::empty() =~= seq![m.special_tokens[k].1]);
}

proof fn lemma_no_special_inside(sp: Seq<(Seq<char>, u32)>, text: Seq<char>, n: nat)
    requires
        n <= sp.len(),
        forall|i: int| 0 <= i < sp.len() ==> find(text, (#[trigger] sp[i]).0) is None,
    ensures
        next_of(sp, text, n) == text.len(),
    decreases n,
{
    if n > 0 {
        lemma_no_special_inside(sp, text, (n - 1) as nat);
        assert(find(text, sp[n - 1].0) is None);
    }
}

/// Printable ASCII other than the space.
pub open spec fn printable(c: char) -> bool {
    '!' <= c <= '~'
}

/// A word of the vocabulary that is plain printable ASCII and holds no special token encodes to
/// its own id, and decoding that id gives back the word.
pub proof fn law_known_word_survives(m: TokenizerModel, word: Seq<char>)
    requires
        word.len() > 0,
        forall|i: int| 0 <= i < word.len() ==> printable(#[trigger] word[i]),
        forall|i: int|
            0 <= i < m.special_tokens.len() ==> find(word, (#[trigger] m.special_tokens[i]).0)
                is None,
        m.token_to_id.contains_key(word),
        id_text(m, m.token_to_id[word]) == word,
    ensures
        encoded(m, word, false) == seq![m.token_to_id[word]],
        decoded(m, encoded(m, word, false)) == word,
{
    let sp = m.special_tokens;
    let id = m.token_to_id[word];
    law_longest_special_is_taken(sp, word);
    if longest_special(sp, word) is Some {
        let k = longest_special(sp, word)->0;
        lemma_find_from(word, sp[k].0, 0);
        assert(find(word, sp[k].0) is None);
    }
    lemma_no_special_inside(sp, word, sp.len());
    assert forall|i: int| 0 <= i < word.len() implies !white_space(#[trigger] word[i]) by {
        assert(printable(word[i]));
    }
    law_unbroken_text_is_one_word(word);
    assert(word.take(word.len() as int) =~= word);
    assert(word.skip(word.len() as int).len() == 0);
    assert(is_ascii_chars(word)) by {
        assert forall|i: int| 0 <= i < word.len() implies '\0' <= #[trigger] word[i] <= '\u{7f}' by {
            assert(printable(word[i]));
        }
    }
    let words = seq![word];
    assert(words.drop_last() =~= Seq::<Seq<char>>::empty());
    assert(words_ids(m, words.drop_last()) =~= Seq::<u32>::empty());
    assert(words_ids(m, words) =~= seq![id]);
    assert(text_ids(m, word.skip(word.len() as int)) =~= Seq::<u32>::empty());
    assert(text_ids(m, word) =~= seq![id]);
    let ids = seq![id];
    assert(ids.drop_last() =~= Seq::<u32>::empty());
    assert(raw_text(m, ids.drop_last()) =~= Seq::<char>::empty());
    assert(raw_text(m, ids) =~= word);
    lemma_ascii_spelling(word);
    is_ascii_chars_encode_utf8(word);
    encode_utf8_valid_utf8(word);
    encode_utf8_decode_utf8(word);
    assert(spelled_bytes(raw_text(m, ids)) =~= encode_utf8(word));
}

proof fn lemma_ascii_spelling(word: Seq<char>)
    requires
        forall|i: int| 0 <= i < word.len() ==> printable(#[trigger] word[i]),
    ensures
        spelled_bytes(word) =~= Seq::new(word.len(), |i: int| word[i] as u8),
    decreases word.len(),
{
    if word.len() > 0 {
        assert(printable(word[word.len() - 1]));
        let front = word.drop_last();
        assert forall|i: int| 0 <= i < front.len() implies printable(#[trigger] front[i]) by {
            assert(front[i] == word[i]);
        }
        lemma_ascii_spelling(front);
    }
}

/// The vocabulary texts of two runs of ids in a row are those of both together.
pub proof fn law_raw_text_concatenates(m: TokenizerModel, a: Seq<u32>, b: Seq<u32>)
    ensures
        raw_text(m, a + b) == raw_text(m, a) + raw_text(m, b),
    decreases b.len(),
{
    if b.len() == 0 {
        assert(a + b =~= a);
        assert(raw_text(m, a) + Seq::<char>::empty() =~= raw_text(m, a));
    } else {
        law_raw_text_concatenates(m, a, b.drop_last());
        assert((a + b).drop_last() =~= a + b.drop_last());
        assert(raw_text(m, a + b) =~= raw_text(m, a) + raw_text(m, b));
    }
}

/// A template without tags: no brace is followed by what would open one.
pub open spec fn no_tags(t: Seq<char>) -> bool {
    forall|i: int|
        0 <= i < t.len() - 1 && #[trigger] t[i] == '{' ==> t[i + 1] != '{' && t[i + 1] != '%' && t[i
            + 1] != '#'
}

/// A plain ASCII template without tags is its own text, whatever the conversation.
pub proof fn law_plain_template_is_kept(t: Seq<char>, c: ContextText)
    requires
        is_ascii_chars(t),
        no_tags(t),
    ensures
        render(t, c) == t,
{
    lemma_plain_from(t, 0, c);
    assert(t.skip(0) =~= t);
}

proof fn lemma_plain_from(t: Seq<char>, pos: int, c: ContextText)
    requires
        is_ascii_chars(t),
        no_tags(t),
        0 <= pos <= t.len(),
    ensures
        render_from(t, pos, c) == t.skip(pos),
    decreases t.len() - pos,
{
    if pos < t.len() {
        reveal_strlit("{{");
        reveal_strlit("{%");
        reveal_strlit("{#");
        lemma_plain_from(t, pos + 1, c);
        if occurs_at(t, pos, "{{"@) {
            assert(t.subrange(pos, pos + 2)[1] == '{');
        }
        if occurs_at(t, pos, "{%"@) {
            assert(t.subrange(pos, pos + 2)[1] == '%');
        }
        if occurs_at(t, pos, "{#"@) {
            assert(t.subrange(pos, pos + 2)[1] == '#');
        }
        if occurs_at(t, pos, "{{"@) || occurs_at(t, pos, "{%"@) || occurs_at(t, pos, "{#"@) {
            assert(t.subrange(pos, pos + 2)[0] == '{');
            assert(t[pos] == '{');
        }
        let one = seq![t[pos]];
        assert(is_ascii_chars(one)) by {
            assert('\0' <= t[pos] <= '\u{7f}');
        }
        is_ascii_chars_encode_utf8(one);
        assert(encode_utf8(one)[0] == one[0] as u8);
        assert(((t[pos] as u8) as char) == t[pos]);
        assert(latin1(t[pos]) =~= one);
        assert(one + t.skip(pos + 1) =~= t.skip(pos));
    } else {
        assert(t.skip(pos) =~= Seq::<char>::empty());
    }
}

/// Words are merged: behind encoding, the tokens of a word are its bytes' tokens merged by the rules, and
/// no rule applies to neighbours any more.  The rules' results have to be in the vocabulary.
pub proof fn law_words_are_merged(m: TokenizerModel, word: Seq<char>)
    requires
        m.merges.len() > 0,
        word_ids(m, word).len() > 1,
        ({
            let merged = merge_tokens(id_texts(m, word_ids(m, word)), m.merge_ranks);
            forall|i: int|
                0 <= i < merged.len() ==> m.token_to_id.contains_key(#[trigger] merged[i])
                    && id_text(m, m.token_to_id[merged[i]]) == merged[i]
        }),
    ensures
        ({
            let bytes = id_texts(m, word_ids(m, word));
            let tokens = id_texts(m, words_ids(m, seq![word]));
            &&& tokens == merge_tokens(bytes, m.merge_ranks)
            &&& tokens.flatten() == bytes.flatten()
            &&& forall|i: int|
                0 <= i < tokens.len() - 1 ==> #[trigger] rank_at(tokens, m.merge_ranks, i)
                    == usize::MAX
        }),
{
    let ids = word_ids(m, word);
    let bytes = id_texts(m, ids);
    let merged = merge_tokens(bytes, m.merge_ranks);
    let words = seq![word];
    assert(words.drop_last() =~= Seq::<Seq<char>>::empty());
    assert(words_ids(m, words.drop_last()) =~= Seq::<u32>::empty());
    assert(words.last() == word);
    assert(words_ids(m, words) =~= merged_ids(m, ids));
    lemma_known_tokens(m, merged);
    law_merging_keeps_the_text(bytes, m.merge_ranks);
    law_merging_is_complete(bytes, m.merge_ranks);
    law_best_pair_has_lowest_rank(merged, m.merge_ranks);
}

proof fn lemma_known_tokens(m: TokenizerModel, tokens: Seq<Seq<char>>)
    requires
        forall|i: int|
            0 <= i < tokens.len() ==> m.token_to_id.contains_key(#[trigger] tokens[i]) && id_text(
                m,
                m.token_to_id[tokens[i]],
            ) == tokens[i],
    ensures
        id_texts(m, token_ids(m, tokens)) == tokens,
    decreases tokens.len(),
{
    if tokens.len() > 0 {
        let front = tokens.drop_last();
        assert forall|i: int| 0 <= i < front.len() implies m.token_to_id.contains_key(
            #[trigger] front[i],
        ) && id_text(m, m.token_to_id[front[i]]) == front[i] by {
            assert(front[i] == tokens[i]);
        }
        lemma_known_tokens(m, front);
        assert(tokens.last() == tokens[tokens.len() - 1]);
        assert(id_texts(m, token_ids(m, tokens)) =~= id_texts(m, token_ids(m, front)).push(
            tokens.last(),
        ));
        assert(front.push(tokens.last()) =~= tokens);
    } else {
        assert(id_texts(m, token_ids(m, tokens)) =~= tokens);
    }
}

} // verus!
