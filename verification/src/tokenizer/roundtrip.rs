//! Decoding undoes encoding.
use vstd::prelude::*;
use vstd::seq_lib::lemma_flatten_concat;
use vstd::utf8::{
    encode_utf8, encode_utf8_decode_utf8, encode_utf8_valid_utf8, is_ascii_chars,
    is_ascii_chars_encode_utf8,
};

use crate::tokenizer::bpe::{
    best_pair, join_from, law_best_pair_has_lowest_rank, law_merging_keeps_the_text,
    lemma_join_shrinks, merge_tokens,
};
use crate::tokenizer::encoder::{
    byte_ids, decoded, encoded, id_text, id_texts, law_longest_special_is_taken, lemma_next_of,
    longest_special, merged_ids, next_special, raw_text, text_ids, token_ids, word_ids, words_ids,
    TokenizerModel,
};
use crate::tokenizer::gpt2::{char_byte, law_spelling_concatenates, spelled_bytes};
use crate::tokenizer::laws::law_raw_text_concatenates;
use crate::tokenizer::words::{law_words_make_up_the_text, words_of};

verus! {

/// The id of a single byte.
pub open spec fn byte_id(m: TokenizerModel, b: u8) -> Option<u32> {
    if m.byte_tokens.contains_key(b) {
        Some(m.byte_tokens[b])
    } else if m.token_to_id.contains_key(seq![b as char]) {
        Some(m.token_to_id[seq![b as char]])
    } else {
        None
    }
}

/// A byte's id is known, and its text is a token that spells the byte.
pub open spec fn spells_byte(m: TokenizerModel, b: u8) -> bool {
    byte_id(m, b) matches Some(id) && spelled_bytes(id_text(m, id)) == seq![b]
        && m.token_to_id.contains_key(id_text(m, id))
}

/// A vocabulary that covers every text: ids and tokens belong together, every byte can be spelled,
/// every merge gives a token, and special tokens are not empty and spell themselves.
pub open spec fn byte_level(m: TokenizerModel) -> bool {
    &&& forall|t: Seq<char>| #[trigger]
        m.token_to_id.contains_key(t) ==> id_text(m, m.token_to_id[t]) == t
    &&& forall|b: u8| #[trigger] spells_byte(m, b)
    &&& forall|a: Seq<char>, b: Seq<char>| #[trigger]
        m.merge_ranks.contains_key((a, b)) ==> m.token_to_id.contains_key(a + b)
    &&& forall|i: int|
        0 <= i < m.special_tokens.len() ==> (#[trigger] m.special_tokens[i]).0.len() > 0
            && spelled_bytes(id_text(m, m.special_tokens[i].1)) == encode_utf8(
            m.special_tokens[i].0,
        )
}

/// Every token of a run is in the vocabulary.
pub open spec fn all_known(m: TokenizerModel, tokens: Seq<Seq<char>>) -> bool {
    forall|i: int| 0 <= i < tokens.len() ==> m.token_to_id.contains_key(#[trigger] tokens[i])
}

proof fn lemma_encode_concat(a: Seq<char>, b: Seq<char>)
    ensures
        encode_utf8(a + b) == encode_utf8(a) + encode_utf8(b),
    decreases a.len(),
{
    if a.len() == 0 {
        assert(a + b =~= b);
        assert(encode_utf8(a) + encode_utf8(b) =~= encode_utf8(b));
    } else {
        lemma_encode_concat(a.drop_first(), b);
        assert((a + b).drop_first() =~= a.drop_first() + b);
        assert(encode_utf8(a + b) =~= encode_utf8(a) + encode_utf8(b));
    }
}

proof fn lemma_one_id(m: TokenizerModel, id: u32)
    ensures
        raw_text(m, seq![id]) == id_text(m, id),
{
    let ids = seq![id];
    assert(ids.drop_last() =~= Seq::<u32>::empty());
    assert(raw_text(m, ids.drop_last()) =~= Seq::<char>::empty());
    assert(raw_text(m, ids) =~= id_text(m, id));
}

/// The ids of bytes spell those bytes, with tokens of the vocabulary.
proof fn lemma_byte_ids(m: TokenizerModel, bytes: Seq<u8>)
    requires
        byte_level(m),
    ensures
        spelled_bytes(raw_text(m, byte_ids(m, bytes))) == bytes,
        all_known(m, id_texts(m, byte_ids(m, bytes))),
    decreases bytes.len(),
{
    if bytes.len() == 0 {
        assert(raw_text(m, byte_ids(m, bytes)) =~= Seq::<char>::empty());
        assert(spelled_bytes(Seq::<char>::empty()) =~= bytes);
    } else {
        let front = byte_ids(m, bytes.drop_last());
        let b = bytes.last();
        lemma_byte_ids(m, bytes.drop_last());
        assert(spells_byte(m, b));
        let id = byte_id(m, b)->0;
        let ids = byte_ids(m, bytes);
        assert(ids =~= front.push(id));
        assert(ids.drop_last() =~= front);
        law_spelling_concatenates(raw_text(m, front), id_text(m, id));
        assert(bytes.drop_last() + seq![b] =~= bytes);
        let known = id_texts(m, ids);
        assert forall|i: int| 0 <= i < known.len() implies m.token_to_id.contains_key(
            #[trigger] known[i],
        ) by {
            if i < front.len() {
                assert(known[i] == id_texts(m, front)[i]);
            }
        }
    }
}

proof fn lemma_raw_is_flat(m: TokenizerModel, ids: Seq<u32>)
    ensures
        raw_text(m, ids) == id_texts(m, ids).flatten(),
    decreases ids.len(),
{
    let all = id_texts(m, ids);
    if ids.len() > 0 {
        lemma_raw_is_flat(m, ids.drop_last());
        let front = id_texts(m, ids.drop_last());
        let last = seq![id_text(m, ids.last())];
        assert(all =~= front + last);
        lemma_flatten_concat(front, last);
        last.lemma_flatten_one_element();
    } else {
        assert(all =~= Seq::<Seq<char>>::empty());
        assert(all.flatten() =~= Seq::<char>::empty());
    }
}

proof fn lemma_token_ids(m: TokenizerModel, tokens: Seq<Seq<char>>)
    requires
        byte_level(m),
        all_known(m, tokens),
    ensures
        raw_text(m, token_ids(m, tokens)) == tokens.flatten(),
    decreases tokens.len(),
{
    if tokens.len() > 0 {
        let front = tokens.drop_last();
        let t = tokens.last();
        assert(all_known(m, front)) by {
            assert forall|i: int| 0 <= i < front.len() implies m.token_to_id.contains_key(
                #[trigger] front[i],
            ) by {
                assert(front[i] == tokens[i]);
            }
        }
        lemma_token_ids(m, front);
        assert(m.token_to_id.contains_key(tokens[tokens.len() - 1]));
        let ids = token_ids(m, tokens);
        assert(ids.drop_last() =~= token_ids(m, front));
        assert(tokens =~= front + seq![t]);
        lemma_flatten_concat(front, seq![t]);
        seq![t].lemma_flatten_one_element();
    } else {
        assert(tokens.flatten() =~= Seq::<char>::empty());
        assert(raw_text(m, token_ids(m, tokens)) =~= Seq::<char>::empty());
    }
}

proof fn lemma_join_known(m: TokenizerModel, tokens: Seq<Seq<char>>, a: Seq<char>, b: Seq<char>, i: int)
    requires
        all_known(m, tokens),
        m.token_to_id.contains_key(a + b),
        0 <= i,
    ensures
        all_known(m, join_from(tokens, a, b, i)),
    decreases tokens.len() - i,
{
    if i < tokens.len() {
        let all = join_from(tokens, a, b, i);
        let paired = i + 1 < tokens.len() && tokens[i] == a && tokens[i + 1] == b;
        let next = if paired {
            i + 2
        } else {
            i + 1
        };
        lemma_join_known(m, tokens, a, b, next);
        let rest = join_from(tokens, a, b, next);
        assert forall|k: int| 0 <= k < all.len() implies m.token_to_id.contains_key(
            #[trigger] all[k],
        ) by {
            if k > 0 {
                assert(all[k] == rest[k - 1]);
            } else {
                assert(m.token_to_id.contains_key(tokens[i]));
            }
        }
    }
}

proof fn lemma_merge_known(m: TokenizerModel, tokens: Seq<Seq<char>>)
    requires
        byte_level(m),
        all_known(m, tokens),
    ensures
        all_known(m, merge_tokens(tokens, m.merge_ranks)),
    decreases tokens.len(),
{
    law_best_pair_has_lowest_rank(tokens, m.merge_ranks);
    if let Some(i) = best_pair(tokens, m.merge_ranks) {
        let (a, b) = (tokens[i], tokens[i + 1]);
        assert(m.merge_ranks.contains_key((a, b)));
        lemma_join_shrinks(tokens, a, b, 0, i);
        lemma_join_known(m, tokens, a, b, 0);
        lemma_merge_known(m, join_from(tokens, a, b, 0));
    }
}

proof fn lemma_ascii_spells_itself(word: Seq<char>)
    requires
        is_ascii_chars(word),
    ensures
        spelled_bytes(word) == encode_utf8(word),
{
    lemma_ascii_codes(word);
    is_ascii_chars_encode_utf8(word);
    assert(spelled_bytes(word) =~= encode_utf8(word));
}

proof fn lemma_ascii_codes(word: Seq<char>)
    requires
        is_ascii_chars(word),
    ensures
        spelled_bytes(word) == Seq::new(word.len(), |i: int| word[i] as u8),
    decreases word.len(),
{
    if word.len() > 0 {
        let front = word.drop_last();
        assert(is_ascii_chars(front)) by {
            assert forall|i: int| 0 <= i < front.len() implies '\0' <= #[trigger] front[i] <= '\u{7f}' by {
                assert(front[i] == word[i]);
            }
        }
        lemma_ascii_codes(front);
        let c = word[word.len() - 1];
        assert('\0' <= c <= '\u{7f}');
        assert(char_byte(c) == Some(c as u8));
        assert(spelled_bytes(word) =~= Seq::new(word.len(), |i: int| word[i] as u8));
    } else {
        assert(spelled_bytes(word) =~= Seq::new(word.len(), |i: int| word[i] as u8));
    }
}

/// The ids of a word spell the word.
proof fn lemma_word(m: TokenizerModel, word: Seq<char>)
    requires
        byte_level(m),
    ensures
        spelled_bytes(raw_text(m, merged_ids(m, word_ids(m, word)))) == encode_utf8(word),
{
    let ids = word_ids(m, word);
    if is_ascii_chars(word) && m.token_to_id.contains_key(word) {
        lemma_one_id(m, m.token_to_id[word]);
        lemma_ascii_spells_itself(word);
    } else {
        lemma_byte_ids(m, encode_utf8(word));
        if ids.len() > 1 && m.merges.len() > 0 {
            let tokens = id_texts(m, ids);
            lemma_merge_known(m, tokens);
            lemma_token_ids(m, merge_tokens(tokens, m.merge_ranks));
            law_merging_keeps_the_text(tokens, m.merge_ranks);
            lemma_raw_is_flat(m, ids);
        }
    }
}

proof fn lemma_words(m: TokenizerModel, words: Seq<Seq<char>>)
    requires
        byte_level(m),
    ensures
        spelled_bytes(raw_text(m, words_ids(m, words))) == encode_utf8(words.flatten()),
    decreases words.len(),
{
    if words.len() > 0 {
        let front = words.drop_last();
        let word = words.last();
        lemma_words(m, front);
        lemma_word(m, word);
        let (a, b) = (words_ids(m, front), merged_ids(m, word_ids(m, word)));
        law_raw_text_concatenates(m, a, b);
        law_spelling_concatenates(raw_text(m, a), raw_text(m, b));
        assert(words =~= front + seq![word]);
        lemma_flatten_concat(front, seq![word]);
        seq![word].lemma_flatten_one_element();
        lemma_encode_concat(front.flatten(), word);
    } else {
        assert(words.flatten() =~= Seq::<char>::empty());
        assert(raw_text(m, words_ids(m, words)) =~= Seq::<char>::empty());
        assert(spelled_bytes(Seq::<char>::empty()) =~= encode_utf8(Seq::<char>::empty()));
    }
}

/// The tokens of a text spell the bytes of the text, whatever the text, over a vocabulary that
/// covers every byte.
pub proof fn law_tokens_spell_the_text(m: TokenizerModel, text: Seq<char>)
    requires
        byte_level(m),
    ensures
        spelled_bytes(raw_text(m, encoded(m, text, false))) == encode_utf8(text),
    decreases text.len(),
{
    let sp = m.special_tokens;
    if text.len() == 0 {
        assert(raw_text(m, text_ids(m, text)) =~= Seq::<char>::empty());
        assert(spelled_bytes(Seq::<char>::empty()) =~= encode_utf8(text));
    } else {
        law_longest_special_is_taken(sp, text);
        match longest_special(sp, text) {
            Some(k) => {
                assert(sp[k].0.len() > 0);
                let n = sp[k].0.len() as int;
                law_tokens_spell_the_text(m, text.skip(n));
                let (a, b) = (seq![sp[k].1], text_ids(m, text.skip(n)));
                lemma_one_id(m, sp[k].1);
                law_raw_text_concatenates(m, a, b);
                law_spelling_concatenates(raw_text(m, a), raw_text(m, b));
                assert(sp[k].0 =~= text.take(n));
                lemma_encode_concat(text.take(n), text.skip(n));
                assert(text.take(n) + text.skip(n) =~= text);
            },
            None => {
                lemma_next_of(sp, text, sp.len());
                let end = next_special(sp, text);
                law_tokens_spell_the_text(m, text.skip(end));
                let words = words_of(text.take(end));
                lemma_words(m, words);
                law_words_make_up_the_text(text.take(end));
                let (a, b) = (words_ids(m, words), text_ids(m, text.skip(end)));
                law_raw_text_concatenates(m, a, b);
                law_spelling_concatenates(raw_text(m, a), raw_text(m, b));
                lemma_encode_concat(text.take(end), text.skip(end));
                assert(text.take(end) + text.skip(end) =~= text);
            },
        }
    }
}

/// Decoding undoes encoding: any text comes back from its ids, over a vocabulary that covers every
/// byte.
pub proof fn law_decoding_undoes_encoding(m: TokenizerModel, text: Seq<char>)
    requires
        byte_level(m),
    ensures
        decoded(m, encoded(m, text, false)) == text,
{
    law_tokens_spell_the_text(m, text);
    encode_utf8_valid_utf8(text);
    encode_utf8_decode_utf8(text);
}

} // verus!
