//! Splitting text into words.
use vstd::prelude::*;

use crate::text::{is_white_space, white_space};
use crate::tokenizer::bpe::texts;

verus! {

/// `current` as a word of its own, where it holds anything.
pub open spec fn closed_word(current: Seq<char>) -> Seq<Seq<char>> {
    if current.len() == 0 {
        Seq::empty()
    } else {
        seq![current]
    }
}

/// The words of the text from `i` on, with `current` begun before it: white space separates, and
/// each white-space character is a word of its own.
pub open spec fn words_from(s: Seq<char>, i: int, current: Seq<char>) -> Seq<Seq<char>>
    decreases s.len() - i,
{
    if i < 0 || i >= s.len() {
        closed_word(current)
    } else if white_space(s[i]) {
        closed_word(current) + seq![seq![s[i]]] + words_from(s, i + 1, Seq::empty())
    } else {
        words_from(s, i + 1, current.push(s[i]))
    }
}

/// The words of a text.
pub open spec fn words_of(s: Seq<char>) -> Seq<Seq<char>> {
    words_from(s, 0, Seq::empty())
}

/// Splits a text into words.
pub fn pre_tokenize(text: &[char]) -> (r: Vec<String>)
    ensures
        texts(r@) == words_of(text@),
{
    let mut words: Vec<String> = Vec::new();
    let mut current = String::new();
    let mut i: usize = 0;
    assert(texts(words@) + words_of(text@) =~= words_of(text@));
    while i < text.len()
        invariant
            i <= text@.len(),
            words_of(text@) == texts(words@) + words_from(text@, i as int, current@),
        decreases text@.len() - i,
    {
        let c = text[i];
        let ghost done = texts(words@);
        let ghost cur = current@;
        if is_white_space(c) {
            if !current.as_str().is_empty() {
                words.push(current);
                current = String::new();
                assert(texts(words@) =~= done.push(cur));
            }
            assert(texts(words@) =~= done + closed_word(cur));
            let mut ws = String::new();
            ws.push(c);
            assert(ws@ =~= seq![c]);
            words.push(ws);
            proof {
                assert(current@ =~= Seq::<char>::empty());
                assert(texts(words@) =~= (done + closed_word(cur)).push(seq![c]));
                let rest = words_from(text@, i + 1, Seq::empty());
                assert(done + (closed_word(cur) + seq![seq![c]] + rest) =~= texts(words@) + rest);
            }
        } else {
            current.push(c);
        }
        i += 1;
    }
    let ghost done = texts(words@);
    let ghost cur = current@;
    if !current.as_str().is_empty() {
        words.push(current);
        assert(texts(words@) =~= done.push(cur));
    }
    assert(texts(words@) =~= done + closed_word(cur));
    words
}

/// Splitting loses nothing: the words in a row are the text.
pub proof fn law_words_make_up_the_text(s: Seq<char>)
    ensures
        words_of(s).flatten() == s,
{
    lemma_words_text(s, 0, Seq::empty());
    assert(Seq::<char>::empty() + s.skip(0) =~= s);
}

proof fn lemma_flatten_front(front: Seq<Seq<char>>, rest: Seq<Seq<char>>)
    ensures
        (front + rest).flatten() == front.flatten() + rest.flatten(),
    decreases front.len(),
{
    if front.len() == 0 {
        assert(front + rest =~= rest);
        assert(front.flatten() + rest.flatten() =~= rest.flatten());
    } else {
        lemma_flatten_front(front.drop_first(), rest);
        assert((front + rest).drop_first() =~= front.drop_first() + rest);
        assert((front + rest).first() == front.first());
        assert(front.first() + (front.drop_first().flatten() + rest.flatten()) =~= front.flatten()
            + rest.flatten());
    }
}

proof fn lemma_flatten_one(w: Seq<char>)
    ensures
        seq![w].flatten() == w,
{
    reveal_with_fuel(Seq::flatten, 2);
    assert(seq![w].drop_first() =~= Seq::<Seq<char>>::empty());
    assert(w + Seq::<char>::empty() =~= w);
}

proof fn lemma_closed_word(current: Seq<char>)
    ensures
        closed_word(current).flatten() == current,
{
    if current.len() == 0 {
        assert(current =~= Seq::<char>::empty());
    } else {
        lemma_flatten_one(current);
    }
}

proof fn lemma_words_text(s: Seq<char>, i: int, current: Seq<char>)
    requires
        0 <= i <= s.len(),
    ensures
        words_from(s, i, current).flatten() == current + s.skip(i),
    decreases s.len() - i,
{
    lemma_closed_word(current);
    if i == s.len() {
        assert(current + s.skip(i) =~= current);
    } else if white_space(s[i]) {
        let rest = words_from(s, i + 1, Seq::empty());
        lemma_words_text(s, i + 1, Seq::empty());
        lemma_flatten_front(closed_word(current) + seq![seq![s[i]]], rest);
        lemma_flatten_front(closed_word(current), seq![seq![s[i]]]);
        lemma_flatten_one(seq![s[i]]);
        assert(current + seq![s[i]] + (Seq::<char>::empty() + s.skip(i + 1)) =~= current + s.skip(
            i,
        ));
    } else {
        lemma_words_text(s, i + 1, current.push(s[i]));
        assert(current.push(s[i]) + s.skip(i + 1) =~= current + s.skip(i));
    }
}

/// A text without white space is one word.
pub proof fn law_unbroken_text_is_one_word(s: Seq<char>)
    requires
        s.len() > 0,
        forall|k: int| 0 <= k < s.len() ==> !white_space(#[trigger] s[k]),
    ensures
        words_of(s) == seq![s],
{
    lemma_one_word(s, 0, Seq::empty());
    assert(Seq::<char>::empty() + s.skip(0) =~= s);
}

proof fn lemma_one_word(s: Seq<char>, i: int, current: Seq<char>)
    requires
        0 <= i <= s.len(),
        forall|k: int| 0 <= k < s.len() ==> !white_space(#[trigger] s[k]),
    ensures
        words_from(s, i, current) == closed_word(current + s.skip(i)),
    decreases s.len() - i,
{
    if i == s.len() {
        assert(current + s.skip(i) =~= current);
    } else {
        lemma_one_word(s, i + 1, current.push(s[i]));
        assert(current.push(s[i]) + s.skip(i + 1) =~= current + s.skip(i));
    }
}

/// Every word is one white-space character, or is not empty and holds none.
pub proof fn law_words_are_pure(s: Seq<char>, k: int)
    requires
        0 <= k < words_of(s).len(),
    ensures
        words_of(s)[k].len() > 0,
        words_of(s)[k].len() == 1 || forall|j: int|
            0 <= j < words_of(s)[k].len() ==> !white_space(#[trigger] words_of(s)[k][j]),
{
    lemma_words_pure(s, 0, Seq::empty(), k);
}

proof fn lemma_words_pure(s: Seq<char>, i: int, current: Seq<char>, k: int)
    requires
        0 <= i <= s.len(),
        forall|j: int| 0 <= j < current.len() ==> !white_space(#[trigger] current[j]),
        0 <= k < words_from(s, i, current).len(),
    ensures
        words_from(s, i, current)[k].len() > 0,
        words_from(s, i, current)[k].len() == 1 || forall|j: int|
            0 <= j < words_from(s, i, current)[k].len() ==> !white_space(
                #[trigger] words_from(s, i, current)[k][j],
            ),
    decreases s.len() - i,
{
    if i < s.len() {
        if white_space(s[i]) {
            let head = closed_word(current) + seq![seq![s[i]]];
            if k >= head.len() {
                lemma_words_pure(s, i + 1, Seq::empty(), k - head.len());
            }
        } else {
            lemma_words_pure(s, i + 1, current.push(s[i]), k);
        }
    }
}

/// White space separates: the words of a text are those before a white-space character, the character,
/// and those behind it.
pub proof fn law_words_split_at_white_space(a: Seq<char>, c: char, b: Seq<char>)
    requires
        white_space(c),
    ensures
        words_of(a + seq![c] + b) == words_of(a) + seq![seq![c]] + words_of(b),
{
    lemma_split(a, c, b, 0, Seq::empty());
}

proof fn lemma_split(a: Seq<char>, c: char, b: Seq<char>, i: int, current: Seq<char>)
    requires
        0 <= i <= a.len(),
        white_space(c),
    ensures
        words_from(a + seq![c] + b, i, current) == words_from(a, i, current) + seq![seq![c]]
            + words_of(b),
    decreases a.len() - i,
{
    let s = a + seq![c] + b;
    if i == a.len() {
        assert(s[i] == c);
        lemma_behind(s, b, i + 1, 0, Seq::empty());
    } else if white_space(a[i]) {
        assert(s[i] == a[i]);
        lemma_split(a, c, b, i + 1, Seq::empty());
        let front = closed_word(current) + seq![seq![s[i]]];
        assert(front + (words_from(a, i + 1, Seq::empty()) + seq![seq![c]] + words_of(b)) =~= front
            + words_from(a, i + 1, Seq::empty()) + seq![seq![c]] + words_of(b));
    } else {
        assert(s[i] == a[i]);
        lemma_split(a, c, b, i + 1, current.push(a[i]));
    }
}

proof fn lemma_behind(s: Seq<char>, b: Seq<char>, n: int, i: int, current: Seq<char>)
    requires
        0 <= n,
        0 <= i <= b.len(),
        s.len() == n + b.len(),
        forall|k: int| 0 <= k < b.len() ==> s[n + k] == #[trigger] b[k],
    ensures
        words_from(s, n + i, current) == words_from(b, i, current),
    decreases b.len() - i,
{
    if i < b.len() {
        assert(s[n + i] == b[i]);
        lemma_behind(s, b, n, i + 1, Seq::empty());
        lemma_behind(s, b, n, i + 1, current.push(b[i]));
    }
}

} // verus!
