//! Filtering of reasoning sections out of streamed text.
use vstd::prelude::*;

use crate::text::{
    chars_of, find, find_from, find_str_from, lemma_find_from, occurs_at, string_of,
};

verus! {

/// What a token does to the filter from position `pos` on: the next state and the parts of the text
/// to show.
pub open spec fn think_from(in_think: bool, token: Seq<char>, pos: int) -> (bool, Seq<Seq<char>>)
    decreases token.len() - pos via think_from_decreases
{
    if pos < 0 {
        (in_think, Seq::empty())
    } else if in_think {
        match find_from(token, "</think>"@, pos) {
            Some(p) => think_from(false, token, p + "</think>"@.len()),
            None => (true, Seq::empty()),
        }
    } else {
        match find_from(token, "<think>"@, pos) {
            Some(p) => {
                let (next, more) = think_from(true, token, p + "<think>"@.len());
                (next, seq![token.subrange(pos, p)] + more)
            },
            None => (false, seq![token.subrange(pos, token.len() as int)]),
        }
    }
}

/// A tag stands inside the token.
proof fn lemma_tags(token: Seq<char>, pos: int)
    requires
        0 <= pos,
    ensures
        "<think>"@.len() == 7,
        "</think>"@.len() == 8,
        find_from(token, "<think>"@, pos) matches Some(p) ==> pos <= p && p + 7 <= token.len(),
        find_from(token, "</think>"@, pos) matches Some(p) ==> pos <= p && p + 8 <= token.len(),
{
    reveal_strlit("<think>");
    reveal_strlit("</think>");
    lemma_find_from(token, "<think>"@, pos);
    lemma_find_from(token, "</think>"@, pos);
}

#[via_fn]
proof fn think_from_decreases(in_think: bool, token: Seq<char>, pos: int) {
    if 0 <= pos {
        lemma_tags(token, pos);
    }
}

/// What one token does to the filter: the next state and the text to show.
pub open spec fn think_step(in_think: bool, token: Seq<char>) -> (bool, Seq<char>) {
    let (next, parts) = think_from(in_think, token, 0);
    (next, parts.flatten())
}

/// State and shown text after a stream of tokens.
pub open spec fn think_run(in_think: bool, tokens: Seq<Seq<char>>) -> (bool, Seq<char>)
    decreases tokens.len(),
{
    if tokens.len() == 0 {
        (in_think, Seq::empty())
    } else {
        let (mid, shown) = think_run(in_think, tokens.drop_last());
        let (next, more) = think_step(mid, tokens.last());
        (next, shown + more)
    }
}

/// State machine that strips `<think>` sections from a stream of text tokens.
///
/// It serves both models that emit `<think>` and `</think>` inside text tokens and models that
/// emit them as tokens of their own.
pub struct ThinkFilter {
    in_think: bool,
}

impl ThinkFilter {
    /// Whether the filter is inside a reasoning section.
    pub closed spec fn thinking(&self) -> bool {
        self.in_think
    }

    pub fn new() -> (r: Self)
        ensures
            !r.thinking(),
    {
        ThinkFilter { in_think: false }
    }

    /// Takes one text token and returns the part of it that is shown.
    pub fn process(&mut self, token: &str) -> (r: String)
        ensures
            (final(self).thinking(), r@) == think_step(old(self).thinking(), token@),
    {
        let cs = chars_of(token);
        let t = cs.as_slice();
        let mut out = String::new();
        let mut pos: usize = 0;
        let ghost mut parts: Seq<Seq<char>> = Seq::empty();
        let ghost whole = think_from(old(self).in_think, token@, 0);
        loop
            invariant
                t@ == token@,
                pos <= t@.len(),
                out@ == parts.flatten(),
                whole == think_from(old(self).in_think, token@, 0),
                whole == ({
                    let (next, more) = think_from(self.in_think, token@, pos as int);
                    (next, parts + more)
                }),
            decreases t@.len() - pos,
        {
            proof {
                lemma_tags(token@, pos as int);
            }
            if self.in_think {
                match find_str_from(t, "</think>", pos) {
                    Some(p) => {
                        self.in_think = false;
                        assert(p + 8 <= t.len());
                        pos = p + 8;
                    },
                    None => {
                        assert(parts + Seq::<Seq<char>>::empty() =~= parts);
                        return out;
                    },
                }
            } else {
                let found = find_str_from(t, "<think>", pos);
                let end: usize = match found {
                    Some(p) => p,
                    None => t.len(),
                };
                let part = string_of(t, pos, end);
                out.append(part.as_str());
                proof {
                    lemma_flatten_push(parts, part@);
                    let more = think_from(self.in_think, token@, pos as int).1;
                    assert(parts + more =~= parts.push(part@) + more.skip(1));
                    parts = parts.push(part@);
                }
                match found {
                    Some(p) => {
                        self.in_think = true;
                        assert(p + 7 <= t.len());
                        pos = p + 7;
                        assert(think_from(false, token@, end - part@.len()).1.skip(1) =~= think_from(
                            true,
                            token@,
                            pos as int,
                        ).1);
                    },
                    None => {
                        assert(think_from(false, token@, pos as int).1.skip(1) =~= Seq::empty());
                        assert(parts + Seq::<Seq<char>>::empty() =~= parts);
                        return out;
                    },
                }
            }
        }
    }
}

proof fn lemma_flatten_push(parts: Seq<Seq<char>>, last: Seq<char>)
    ensures
        parts.push(last).flatten() == parts.flatten() + last,
{
    parts.push(last).lemma_flatten_and_flatten_alt_are_equivalent();
    parts.lemma_flatten_and_flatten_alt_are_equivalent();
    assert(parts.push(last).drop_last() =~= parts);
}

proof fn lemma_flatten_one(part: Seq<char>)
    ensures
        seq![part].flatten() == part,
{
    lemma_flatten_push(Seq::empty(), part);
    assert(Seq::<Seq<char>>::empty().push(part) =~= seq![part]);
    assert(Seq::<Seq<char>>::empty().flatten() + part =~= part);
}

impl Default for ThinkFilter {
    fn default() -> (r: Self)
        ensures
            !r.thinking(),
    {
        ThinkFilter::new()
    }
}

/// Text without an opening tag passes through an idle filter unchanged, token by token.
pub proof fn law_plain_text_is_kept(tokens: Seq<Seq<char>>)
    requires
        forall|i: int|
            0 <= i < tokens.len() ==> find(#[trigger] tokens[i], "<think>"@) is None,
    ensures
        think_run(false, tokens) == (false, tokens.flatten()),
    decreases tokens.len(),
{
    if tokens.len() > 0 {
        law_plain_text_is_kept(tokens.drop_last());
        tokens.lemma_flatten_and_flatten_alt_are_equivalent();
        tokens.drop_last().lemma_flatten_and_flatten_alt_are_equivalent();
        let last = tokens[tokens.len() - 1];
        assert(find(last, "<think>"@) is None);
        assert(last.subrange(0, last.len() as int) =~= last);
        lemma_flatten_one(last);
    }
}

/// Inside a reasoning section nothing is shown until a token holds the closing tag.
pub proof fn law_reasoning_is_hidden(tokens: Seq<Seq<char>>)
    requires
        forall|i: int|
            0 <= i < tokens.len() ==> find(#[trigger] tokens[i], "</think>"@) is None,
    ensures
        think_run(true, tokens) == (true, Seq::<char>::empty()),
    decreases tokens.len(),
{
    if tokens.len() > 0 {
        law_reasoning_is_hidden(tokens.drop_last());
        assert(find(tokens[tokens.len() - 1], "</think>"@) is None);
        assert(Seq::<Seq<char>>::empty().flatten() =~= Seq::<char>::empty());
        assert(Seq::<char>::empty() + Seq::<char>::empty() =~= Seq::<char>::empty());
    }
}

/// A section inside one token is stripped, with its tags: what stands before and behind it is shown,
/// and the filter is idle again.
pub proof fn law_inline_section_is_stripped(before: Seq<char>, inner: Seq<char>, after: Seq<char>)
    requires
        find(before + "<think>"@, "<think>"@) == Some(before.len() as int),
        find(inner + "</think>"@, "</think>"@) == Some(inner.len() as int),
        find(after, "<think>"@) is None,
    ensures
        think_step(false, before + "<think>"@ + inner + "</think>"@ + after) == (
            false,
            before + after,
        ),
{
    let (open, close) = ("<think>"@, "</think>"@);
    let t = before + open + inner + close + after;
    let (n, m) = (before.len() as int, before.len() + 7 + inner.len() as int);
    lemma_tags(t, 0);
    lemma_first(before, open, inner + close + after);
    assert(before + open + (inner + close + after) =~= t);
    lemma_first(inner, close, after);
    lemma_find_behind(before + open, inner + close + after, close, 0);
    assert(before + open + (inner + close + after) =~= t);
    lemma_find_behind(before + open + inner + close, after, open, 0);
    assert(before + open + inner + close + after =~= t);
    assert(t.subrange(0, n) =~= before);
    assert(t.subrange(m + 8, t.len() as int) =~= after);
    assert(think_from(false, t, m + 8) == (false, seq![after]));
    assert(think_from(true, t, n + 7) == (false, seq![after]));
    assert(think_from(false, t, 0) == (false, seq![before] + seq![after]));
    lemma_flatten_one(before);
    assert(seq![before] + seq![after] =~= seq![before].push(after));
    lemma_flatten_push(seq![before], after);
}

/// An occurrence stays the first one, whatever follows it.
proof fn lemma_first(before: Seq<char>, tag: Seq<char>, after: Seq<char>)
    requires
        find(before + tag, tag) == Some(before.len() as int),
    ensures
        find(before + tag + after, tag) == Some(before.len() as int),
{
    let (s, t) = (before + tag, before + tag + after);
    lemma_find_from(s, tag, 0);
    lemma_find_from(t, tag, 0);
    let n = before.len() as int;
    assert(t.subrange(n, n + tag.len()) =~= tag);
    assert(occurs_at(t, n, tag));
    let p = find(t, tag)->0;
    if p < n {
        assert(s.subrange(p, p + tag.len()) =~= t.subrange(p, p + tag.len()));
        assert(occurs_at(s, p, tag));
    }
}

/// A search behind a prefix is a search of the rest.
proof fn lemma_find_behind(before: Seq<char>, rest: Seq<char>, tag: Seq<char>, i: int)
    requires
        0 <= i,
    ensures
        find_from(before + rest, tag, before.len() + i) == match find_from(rest, tag, i) {
            Some(p) => Some(before.len() + p),
            None => None,
        },
    decreases rest.len() - i + 1,
{
    let t = before + rest;
    let n = before.len() as int;
    if i + tag.len() <= rest.len() {
        assert(t.subrange(n + i, n + i + tag.len()) =~= rest.subrange(i, i + tag.len()));
        assert(occurs_at(t, n + i, tag) == occurs_at(rest, i, tag));
        if !occurs_at(rest, i, tag) {
            lemma_find_behind(before, rest, tag, i + 1);
        }
    }
}

/// No part of a token that is shown holds an opening tag.  An opening tag in the shown text can only
/// arise where two parts meet, so there is none where a single part is shown.
pub proof fn law_no_opening_tag_shown(in_think: bool, token: Seq<char>)
    ensures
        ({
            let (next, parts) = think_from(in_think, token, 0);
            &&& think_step(in_think, token) == (next, parts.flatten())
            &&& forall|i: int|
                0 <= i < parts.len() ==> find(#[trigger] parts[i], "<think>"@) is None
            &&& parts.len() <= 1 ==> find(think_step(in_think, token).1, "<think>"@) is None
        }),
{
    lemma_parts(in_think, token, 0);
    let parts = think_from(in_think, token, 0).1;
    reveal_strlit("<think>");
    if parts.len() == 1 {
        lemma_flatten_one(parts[0]);
        assert(parts =~= seq![parts[0]]);
        assert(find(parts[0], "<think>"@) is None);
    } else if parts.len() == 0 {
        assert(parts.flatten() =~= Seq::<char>::empty());
    }
}

proof fn lemma_parts(in_think: bool, token: Seq<char>, pos: int)
    requires
        0 <= pos <= token.len(),
    ensures
        ({
            let parts = think_from(in_think, token, pos).1;
            forall|i: int| 0 <= i < parts.len() ==> find(#[trigger] parts[i], "<think>"@) is None
        }),
    decreases token.len() - pos,
{
    let tag = "<think>"@;
    lemma_tags(token, pos);
    if in_think {
        if find_from(token, "</think>"@, pos) is Some {
            lemma_parts(false, token, find_from(token, "</think>"@, pos)->0 + 8);
        }
    } else {
        lemma_find_from(token, tag, pos);
        let end = match find_from(token, tag, pos) {
            Some(p) => p,
            None => token.len() as int,
        };
        let part = token.subrange(pos, end);
        lemma_find_from(part, tag, 0);
        if find(part, tag) is Some {
            let i = find(part, tag)->0;
            assert(part.subrange(i, i + 7) =~= token.subrange(pos + i, pos + i + 7));
            assert(occurs_at(token, pos + i, tag));
        }
        if find_from(token, tag, pos) is Some {
            lemma_parts(true, token, end + 7);
            let parts = think_from(false, token, pos).1;
            let more = think_from(true, token, end + 7).1;
            assert forall|i: int| 0 <= i < parts.len() implies find(#[trigger] parts[i], tag)
                is None by {
                if i > 0 {
                    assert(parts[i] == more[i - 1]);
                }
            }
        }
    }
}

} // verus!
