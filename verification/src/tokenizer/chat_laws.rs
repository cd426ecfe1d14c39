//! What chat templates make of a conversation.
//!
//! A chat template goes through the messages.  For each it has a branch by the message's role, with text
//! before and behind the message's words, and at the end it may have text that asks for an answer.
use vstd::prelude::*;
use vstd::utf8::{encode_utf8, is_ascii_chars, is_ascii_chars_encode_utf8};

use crate::text::{
    find_from, has_prefix, latin1, lemma_find_from, occurs_at, strip_both, strip_end, strip_start,
    trim, trim_end, trim_start,
};
use crate::tokenizer::conditions::{lemma_find_at, settled};
use crate::tokenizer::jinja::{
    after_endif, body_from, comment_close, cond_of, expr_close, for_effect, for_end, if_effect,
    if_end, inner_from, message_cond, render, render_from, skip_bytes, stmt_close, stmt_effect,
    tag_text, turns, ContextText, MessageText,
};

verus! {

/// The text `s` stands in `t` at `pos`.
pub open spec fn stands(t: Seq<char>, pos: int, s: Seq<char>) -> bool {
    0 <= pos && pos + s.len() <= t.len() && forall|i: int|
        0 <= i < s.len() ==> t[pos + i] == #[trigger] s[i]
}

proof fn lemma_stands(t: Seq<char>, pos: int, a: Seq<char>, b: Seq<char>)
    requires
        stands(t, pos, a + b),
    ensures
        stands(t, pos, a),
        stands(t, pos + a.len(), b),
{
    let s = a + b;
    assert forall|i: int| 0 <= i < a.len() implies t[pos + i] == #[trigger] a[i] by {
        assert(s[i] == a[i]);
    }
    assert forall|i: int| 0 <= i < b.len() implies t[pos + a.len() + i] == #[trigger] b[i] by {
        assert(s[a.len() + i] == b[i]);
    }
}

/// Plain text: ASCII without braces.
pub open spec fn literal(s: Seq<char>) -> bool {
    forall|i: int| 0 <= i < s.len() ==> (#[trigger] s[i]) != '{' && '\0' <= s[i] <= '\u{7f}'
}

proof fn lemma_ascii(c: char)
    requires
        '\0' <= c <= '\u{7f}',
    ensures
        latin1(c) == seq![c],
{
    let one = seq![c];
    assert(is_ascii_chars(one));
    is_ascii_chars_encode_utf8(one);
    assert(encode_utf8(one)[0] == one[0] as u8);
    assert(((c as u8) as char) == c);
    assert(latin1(c) =~= one);
}

/// Where no brace stands, no tag opens.
proof fn lemma_no_brace(t: Seq<char>, pos: int)
    requires
        0 <= pos < t.len(),
        t[pos] != '{',
    ensures
        expr_close(t, pos) is None,
        stmt_close(t, pos) is None,
        comment_close(t, pos) is None,
{
    reveal_strlit("{{");
    reveal_strlit("{%");
    reveal_strlit("{#");
    if pos + 2 <= t.len() {
        assert(t.subrange(pos, pos + 2)[0] == t[pos]);
    }
}

proof fn lemma_stmt(t: Seq<char>, pos: int, inner: Seq<char>)
    requires
        stands(t, pos, "{%"@ + inner + "%}"@),
        forall|i: int| 0 <= i < inner.len() ==> #[trigger] inner[i] != '%',
    ensures
        expr_close(t, pos) is None,
        stmt_close(t, pos) == Some(pos + 2 + inner.len()),
        tag_text(t, pos, pos + 2 + inner.len()) == trim(inner),
{
    reveal_strlit("{{");
    reveal_strlit("{%");
    reveal_strlit("%}");
    lemma_stands(t, pos, "{%"@ + inner, "%}"@);
    lemma_stands(t, pos, "{%"@, inner);
    let e = pos + 2 + inner.len();
    assert("{%"@[0] == '{' && "{%"@[1] == '%' && "%}"@[0] == '%' && "%}"@[1] == '}');
    assert(t[pos] == '{' && t[pos + 1] == '%' && t[e] == '%' && t[e + 1] == '}');
    assert(t.subrange(pos, pos + 2) =~= "{%"@);
    assert(t.subrange(pos, pos + 2)[1] == '%');
    assert(t.subrange(e, e + 2) =~= "%}"@);
    assert forall|j: int| pos + 2 <= j < e implies !occurs_at(t, j, "%}"@) by {
        assert(t[pos + 2 + (j - pos - 2)] == inner[j - pos - 2]);
        if occurs_at(t, j, "%}"@) {
            assert(t.subrange(j, j + 2)[0] == t[j]);
        }
    }
    lemma_find_at(t, "%}"@, pos + 2, e);
    assert(t.subrange(pos + 2, e) =~= inner);
}

proof fn lemma_expr(t: Seq<char>, pos: int, inner: Seq<char>)
    requires
        stands(t, pos, "{{"@ + inner + "}}"@),
        forall|i: int| 0 <= i < inner.len() ==> #[trigger] inner[i] != '}',
    ensures
        expr_close(t, pos) == Some(pos + 2 + inner.len()),
        tag_text(t, pos, pos + 2 + inner.len()) == trim(inner),
{
    reveal_strlit("{{");
    reveal_strlit("}}");
    lemma_stands(t, pos, "{{"@ + inner, "}}"@);
    lemma_stands(t, pos, "{{"@, inner);
    let e = pos + 2 + inner.len();
    assert("{{"@[0] == '{' && "{{"@[1] == '{' && "}}"@[0] == '}' && "}}"@[1] == '}');
    assert(t[pos] == '{' && t[pos + 1] == '{' && t[e] == '}' && t[e + 1] == '}');
    assert(t.subrange(pos, pos + 2) =~= "{{"@);
    assert(t.subrange(e, e + 2) =~= "}}"@);
    assert forall|j: int| pos + 2 <= j < e implies !occurs_at(t, j, "}}"@) by {
        assert(t[pos + 2 + (j - pos - 2)] == inner[j - pos - 2]);
        if occurs_at(t, j, "}}"@) {
            assert(t.subrange(j, j + 2)[0] == t[j]);
        }
    }
    lemma_find_at(t, "}}"@, pos + 2, e);
    assert(t.subrange(pos + 2, e) =~= inner);
}

/// Trimming takes off a space on either side, and leaves settled text as it is.
proof fn lemma_spaced(x: Seq<char>)
    requires
        settled(x),
    ensures
        trim(seq![' '] + x + seq![' ']) == x,
        trim(seq![' '] + x) == x,
        trim(x) == x,
{
    let s = seq![' '] + x + seq![' '];
    assert(s.drop_first() =~= x + seq![' ']);
    assert((x + seq![' ']).first() == x.first());
    assert(trim_start(x + seq![' ']) == x + seq![' ']);
    assert(trim_start(s) == x + seq![' ']);
    assert((x + seq![' ']).drop_last() =~= x);
    assert(trim_end(x) == x);
    assert(trim_end(x + seq![' ']) == x);
    let u = seq![' '] + x;
    assert(u.drop_first() =~= x);
    assert(trim_start(x) == x);
    assert(trim_start(u) == x);
}

/// Text in which no statement opens.
pub open spec fn quiet(s: Seq<char>) -> bool {
    forall|i: int|
        0 <= i < s.len() && #[trigger] s[i] == '{' ==> i + 1 < s.len() && s[i + 1] != '%'
}

proof fn lemma_quiet(t: Seq<char>, pos: int, s: Seq<char>, k: int, depth: nat)
    requires
        stands(t, pos, s),
        quiet(s),
        0 <= k <= s.len(),
    ensures
        for_end(t, pos + k, depth) == for_end(t, pos + s.len(), depth),
        if_end(t, pos + k, depth) == if_end(t, pos + s.len(), depth),
    decreases s.len() - k,
{
    if k < s.len() {
        let p = pos + k;
        reveal_strlit("{%");
        assert(t[pos + k] == s[k]);
        if occurs_at(t, p, "{%"@) {
            assert(t.subrange(p, p + 2)[0] == '{');
            assert(t.subrange(p, p + 2)[1] == '%');
            assert(t[p] == '{' && t[p + 1] == '%');
            assert(t[pos + (k + 1)] == s[k + 1]);
        }
        lemma_quiet(t, pos, s, k + 1, depth);
    }
}

/// Literal text comes out as it is.
proof fn lemma_literal(t: Seq<char>, pos: int, s: Seq<char>, k: int, c: ContextText, idx: int)
    requires
        stands(t, pos, s),
        literal(s),
        0 <= k <= s.len(),
    ensures
        body_from(t, pos + k, c, idx) == s.skip(k) + body_from(t, pos + s.len(), c, idx),
        inner_from(t, pos + k, c, idx) == s.skip(k) + inner_from(t, pos + s.len(), c, idx),
        render_from(t, pos + k, c) == s.skip(k) + render_from(t, pos + s.len(), c),
    decreases s.len() - k,
{
    if k < s.len() {
        let p = pos + k;
        assert(t[pos + k] == s[k]);
        lemma_no_brace(t, p);
        lemma_ascii(t[p]);
        lemma_literal(t, pos, s, k + 1, c, idx);
        assert(seq![s[k]] + s.skip(k + 1) =~= s.skip(k));
        let (x, y, z) = (
            body_from(t, pos + s.len(), c, idx),
            inner_from(t, pos + s.len(), c, idx),
            render_from(t, pos + s.len(), c),
        );
        assert(seq![s[k]] + (s.skip(k + 1) + x) =~= s.skip(k) + x);
        assert(seq![s[k]] + (s.skip(k + 1) + y) =~= s.skip(k) + y);
        assert(seq![s[k]] + (s.skip(k + 1) + z) =~= s.skip(k) + z);
    } else {
        assert(s.skip(k) =~= Seq::empty());
        assert(s.skip(k) + body_from(t, pos + k, c, idx) =~= body_from(t, pos + k, c, idx));
        assert(s.skip(k) + inner_from(t, pos + k, c, idx) =~= inner_from(t, pos + k, c, idx));
        assert(s.skip(k) + render_from(t, pos + k, c) =~= render_from(t, pos + k, c));
    }
}

/// A role: letters.
pub open spec fn role_word(r: Seq<char>) -> bool {
    r.len() > 0 && forall|i: int| 0 <= i < r.len() ==> 'a' <= (#[trigger] r[i]) <= 'z'
}

/// The condition that a message has a role.
pub open spec fn role_test(r: Seq<char>) -> Seq<char> {
    "message['role'] == '"@ + r + "'"@
}

/// A test for a role holds of the messages with that role.
pub proof fn law_role_tests(r: Seq<char>, m: MessageText)
    requires
        role_word(r),
    ensures
        message_cond(role_test(r), m) == (m.role == r),
{
    reveal_strlit("message['role'] == '");
    reveal_strlit("'");
    reveal_strlit("message['role']");
    reveal_strlit("==");
    let c = role_test(r);
    let n = r.len() as int;
    assert(c.first() == 'm' && c.last() == '\'');
    lemma_spaced(c);
    assert(c.subrange(0, 15) =~= "message['role']"@);
    assert(occurs_at(c, 0, "message['role']"@));
    lemma_find_from(c, "message['role']"@, 0);
    assert(c.subrange(16, 18) =~= "=="@);
    assert forall|j: int| 0 <= j < 16 implies !occurs_at(c, j, "=="@) by {
        if occurs_at(c, j, "=="@) {
            assert(c.subrange(j, j + 2)[0] == '=');
            assert(c[j] == "message['role'] == '"@[j]);
        }
    }
    lemma_find_at(c, "=="@, 0, 16);
    let rest = c.subrange(18, c.len() as int);
    let quoted = seq!['\''] + r + seq!['\''];
    assert(rest =~= seq![' '] + quoted);
    assert(quoted.first() == '\'' && quoted.last() == '\'');
    lemma_spaced(quoted);
    assert(r[0] != '\'' && r[0] != '"' && r[n - 1] != '\'' && r[n - 1] != '"');
    let half = r + seq!['\''];
    assert(quoted.drop_first() =~= half);
    assert(half.first() == r[0]);
    assert(strip_start(half, '\'') == half);
    assert(strip_start(quoted, '\'') == half);
    assert(half.last() == '\'');
    assert(half.drop_last() =~= r);
    assert(r.last() == r[n - 1] && r.first() == r[0]);
    assert(strip_end(r, '\'') == r);
    assert(strip_end(half, '\'') == r);
    assert(strip_both(quoted, '\'') == r);
    assert(strip_both(r, '"') == r);
}

/// What a branch says: whose messages it is for, and the text before and behind their words.
pub struct Branch {
    pub role: Seq<char>,
    pub before: Seq<char>,
    pub behind: Seq<char>,
}

pub open spec fn good_branch(b: Branch) -> bool {
    role_word(b.role) && literal(b.before) && literal(b.behind)
}

pub open spec fn words_tag() -> Seq<char> {
    "{{ message['content'] }}"@
}

/// A branch as a template has it.
pub open spec fn branch_text(b: Branch) -> Seq<char> {
    "{% if message['role'] == '"@ + b.role + "' %}"@ + (b.before + words_tag() + b.behind)
        + "{% endif %}"@
}

/// What a branch makes of a message.
pub open spec fn branch_out(b: Branch, m: MessageText) -> Seq<char> {
    if m.role == b.role {
        b.before + m.content + b.behind
    } else {
        Seq::empty()
    }
}

proof fn lemma_words(t: Seq<char>, pos: int, c: ContextText, idx: int)
    requires
        stands(t, pos, words_tag()),
    ensures
        inner_from(t, pos, c, idx) == c.messages[idx].content + inner_from(
            t,
            pos + words_tag().len(),
            c,
            idx,
        ),
        words_tag().len() == 24,
        quiet(words_tag()),
{
    reveal_strlit("{{ message['content'] }}");
    reveal_strlit("{{");
    reveal_strlit("}}");
    reveal_strlit("message['content']");
    reveal_strlit("message['role']");
    reveal_strlit("message[\"role\"]");
    let x = "message['content']"@;
    let inner = seq![' '] + x + seq![' '];
    assert(words_tag() =~= "{{"@ + inner + "}}"@);
    lemma_expr(t, pos, inner);
    lemma_spaced(x);
    assert(x[9] == 'c' && "message['role']"@[9] == 'r' && "message[\"role\"]"@[9] == 'r');
}

proof fn lemma_endif(t: Seq<char>, pos: int, depth: nat)
    requires
        stands(t, pos, "{% endif %}"@),
    ensures
        expr_close(t, pos) is None,
        stmt_close(t, pos) == Some(pos + 9),
        tag_text(t, pos, pos + 9) == "endif"@,
        "{% endif %}"@.len() == 11,
        occurs_at(t, pos, "{% endif %}"@),
        if_end(t, pos, 1) == pos,
        for_end(t, pos, depth) == for_end(t, pos + 11, depth),
{
    reveal_strlit("{% endif %}");
    reveal_strlit("endif");
    reveal_strlit("{%");
    reveal_strlit("%}");
    reveal_strlit("if ");
    reveal_strlit("for ");
    reveal_strlit("endfor");
    let x = "endif"@;
    let inner = seq![' '] + x + seq![' '];
    assert("{% endif %}"@ =~= "{%"@ + inner + "%}"@);
    lemma_stmt(t, pos, inner);
    lemma_spaced(x);
    assert(t.subrange(pos, pos + 11) =~= "{% endif %}"@);
    assert(x.subrange(0, 3)[0] == 'e');
    assert("endfor"@.len() == 6);
    assert(x.subrange(0, 4)[0] == 'e');
}

/// A branch makes of a message what it is for, and the loop goes on behind it.
#[verifier::spinoff_prover]
#[verifier::rlimit(60)]
proof fn lemma_branch(t: Seq<char>, pos: int, b: Branch, c: ContextText, idx: int, depth: nat)
    requires
        stands(t, pos, branch_text(b)),
        good_branch(b),
    ensures
        body_from(t, pos, c, idx) == branch_out(b, c.messages[idx]) + body_from(
            t,
            pos + branch_text(b).len(),
            c,
            idx,
        ),
        for_end(t, pos, depth) == for_end(t, pos + branch_text(b).len(), depth),
{
    reveal_strlit("{% if message['role'] == '");
    reveal_strlit("' %}");
    reveal_strlit("message['role'] == '");
    reveal_strlit("'");
    reveal_strlit("{%");
    reveal_strlit("%}");
    reveal_strlit("if ");
    reveal_strlit("for ");
    reveal_strlit("endfor");
    let head = "{% if message['role'] == '"@ + b.role + "' %}"@;
    let inside = b.before + words_tag() + b.behind;
    let end = "{% endif %}"@;
    lemma_stands(t, pos, head + inside, end);
    lemma_stands(t, pos, head, inside);
    let test = role_test(b.role);
    let x = "if "@ + test;
    let inner = seq![' '] + x + seq![' '];
    assert(head =~= "{%"@ + inner + "%}"@);
    assert forall|i: int| 0 <= i < inner.len() implies #[trigger] inner[i] != '%' by {
        if 24 <= i < 24 + b.role.len() {
            assert(inner[i] == b.role[i - 24]);
        }
    }
    lemma_stmt(t, pos, inner);
    assert(x.first() == 'i' && x.last() == '\'');
    lemma_spaced(x);
    let p1 = pos + head.len();
    assert(x.subrange(0, 3) =~= "if "@);
    assert(has_prefix(x, "if "@));
    assert(x.subrange(0, 4)[0] == 'i');
    assert(!has_prefix(x, "for "@));
    assert("endfor"@[0] == 'e');
    assert(x != "endfor"@);
    assert(x.subrange(3, x.len() as int) =~= test);
    assert(test.last() == '\'');
    assert(cond_of(x) == test);
    law_role_tests(b.role, c.messages[idx]);
    // Inside the branch.
    lemma_stands(t, p1, b.before + words_tag(), b.behind);
    lemma_stands(t, p1, b.before, words_tag());
    lemma_words(t, p1 + b.before.len(), c, idx);
    let p2 = p1 + inside.len();
    assert(quiet(b.before) && quiet(b.behind));
    lemma_quiet(t, p1, b.before, 0, 1);
    lemma_quiet(t, p1 + b.before.len(), words_tag(), 0, 1);
    lemma_quiet(t, p1 + b.before.len() + 24, b.behind, 0, 1);
    lemma_quiet(t, p1, b.before, 0, depth);
    lemma_quiet(t, p1 + b.before.len(), words_tag(), 0, depth);
    lemma_quiet(t, p1 + b.before.len() + 24, b.behind, 0, depth);
    lemma_endif(t, p2, depth);
    assert(if_end(t, p1, 1) == p2);
    assert(for_end(t, pos, depth) == for_end(t, p1, depth));
    assert(after_endif(t, p2) == p2 + 11);
    // The text of the branch by itself.
    let u = t.subrange(p1, p2);
    assert(u =~= inside);
    assert(stands(u, 0, b.before + words_tag() + b.behind));
    lemma_stands(u, 0, b.before + words_tag(), b.behind);
    lemma_stands(u, 0, b.before, words_tag());
    lemma_literal(u, 0, b.before, 0, c, idx);
    lemma_words(u, b.before.len() as int, c, idx);
    lemma_literal(u, b.before.len() as int + 24, b.behind, 0, c, idx);
    assert(b.before.skip(0) =~= b.before && b.behind.skip(0) =~= b.behind);
    assert(inner_from(u, u.len() as int, c, idx) =~= Seq::empty());
    assert(inner_from(u, 0, c, idx) =~= b.before + c.messages[idx].content + b.behind);
}

/// The branches of a template, one behind the other.
pub open spec fn branches_text(bs: Seq<Branch>) -> Seq<char>
    decreases bs.len(),
{
    if bs.len() == 0 {
        Seq::empty()
    } else {
        branch_text(bs.first()) + branches_text(bs.drop_first())
    }
}

/// What the branches make of a message, one behind the other.
pub open spec fn branches_out(bs: Seq<Branch>, m: MessageText) -> Seq<char>
    decreases bs.len(),
{
    if bs.len() == 0 {
        Seq::empty()
    } else {
        branch_out(bs.first(), m) + branches_out(bs.drop_first(), m)
    }
}

pub open spec fn good_branches(bs: Seq<Branch>) -> bool {
    forall|i: int| 0 <= i < bs.len() ==> good_branch(#[trigger] bs[i])
}

proof fn lemma_branches(t: Seq<char>, pos: int, bs: Seq<Branch>, c: ContextText, idx: int)
    requires
        stands(t, pos, branches_text(bs)),
        good_branches(bs),
    ensures
        body_from(t, pos, c, idx) == branches_out(bs, c.messages[idx]) + body_from(
            t,
            pos + branches_text(bs).len(),
            c,
            idx,
        ),
        for_end(t, pos, 1) == for_end(t, pos + branches_text(bs).len(), 1),
    decreases bs.len(),
{
    if bs.len() > 0 {
        let (b, rest) = (bs.first(), bs.drop_first());
        assert(good_branch(bs[0]));
        lemma_stands(t, pos, branch_text(b), branches_text(rest));
        lemma_branch(t, pos, b, c, idx, 1);
        assert forall|i: int| 0 <= i < rest.len() implies good_branch(#[trigger] rest[i]) by {
            assert(rest[i] == bs[i + 1]);
        }
        lemma_branches(t, pos + branch_text(b).len(), rest, c, idx);
        let m = c.messages[idx];
        let last = body_from(t, pos + branches_text(bs).len(), c, idx);
        assert(branch_out(b, m) + (branches_out(rest, m) + last) =~= branches_out(bs, m) + last);
    } else {
        assert(Seq::<char>::empty() + body_from(t, pos, c, idx) =~= body_from(t, pos, c, idx));
    }
}

/// What the branches make of all messages, in order.
pub open spec fn messages_out(bs: Seq<Branch>, ms: Seq<MessageText>) -> Seq<char>
    decreases ms.len(),
{
    if ms.len() == 0 {
        Seq::empty()
    } else {
        messages_out(bs, ms.drop_last()) + branches_out(bs, ms.last())
    }
}

proof fn lemma_turns(bs: Seq<Branch>, c: ContextText, n: nat)
    requires
        good_branches(bs),
        n <= c.messages.len(),
    ensures
        turns(branches_text(bs), c, n) == messages_out(bs, c.messages.take(n as int)),
    decreases n,
{
    let t = branches_text(bs);
    if n > 0 {
        lemma_turns(bs, c, (n - 1) as nat);
        lemma_branches(t, 0, bs, c, n - 1);
        let ms = c.messages.take(n as int);
        assert(ms.drop_last() =~= c.messages.take(n - 1));
        assert(ms.last() == c.messages[n - 1]);
        assert(body_from(t, t.len() as int, c, n - 1) =~= Seq::empty());
        assert(body_from(t, 0, c, n - 1) =~= branches_out(bs, ms.last()));
    }
}

/// A chat template: perhaps the mark that begins a text, the loop over the messages, and perhaps text that
/// asks for an answer.
pub open spec fn chat_template(bos: bool, bs: Seq<Branch>, asks: Option<Seq<char>>) -> Seq<char> {
    (if bos {
        "{{ bos_token }}"@
    } else {
        Seq::empty()
    }) + ("{% for message in messages %}"@ + branches_text(bs) + "{% endfor %}"@) + match asks {
        Some(s) => "{% if add_generation_prompt %}"@ + s + "{% endif %}"@,
        None => Seq::empty(),
    }
}

#[verifier::spinoff_prover]
#[verifier::rlimit(60)]
proof fn lemma_loop(t: Seq<char>, pos: int, bs: Seq<Branch>, c: ContextText)
    requires
        stands(t, pos, "{% for message in messages %}"@ + branches_text(bs) + "{% endfor %}"@),
        good_branches(bs),
    ensures
        ({
            let loop_text = "{% for message in messages %}"@ + branches_text(bs)
                + "{% endfor %}"@;
            render_from(t, pos, c) == messages_out(bs, c.messages) + render_from(
                t,
                pos + loop_text.len(),
                c,
            )
        }),
{
    reveal_strlit("{% for message in messages %}");
    reveal_strlit("{% endfor %}");
    reveal_strlit("for message in messages");
    reveal_strlit("messages");
    reveal_strlit("{%");
    reveal_strlit("%}");
    reveal_strlit("for ");
    reveal_strlit(" in ");
    reveal_strlit("endfor");
    let (head, body, end) = (
        "{% for message in messages %}"@,
        branches_text(bs),
        "{% endfor %}"@,
    );
    lemma_stands(t, pos, head + body, end);
    lemma_stands(t, pos, head, body);
    let x = "for message in messages"@;
    let inner = seq![' '] + x + seq![' '];
    assert(head =~= "{%"@ + inner + "%}"@);
    lemma_stmt(t, pos, inner);
    lemma_spaced(x);
    let after = pos + head.len();
    let e = after + body.len();
    // The statement.
    assert(x.subrange(0, 4) =~= "for "@);
    assert(x.subrange(11, 15) =~= " in "@);
    assert forall|j: int| 4 <= j < 11 implies !occurs_at(x, j, " in "@) by {
        if occurs_at(x, j, " in "@) {
            assert(x.subrange(j, j + 4)[0] == ' ');
        }
    }
    lemma_find_at(x, " in "@, 4, 11);
    let over = x.subrange(15, x.len() as int);
    assert(over =~= "messages"@);
    assert(trim_end(over) == over);
    assert(strip_end(over, ':') == over);
    // The end of the loop.
    lemma_branches(t, after, bs, c, 0);
    let y = "endfor"@;
    let close = seq![' '] + y + seq![' '];
    assert(end =~= "{%"@ + close + "%}"@);
    lemma_stmt(t, e, close);
    lemma_spaced(y);
    assert(y.subrange(0, 4)[0] == 'e');
    assert(for_end(t, e, 1) == Some(e));
    assert(for_end(t, after, 1) == Some(e));
    assert(t.subrange(after, e) =~= body);
    lemma_turns(bs, c, c.messages.len());
    assert(c.messages.take(c.messages.len() as int) =~= c.messages);
    lemma_skip(t, e, 12, end);
    let (text, next) = stmt_effect(x, t, after, c);
    assert(for_effect(true, t, after, c) == (text, next));
    assert(text =~= messages_out(bs, c.messages));
    assert(next == e + 12);
}

proof fn lemma_skip(t: Seq<char>, pos: int, n: int, s: Seq<char>)
    requires
        stands(t, pos, s),
        s.len() == n,
        forall|i: int| 0 <= i < s.len() ==> '\0' <= (#[trigger] s[i]) <= '\u{7f}',
    ensures
        skip_bytes(t, pos, n) == (Seq::<char>::empty(), pos + n),
    decreases n,
{
    if n > 0 {
        assert(t[pos + 0] == s[0]);
        let one = seq![t[pos]];
        assert(is_ascii_chars(one));
        is_ascii_chars_encode_utf8(one);
        let rest = s.skip(1);
        assert forall|i: int| 0 <= i < rest.len() implies t[pos + 1 + i] == #[trigger] rest[i] && '\0'
            <= rest[i] <= '\u{7f}' by {
            assert(rest[i] == s[i + 1]);
            assert(t[pos + (i + 1)] == s[i + 1]);
        }
        lemma_skip(t, pos + 1, n - 1, rest);
    }
}

#[verifier::spinoff_prover]
#[verifier::rlimit(60)]
proof fn lemma_asks(t: Seq<char>, pos: int, s: Seq<char>, c: ContextText)
    requires
        stands(t, pos, "{% if add_generation_prompt %}"@ + s + "{% endif %}"@),
        pos + ("{% if add_generation_prompt %}"@ + s + "{% endif %}"@).len() == t.len(),
        literal(s),
    ensures
        render_from(t, pos, c) == if c.add_generation_prompt {
            s
        } else {
            Seq::empty()
        },
{
    reveal_strlit("{% if add_generation_prompt %}");
    reveal_strlit("if add_generation_prompt");
    reveal_strlit("add_generation_prompt");
    reveal_strlit("{% endif %}");
    reveal_strlit("{% else %}");
    reveal_strlit("{%");
    reveal_strlit("%}");
    reveal_strlit("if ");
    reveal_strlit("for ");
    let (head, end) = ("{% if add_generation_prompt %}"@, "{% endif %}"@);
    lemma_stands(t, pos, head + s, end);
    lemma_stands(t, pos, head, s);
    let x = "if add_generation_prompt"@;
    let inner = seq![' '] + x + seq![' '];
    assert(head =~= "{%"@ + inner + "%}"@);
    lemma_stmt(t, pos, inner);
    lemma_spaced(x);
    let after = pos + head.len();
    let e = after + s.len();
    assert(x.subrange(0, 3) =~= "if "@);
    assert(x.subrange(0, 4)[0] == 'i');
    let y = "add_generation_prompt"@;
    assert(x.subrange(3, x.len() as int) =~= y);
    assert(cond_of(x) == y);
    lemma_spaced(y);
    assert(t.subrange(e, e + 11) =~= end);
    assert forall|j: int| after <= j < e implies !occurs_at(t, j, end) by {
        assert(t[after + (j - after)] == s[j - after]);
        if occurs_at(t, j, end) {
            assert(t.subrange(j, j + 11)[0] == t[j]);
        }
    }
    lemma_find_at(t, end, after, e);
    lemma_find_from(t, "{% else %}"@, after);
    if find_from(t, "{% else %}"@, after) is Some {
        let j = find_from(t, "{% else %}"@, after)->0;
        let u = t.subrange(j, j + 10);
        assert(u == "{% else %}"@);
        assert(u[0] == '{' && u[3] == 'e' && u[4] == 'l');
        assert(t[j] == '{' && t[j + 4] == 'l');
        if j < e {
            assert(t[after + (j - after)] == s[j - after]);
        } else {
            assert(t[e + (j - e)] == end[j - e]);
            assert(t[e + (j - e + 4)] == end[j - e + 4]);
        }
    }
    assert(t.subrange(after, e) =~= s);
    let (text, next) = if_effect(y, t, after, c);
    assert(next == t.len());
    assert(stmt_effect(x, t, after, c) == (text, next));
    assert(render_from(t, next, c) =~= Seq::empty());
}

/// A chat template renders a conversation message by message, in order: of each message the branch for its
/// role has its text before and behind the message's words.  In front stands the mark that begins a text
/// where the template asks for it, and behind the text that asks for an answer where one is asked for.
pub proof fn law_chat_templates_render_the_conversation(
    bos: bool,
    bs: Seq<Branch>,
    asks: Option<Seq<char>>,
    c: ContextText,
)
    requires
        good_branches(bs),
        asks matches Some(s) ==> literal(s),
    ensures
        render(chat_template(bos, bs, asks), c) == (if bos {
            c.bos
        } else {
            Seq::empty()
        }) + messages_out(bs, c.messages) + (if asks is Some && c.add_generation_prompt {
            asks->0
        } else {
            Seq::empty()
        }),
{
    let t = chat_template(bos, bs, asks);
    let first = if bos {
        "{{ bos_token }}"@
    } else {
        Seq::empty()
    };
    let middle = "{% for message in messages %}"@ + branches_text(bs) + "{% endfor %}"@;
    let last = match asks {
        Some(s) => "{% if add_generation_prompt %}"@ + s + "{% endif %}"@,
        None => Seq::empty(),
    };
    assert(stands(t, 0, first + middle + last));
    lemma_stands(t, 0, first + middle, last);
    lemma_stands(t, 0, first, middle);
    let p = first.len() as int;
    let q = p + middle.len();
    if bos {
        reveal_strlit("{{ bos_token }}");
        reveal_strlit("bos_token");
        reveal_strlit("{{");
        reveal_strlit("}}");
        let x = "bos_token"@;
        let inner = seq![' '] + x + seq![' '];
        assert(first =~= "{{"@ + inner + "}}"@);
        lemma_expr(t, 0, inner);
        lemma_spaced(x);
    }
    lemma_loop(t, p, bs, c);
    let asked = if asks is Some && c.add_generation_prompt {
        asks->0
    } else {
        Seq::empty()
    };
    match asks {
        Some(s) => {
            lemma_asks(t, q, s, c);
        },
        None => {
            assert(render_from(t, q, c) =~= Seq::empty());
        },
    }
    assert(render_from(t, q, c) =~= asked);
    assert(render(t, c) =~= (if bos {
        c.bos
    } else {
        Seq::empty()
    }) + messages_out(bs, c.messages) + asked);
}

} // verus!
