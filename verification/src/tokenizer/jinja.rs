//! A small template language for chat prompts.
//!
//! A template is literal text with `{{ expression }}`, `{% statement %}` and `{# comment #}` tags.
//! Literal text is copied byte by byte, each byte becoming the character with that code.
use vstd::prelude::*;
use vstd::utf8::encode_utf8;

use crate::text::{
    chars_of, contains, contains_str, decimal, equals_str, find, find_from, find_str_from,
    has_prefix, latin1, lemma_find_from, lemma_trim_len, number_or_zero, occurs_at, occurs_str_at,
    parse_or_zero, push_bytes_as_chars, push_decimal, push_latin1, starts_with_str, string_of,
    strip_both, strip_end, stripped_both, stripped_end, sub_vec, trim, trim_end, trimmed,
    trimmed_end, utf8_bytes,
};

verus! {

/// One message of a conversation.
#[derive(Clone)]
pub struct ChatMessage {
    pub role: String,
    pub content: String,
}

/// What a template can refer to.
pub struct TemplateContext {
    pub messages: Vec<ChatMessage>,
    pub bos_token: String,
    pub eos_token: String,
    pub add_generation_prompt: bool,
    pub thinking: bool,
}

/// The text of a message.
pub struct MessageText {
    pub role: Seq<char>,
    pub content: Seq<char>,
}

/// The text that a template can refer to.
pub struct ContextText {
    pub messages: Seq<MessageText>,
    pub bos: Seq<char>,
    pub eos: Seq<char>,
    pub add_generation_prompt: bool,
}

impl View for ChatMessage {
    type V = MessageText;

    open spec fn view(&self) -> MessageText {
        MessageText { role: self.role@, content: self.content@ }
    }
}

impl View for TemplateContext {
    type V = ContextText;

    open spec fn view(&self) -> ContextText {
        ContextText {
            messages: self.messages@.map_values(|m: ChatMessage| m@),
            bos: self.bos_token@,
            eos: self.eos_token@,
            add_generation_prompt: self.add_generation_prompt,
        }
    }
}


/// Where the expression tag that opens at `pos` closes.
pub open spec fn expr_close(t: Seq<char>, pos: int) -> Option<int> {
    if occurs_at(t, pos, "{{"@) {
        find_from(t, "}}"@, pos + 2)
    } else {
        None
    }
}

/// Where the statement tag that opens at `pos` closes.
pub open spec fn stmt_close(t: Seq<char>, pos: int) -> Option<int> {
    if occurs_at(t, pos, "{%"@) {
        find_from(t, "%}"@, pos + 2)
    } else {
        None
    }
}

/// Where the comment that opens at `pos` closes.
pub open spec fn comment_close(t: Seq<char>, pos: int) -> Option<int> {
    if occurs_at(t, pos, "{#"@) {
        find_from(t, "#}"@, pos)
    } else {
        None
    }
}

/// What stands between the delimiters of a tag.
pub open spec fn tag_text(t: Seq<char>, pos: int, close: int) -> Seq<char> {
    trim(t.subrange(pos + 2, close))
}

/// A tag closes behind its opening delimiter and inside the text.
pub proof fn lemma_close(t: Seq<char>, pos: int)
    requires
        0 <= pos,
    ensures
        expr_close(t, pos) matches Some(e) ==> pos + 2 <= e && e + 2 <= t.len(),
        stmt_close(t, pos) matches Some(e) ==> pos + 2 <= e && e + 2 <= t.len(),
        comment_close(t, pos) matches Some(e) ==> pos <= e && e + 2 <= t.len(),
        occurs_at(t, pos, "{{"@) || occurs_at(t, pos, "{%"@) || occurs_at(t, pos, "{#"@) ==> pos + 2
            <= t.len(),
{
    reveal_strlit("{{");
    reveal_strlit("}}");
    reveal_strlit("{%");
    reveal_strlit("%}");
    reveal_strlit("{#");
    reveal_strlit("#}");
    lemma_find_from(t, "}}"@, pos + 2);
    lemma_find_from(t, "%}"@, pos + 2);
    lemma_find_from(t, "#}"@, pos);
}

/// Where the tag that opens at `pos` closes.
pub fn close_expr(t: &[char], pos: usize) -> (r: Option<usize>)
    ensures
        match r {
            Some(e) => expr_close(t@, pos as int) == Some(e as int) && pos + 2 <= e && e + 2
                <= t@.len(),
            None => expr_close(t@, pos as int) is None,
        },
{
    proof {
        lemma_close(t@, pos as int);
    }
    if occurs_str_at(t, pos, "{{") {
        assert(pos + 2 <= t.len());
        find_str_from(t, "}}", pos + 2)
    } else {
        None
    }
}

/// Where the tag that opens at `pos` closes.
pub fn close_stmt(t: &[char], pos: usize) -> (r: Option<usize>)
    ensures
        match r {
            Some(e) => stmt_close(t@, pos as int) == Some(e as int) && pos + 2 <= e && e + 2
                <= t@.len(),
            None => stmt_close(t@, pos as int) is None,
        },
{
    proof {
        lemma_close(t@, pos as int);
    }
    if occurs_str_at(t, pos, "{%") {
        assert(pos + 2 <= t.len());
        find_str_from(t, "%}", pos + 2)
    } else {
        None
    }
}

/// Where the tag that opens at `pos` closes.
pub fn close_comment(t: &[char], pos: usize) -> (r: Option<usize>)
    ensures
        match r {
            Some(e) => comment_close(t@, pos as int) == Some(e as int) && pos <= e && e + 2
                <= t@.len(),
            None => comment_close(t@, pos as int) is None,
        },
{
    proof {
        lemma_close(t@, pos as int);
    }
    if occurs_str_at(t, pos, "{#") {
        find_str_from(t, "#}", pos)
    } else {
        None
    }
}

fn text_of_tag(t: &[char], pos: usize, close: usize) -> (r: Vec<char>)
    requires
        pos + 2 <= close <= t@.len(),
    ensures
        r@ == tag_text(t@, pos as int, close as int),
{
    assert(close <= t.len());
    let inner = sub_vec(t, pos + 2, close);
    trimmed(inner.as_slice())
}

/// The key in `message['key']` or `message["key"]`; empty where there is none.
pub open spec fn dict_key(expr: Seq<char>) -> Seq<char> {
    if expr.len() > 9 && (expr[9] == '\'' || expr[9] == '"') {
        Seq::empty()
    } else if find_from(expr, "']"@, 9) is Some {
        expr.subrange(9, find_from(expr, "']"@, 9)->0)
    } else if find_from(expr, "\"]"@, 9) is Some {
        expr.subrange(9, find_from(expr, "\"]"@, 9)->0)
    } else {
        Seq::empty()
    }
}

/// The value of an expression outside a loop, where `message` is the last message.
pub open spec fn expr_value(expr: Seq<char>, c: ContextText) -> Seq<char> {
    if expr == "bos_token"@ {
        c.bos
    } else if expr == "eos_token"@ {
        c.eos
    } else if is_message_access(expr) {
        if c.messages.len() == 0 {
            Seq::empty()
        } else if dict_key(expr) == "role"@ {
            c.messages.last().role
        } else if dict_key(expr) == "content"@ {
            c.messages.last().content
        } else {
            Seq::empty()
        }
    } else if has_prefix(expr, "loop.index"@) {
        "1"@
    } else {
        Seq::empty()
    }
}

pub open spec fn is_message_access(expr: Seq<char>) -> bool {
    has_prefix(expr, "message['"@) || has_prefix(expr, "message[\""@)
}

fn extract_dict_key(expr: &[char]) -> (r: Vec<char>)
    requires
        is_message_access(expr@),
    ensures
        r@ == dict_key(expr@),
{
    proof {
        reveal_strlit("message['");
        reveal_strlit("message[\"");
        reveal_strlit("']");
        reveal_strlit("\"]");
        lemma_find_from(expr@, "']"@, 9);
        lemma_find_from(expr@, "\"]"@, 9);
    }
    if expr.len() > 9 && (expr[9] == '\'' || expr[9] == '"') {
        return Vec::new();
    }
    if let Some(e) = find_str_from(expr, "']", 9) {
        return sub_vec(expr, 9, e);
    }
    if let Some(e) = find_str_from(expr, "\"]", 9) {
        return sub_vec(expr, 9, e);
    }
    Vec::new()
}

fn eval_expr(expr: &[char], ctx: &TemplateContext) -> (r: String)
    ensures
        r@ == expr_value(expr@, ctx@),
{
    if equals_str(expr, "bos_token") {
        return ctx.bos_token.clone();
    }
    if equals_str(expr, "eos_token") {
        return ctx.eos_token.clone();
    }
    if starts_with_str(expr, "message['") || starts_with_str(expr, "message[\"") {
        if ctx.messages.len() == 0 {
            return String::new();
        }
        let key = extract_dict_key(expr);
        let last = ctx.messages.len() - 1;
        assert(ctx@.messages.last() == ctx.messages@[last as int]@);
        if equals_str(key.as_slice(), "role") {
            return ctx.messages[last].role.clone();
        }
        if equals_str(key.as_slice(), "content") {
            return ctx.messages[last].content.clone();
        }
        return String::new();
    }
    if starts_with_str(expr, "loop.index") {
        return "1".to_owned();
    }
    String::new()
}

/// The value of an expression inside a loop at message `idx`; the loop counter is known only
/// where `counter` is set.
pub open spec fn loop_value(expr: Seq<char>, c: ContextText, idx: int, counter: bool) -> Seq<char> {
    if expr == "message['role']"@ || expr == "message[\"role\"]"@ {
        c.messages[idx].role
    } else if expr == "message['content']"@ || expr == "message[\"content\"]"@ {
        c.messages[idx].content
    } else if expr == "bos_token"@ {
        c.bos
    } else if expr == "eos_token"@ {
        c.eos
    } else if counter && expr == "loop.index"@ {
        decimal((idx + 1) as nat)
    } else {
        Seq::empty()
    }
}

fn push_loop_value(expr: &[char], ctx: &TemplateContext, idx: usize, counter: bool, out: &mut String)
    requires
        idx < ctx.messages@.len(),
    ensures
        final(out)@ == old(out)@ + loop_value(expr@, ctx@, idx as int, counter),
{
    assert(ctx@.messages[idx as int] == ctx.messages@[idx as int]@);
    if equals_str(expr, "message['role']") || equals_str(expr, "message[\"role\"]") {
        out.append(ctx.messages[idx].role.as_str());
    } else if equals_str(expr, "message['content']") || equals_str(expr, "message[\"content\"]") {
        out.append(ctx.messages[idx].content.as_str());
    } else if equals_str(expr, "bos_token") {
        out.append(ctx.bos_token.as_str());
    } else if equals_str(expr, "eos_token") {
        out.append(ctx.eos_token.as_str());
    } else if counter && equals_str(expr, "loop.index") {
        assert(idx < ctx.messages.len());
        push_decimal(out, (idx + 1) as u64);
    } else {
        assert(old(out)@ + Seq::<char>::empty() =~= old(out)@);
    }
}

/// `s` without quotes of either kind around it.
pub open spec fn unquote(s: Seq<char>) -> Seq<char> {
    strip_both(strip_both(trim(s), '\''), '"')
}

fn unquoted(s: &[char]) -> (r: Vec<char>)
    ensures
        r@ == unquote(s@),
{
    let a = trimmed(s);
    let b = stripped_both(a.as_slice(), '\'');
    stripped_both(b.as_slice(), '"')
}

/// A condition on one message: a test of its role, or of its having content.
pub open spec fn message_cond(cond: Seq<char>, m: MessageText) -> bool {
    let c = trim(cond);
    let on_role = contains(c, "message['role']"@) || contains(c, "message[\"role\"]"@);
    let on_content = contains(c, "message['content']"@) || contains(c, "message[\"content\"]"@);
    if on_role && find(c, "=="@) is Some {
        m.role == unquote(c.subrange(find(c, "=="@)->0 + 2, c.len() as int))
    } else if on_role && find(c, "!="@) is Some {
        m.role != unquote(c.subrange(find(c, "!="@)->0 + 2, c.len() as int))
    } else if on_content && (contains(c, "is not none"@) || contains(c, "is defined"@)) {
        m.content.len() > 0
    } else {
        false
    }
}

fn eval_cond(cond: &[char], msg: &ChatMessage) -> (r: bool)
    ensures
        r == message_cond(cond@, msg@),
{
    let c = trimmed(cond);
    let s = c.as_slice();
    proof {
        reveal_strlit("==");
        reveal_strlit("!=");
        lemma_find_from(c@, "=="@, 0);
        lemma_find_from(c@, "!="@, 0);
    }
    if contains_str(s, "message['role']") || contains_str(s, "message[\"role\"]") {
        if let Some(p) = find_str_from(s, "==", 0) {
            assert(p + 2 <= s.len());
            let expected = unquoted(sub_vec(s, p + 2, s.len()).as_slice());
            return equals_str(expected.as_slice(), msg.role.as_str());
        }
        if let Some(p) = find_str_from(s, "!=", 0) {
            assert(p + 2 <= s.len());
            let expected = unquoted(sub_vec(s, p + 2, s.len()).as_slice());
            return !equals_str(expected.as_slice(), msg.role.as_str());
        }
    }
    if (contains_str(s, "message['content']") || contains_str(s, "message[\"content\"]")) && (
    contains_str(s, "is not none") || contains_str(s, "is defined")) {
        return !msg.content.as_str().is_empty();
    }
    false
}

/// A condition outside a loop.  What is not recognised holds.
pub open spec fn global_cond(cond: Seq<char>, c: ContextText) -> bool
    decreases cond.len() via global_cond_decreases
{
    let t = trim(cond);
    if t == "add_generation_prompt"@ {
        c.add_generation_prompt
    } else if t == "true"@ {
        true
    } else if t == "false"@ {
        false
    } else if find(t, " and "@) is Some {
        let p = find(t, " and "@)->0;
        global_cond(t.subrange(0, p), c) && global_cond(t.subrange(p + 5, t.len() as int), c)
    } else if find(t, " or "@) is Some {
        let p = find(t, " or "@)->0;
        global_cond(t.subrange(0, p), c) || global_cond(t.subrange(p + 4, t.len() as int), c)
    } else if has_prefix(t, "not "@) {
        !global_cond(t.subrange(4, t.len() as int), c)
    } else if contains(t, "messages|length"@) || contains(t, "messages | length"@) {
        if find(t, "=="@) is Some {
            c.messages.len() == parse_or_zero(
                trim(t.subrange(find(t, "=="@)->0 + 2, t.len() as int)),
            )
        } else if find(t, ">"@) is Some {
            c.messages.len() > parse_or_zero(
                trim(t.subrange(find(t, ">"@)->0 + 1, t.len() as int)),
            )
        } else {
            true
        }
    } else {
        true
    }
}

/// The operators of a condition are inside it.
proof fn lemma_cond_parts(cond: Seq<char>)
    ensures
        trim(cond).len() <= cond.len(),
        find(trim(cond), " and "@) matches Some(p) ==> 0 <= p && p + 5 <= trim(cond).len(),
        find(trim(cond), " or "@) matches Some(p) ==> 0 <= p && p + 4 <= trim(cond).len(),
        has_prefix(trim(cond), "not "@) ==> 4 <= trim(cond).len(),
        find(trim(cond), "=="@) matches Some(p) ==> 0 <= p && p + 2 <= trim(cond).len(),
        find(trim(cond), ">"@) matches Some(p) ==> 0 <= p && p + 1 <= trim(cond).len(),
{
    reveal_strlit(" and ");
    reveal_strlit(" or ");
    reveal_strlit("not ");
    reveal_strlit("==");
    reveal_strlit(">");
    lemma_trim_len(cond);
    lemma_find_from(trim(cond), " and "@, 0);
    lemma_find_from(trim(cond), " or "@, 0);
    lemma_find_from(trim(cond), "=="@, 0);
    lemma_find_from(trim(cond), ">"@, 0);
}

#[via_fn]
proof fn global_cond_decreases(cond: Seq<char>, c: ContextText) {
    lemma_cond_parts(cond);
}

/// Whether a condition outside a loop holds.
pub fn eval_cond_global(cond: &[char], ctx: &TemplateContext) -> (r: bool)
    ensures
        r == global_cond(cond@, ctx@),
    decreases cond@.len(),
{
    let t = trimmed(cond);
    let s = t.as_slice();
    proof {
        lemma_cond_parts(cond@);
    }
    if equals_str(s, "add_generation_prompt") {
        return ctx.add_generation_prompt;
    }
    if equals_str(s, "true") {
        return true;
    }
    if equals_str(s, "false") {
        return false;
    }
    if let Some(p) = find_str_from(s, " and ", 0) {
        assert(p + 5 <= s.len());
        let left = sub_vec(s, 0, p);
        let right = sub_vec(s, p + 5, s.len());
        return eval_cond_global(left.as_slice(), ctx) && eval_cond_global(right.as_slice(), ctx);
    }
    if let Some(p) = find_str_from(s, " or ", 0) {
        assert(p + 4 <= s.len());
        let left = sub_vec(s, 0, p);
        let right = sub_vec(s, p + 4, s.len());
        return eval_cond_global(left.as_slice(), ctx) || eval_cond_global(right.as_slice(), ctx);
    }
    if starts_with_str(s, "not ") {
        let inner = sub_vec(s, 4, s.len());
        return !eval_cond_global(inner.as_slice(), ctx);
    }
    if contains_str(s, "messages|length") || contains_str(s, "messages | length") {
        if let Some(p) = find_str_from(s, "==", 0) {
            assert(p + 2 <= s.len());
            let number = trimmed(sub_vec(s, p + 2, s.len()).as_slice());
            return ctx.messages.len() == number_or_zero(number.as_slice());
        }
        if let Some(p) = find_str_from(s, ">", 0) {
            assert(p + 1 <= s.len());
            let number = trimmed(sub_vec(s, p + 1, s.len()).as_slice());
            return ctx.messages.len() > number_or_zero(number.as_slice());
        }
    }
    true
}

/// The position of the `endfor` tag that ends the loop whose body begins at `pos`, with `depth`
/// loops open.
pub open spec fn for_end(t: Seq<char>, pos: int, depth: nat) -> Option<int>
    decreases t.len() - pos via for_end_decreases
{
    if pos < 0 || pos >= t.len() {
        None
    } else if stmt_close(t, pos) is Some {
        let e = stmt_close(t, pos)->0;
        let stmt = tag_text(t, pos, e);
        if has_prefix(stmt, "for "@) {
            for_end(t, e + 2, depth + 1)
        } else if stmt == "endfor"@ {
            if depth <= 1 {
                Some(pos)
            } else {
                for_end(t, e + 2, (depth - 1) as nat)
            }
        } else {
            for_end(t, e + 2, depth)
        }
    } else {
        for_end(t, pos + 1, depth)
    }
}

#[via_fn]
proof fn for_end_decreases(t: Seq<char>, pos: int, depth: nat) {
    if 0 <= pos {
        lemma_close(t, pos);
    }
}

/// A loop's end tag stands behind the start of its body.
proof fn lemma_for_end(t: Seq<char>, pos: int, depth: nat)
    ensures
        for_end(t, pos, depth) matches Some(e) ==> pos <= e && e < t.len(),
    decreases t.len() - pos,
{
    if 0 <= pos < t.len() {
        lemma_close(t, pos);
        if stmt_close(t, pos) is Some {
            let e = stmt_close(t, pos)->0;
            lemma_for_end(t, e + 2, depth + 1);
            lemma_for_end(t, e + 2, depth);
            if depth > 1 {
                lemma_for_end(t, e + 2, (depth - 1) as nat);
            }
        } else {
            lemma_for_end(t, pos + 1, depth);
        }
    }
}

fn find_for_end(t: &[char], start: usize) -> (r: Option<usize>)
    ensures
        match r {
            Some(e) => for_end(t@, start as int, 1) == Some(e as int) && start <= e < t@.len(),
            None => for_end(t@, start as int, 1) is None,
        },
{
    let mut depth: usize = 1;
    let mut pos: usize = start;
    proof {
        lemma_for_end(t@, start as int, 1);
    }
    while pos < t.len()
        invariant
            1 <= depth,
            start <= pos,
            pos <= t@.len() ==> depth + start <= pos + 1,
            pos == start ==> depth == 1,
            for_end(t@, start as int, 1) == for_end(t@, pos as int, depth as nat),
            for_end(t@, start as int, 1) matches Some(e) ==> start <= e < t@.len(),
        decreases t@.len() - pos,
    {
        match close_stmt(t, pos) {
            Some(e) => {
                let stmt = text_of_tag(t, pos, e);
                if starts_with_str(stmt.as_slice(), "for ") {
                    depth += 1;
                } else if equals_str(stmt.as_slice(), "endfor") {
                    if depth == 1 {
                        return Some(pos);
                    }
                    depth -= 1;
                }
                pos = e + 2;
            },
            None => {
                pos += 1;
            },
        }
    }
    None
}

/// The position of the first tag from `pos` on that ends or continues a block.
pub open spec fn end_block(t: Seq<char>, pos: int) -> Option<int>
    decreases t.len() - pos via end_block_decreases
{
    if pos < 0 || pos >= t.len() {
        None
    } else if stmt_close(t, pos) is Some {
        let e = stmt_close(t, pos)->0;
        let stmt = tag_text(t, pos, e);
        if stmt == "endif"@ || stmt == "endfor"@ || stmt == "else"@ || has_prefix(stmt, "elif "@) {
            Some(pos)
        } else {
            end_block(t, e + 2)
        }
    } else {
        end_block(t, pos + 1)
    }
}

#[via_fn]
proof fn end_block_decreases(t: Seq<char>, pos: int) {
    if 0 <= pos {
        lemma_close(t, pos);
    }
}

proof fn lemma_end_block(t: Seq<char>, pos: int)
    ensures
        end_block(t, pos) matches Some(e) ==> pos <= e && e < t.len(),
    decreases t.len() - pos,
{
    if 0 <= pos < t.len() {
        lemma_close(t, pos);
        if stmt_close(t, pos) is Some {
            lemma_end_block(t, stmt_close(t, pos)->0 + 2);
        } else {
            lemma_end_block(t, pos + 1);
        }
    }
}

fn find_end_block(t: &[char], start: usize) -> (r: Option<usize>)
    ensures
        match r {
            Some(e) => end_block(t@, start as int) == Some(e as int) && start <= e < t@.len(),
            None => end_block(t@, start as int) is None,
        },
{
    let mut pos: usize = start;
    proof {
        lemma_end_block(t@, start as int);
    }
    while pos < t.len()
        invariant
            end_block(t@, start as int) == end_block(t@, pos as int),
            end_block(t@, start as int) matches Some(e) ==> start <= e < t@.len(),
        decreases t@.len() - pos,
    {
        match close_stmt(t, pos) {
            Some(e) => {
                let stmt = text_of_tag(t, pos, e);
                if equals_str(stmt.as_slice(), "endif") || equals_str(stmt.as_slice(), "endfor")
                    || equals_str(stmt.as_slice(), "else") || starts_with_str(
                    stmt.as_slice(),
                    "elif ",
                ) {
                    return Some(pos);
                }
                pos = e + 2;
            },
            None => {
                pos += 1;
            },
        }
    }
    None
}

/// The position of the `endif` tag that ends the block that begins at `pos`, with `depth` blocks
/// open; the end of the text where there is none.
pub open spec fn if_end(t: Seq<char>, pos: int, depth: nat) -> int
    decreases t.len() - pos via if_end_decreases
{
    if pos < 0 || pos >= t.len() {
        t.len() as int
    } else if stmt_close(t, pos) is Some {
        let e = stmt_close(t, pos)->0;
        let stmt = tag_text(t, pos, e);
        if has_prefix(stmt, "if "@) {
            if_end(t, e + 2, depth + 1)
        } else if stmt == "endif"@ {
            if depth <= 1 {
                pos
            } else {
                if_end(t, e + 2, (depth - 1) as nat)
            }
        } else {
            if_end(t, e + 2, depth)
        }
    } else {
        if_end(t, pos + 1, depth)
    }
}

#[via_fn]
proof fn if_end_decreases(t: Seq<char>, pos: int, depth: nat) {
    if 0 <= pos {
        lemma_close(t, pos);
    }
}

proof fn lemma_if_end(t: Seq<char>, pos: int, depth: nat)
    requires
        pos <= t.len(),
    ensures
        pos <= if_end(t, pos, depth) <= t.len(),
    decreases t.len() - pos,
{
    if 0 <= pos < t.len() {
        lemma_close(t, pos);
        if stmt_close(t, pos) is Some {
            let e = stmt_close(t, pos)->0;
            lemma_if_end(t, e + 2, depth + 1);
            lemma_if_end(t, e + 2, depth);
            if depth > 1 {
                lemma_if_end(t, e + 2, (depth - 1) as nat);
            }
        } else {
            lemma_if_end(t, pos + 1, depth);
        }
    }
}

fn find_if_end_simple(t: &[char], start: usize) -> (r: usize)
    requires
        start <= t@.len(),
    ensures
        r == if_end(t@, start as int, 1),
        start <= r <= t@.len(),
{
    let mut depth: usize = 1;
    let mut pos: usize = start;
    proof {
        lemma_if_end(t@, start as int, 1);
    }
    while pos < t.len()
        invariant
            1 <= depth,
            start <= pos <= t@.len(),
            depth + start <= pos + 1,
            if_end(t@, start as int, 1) == if_end(t@, pos as int, depth as nat),
            start <= if_end(t@, start as int, 1) <= t@.len(),
        decreases t@.len() - pos,
    {
        match close_stmt(t, pos) {
            Some(e) => {
                let stmt = text_of_tag(t, pos, e);
                if starts_with_str(stmt.as_slice(), "if ") {
                    depth += 1;
                } else if equals_str(stmt.as_slice(), "endif") {
                    if depth == 1 {
                        return pos;
                    }
                    depth -= 1;
                }
                pos = e + 2;
            },
            None => {
                pos += 1;
            },
        }
    }
    t.len()
}

/// The condition of an `if` statement.
pub open spec fn cond_of(stmt: Seq<char>) -> Seq<char> {
    strip_end(stmt.subrange(3, stmt.len() as int), ':')
}

fn condition_of(stmt: &[char]) -> (r: Vec<char>)
    requires
        has_prefix(stmt@, "if "@),
    ensures
        r@ == cond_of(stmt@),
{
    proof {
        reveal_strlit("if ");
    }
    let rest = sub_vec(stmt, 3, stmt.len());
    stripped_end(rest.as_slice(), ':')
}

/// The text of an `if` block inside a loop: expressions and literal text.
pub open spec fn inner_from(b: Seq<char>, pos: int, c: ContextText, idx: int) -> Seq<char>
    decreases b.len() - pos via inner_from_decreases
{
    if pos < 0 || pos >= b.len() {
        Seq::empty()
    } else if expr_close(b, pos) is Some {
        let e = expr_close(b, pos)->0;
        loop_value(tag_text(b, pos, e), c, idx, false) + inner_from(b, e + 2, c, idx)
    } else {
        latin1(b[pos]) + inner_from(b, pos + 1, c, idx)
    }
}

#[via_fn]
proof fn inner_from_decreases(b: Seq<char>, pos: int, c: ContextText, idx: int) {
    if 0 <= pos {
        lemma_close(b, pos);
    }
}

fn push_inner(b: &[char], ctx: &TemplateContext, idx: usize, out: &mut String)
    requires
        idx < ctx.messages@.len(),
    ensures
        final(out)@ == old(out)@ + inner_from(b@, 0, ctx@, idx as int),
{
    let mut pos: usize = 0;
    while pos < b.len()
        invariant
            pos <= b@.len(),
            idx < ctx.messages@.len(),
            old(out)@ + inner_from(b@, 0, ctx@, idx as int) == out@ + inner_from(
                b@,
                pos as int,
                ctx@,
                idx as int,
            ),
        decreases b@.len() - pos,
    {
        let ghost before = out@;
        match close_expr(b, pos) {
            Some(e) => {
                let expr = text_of_tag(b, pos, e);
                push_loop_value(expr.as_slice(), ctx, idx, false, out);
                proof {
                    assert(out@ + inner_from(b@, e + 2, ctx@, idx as int) =~= before + inner_from(
                        b@,
                        pos as int,
                        ctx@,
                        idx as int,
                    ));
                }
                pos = e + 2;
            },
            None => {
                push_latin1(out, b[pos]);
                proof {
                    assert(out@ + inner_from(b@, pos + 1, ctx@, idx as int) =~= before + inner_from(
                        b@,
                        pos as int,
                        ctx@,
                        idx as int,
                    ));
                }
                pos += 1;
            },
        }
    }
    assert(out@ + Seq::<char>::empty() =~= out@);
}

/// Where the text goes on behind an `if` block of a loop body that ends at `e`.
pub open spec fn after_endif(b: Seq<char>, e: int) -> int {
    if occurs_at(b, e, "{% endif %}"@) {
        e + "{% endif %}"@.len()
    } else {
        e
    }
}

/// The text of one turn of a loop, for message `idx`, from `pos` in the loop body on.
pub open spec fn body_from(b: Seq<char>, pos: int, c: ContextText, idx: int) -> Seq<char>
    decreases b.len() - pos via body_from_decreases
{
    if pos < 0 || pos >= b.len() {
        Seq::empty()
    } else if expr_close(b, pos) is Some {
        let e = expr_close(b, pos)->0;
        loop_value(tag_text(b, pos, e), c, idx, true) + body_from(b, e + 2, c, idx)
    } else if stmt_close(b, pos) is Some {
        let e = stmt_close(b, pos)->0;
        let stmt = tag_text(b, pos, e);
        if has_prefix(stmt, "if "@) {
            let end = if_end(b, e + 2, 1);
            let text = if message_cond(cond_of(stmt), c.messages[idx]) {
                inner_from(b.subrange(e + 2, end), 0, c, idx)
            } else {
                Seq::empty()
            };
            text + body_from(b, after_endif(b, end), c, idx)
        } else {
            body_from(b, e + 2, c, idx)
        }
    } else if comment_close(b, pos) is Some {
        body_from(b, comment_close(b, pos)->0 + 2, c, idx)
    } else {
        latin1(b[pos]) + body_from(b, pos + 1, c, idx)
    }
}

#[via_fn]
proof fn body_from_decreases(b: Seq<char>, pos: int, c: ContextText, idx: int) {
    if 0 <= pos < b.len() {
        lemma_close(b, pos);
        if stmt_close(b, pos) is Some {
            lemma_if_end(b, stmt_close(b, pos)->0 + 2, 1);
        }
    }
}

fn push_body(b: &[char], ctx: &TemplateContext, idx: usize, out: &mut String)
    requires
        idx < ctx.messages@.len(),
    ensures
        final(out)@ == old(out)@ + body_from(b@, 0, ctx@, idx as int),
{
    let mut pos: usize = 0;
    while pos < b.len()
        invariant
            pos <= b@.len(),
            idx < ctx.messages@.len(),
            old(out)@ + body_from(b@, 0, ctx@, idx as int) == out@ + body_from(
                b@,
                pos as int,
                ctx@,
                idx as int,
            ),
        decreases b@.len() - pos,
    {
        let ghost before = out@;
        let ghost was = pos as int;
        let ghost i = idx as int;
        let mut next: usize = pos + 1;
        if let Some(e) = close_expr(b, pos) {
            let expr = text_of_tag(b, pos, e);
            push_loop_value(expr.as_slice(), ctx, idx, true, out);
            next = e + 2;
            proof {
                assert(out@ + body_from(b@, next as int, ctx@, i) =~= before + body_from(
                    b@,
                    was,
                    ctx@,
                    i,
                ));
            }
        } else if let Some(e) = close_stmt(b, pos) {
            let stmt = text_of_tag(b, pos, e);
            if starts_with_str(stmt.as_slice(), "if ") {
                let cond = condition_of(stmt.as_slice());
                let end = find_if_end_simple(b, e + 2);
                assert(ctx@.messages[i] == ctx.messages@[i]@);
                if eval_cond(cond.as_slice(), &ctx.messages[idx]) {
                    let block = sub_vec(b, e + 2, end);
                    push_inner(block.as_slice(), ctx, idx, out);
                }
                next = end;
                if occurs_str_at(b, end, "{% endif %}") {
                    proof {
                        reveal_strlit("{% endif %}");
                    }
                    assert(end + 11 <= b.len());
                    next = end + 11;
                }
                proof {
                    assert(before + Seq::<char>::empty() =~= before);
                    assert(out@ + body_from(b@, next as int, ctx@, i) =~= before + body_from(
                        b@,
                        was,
                        ctx@,
                        i,
                    ));
                }
            } else {
                next = e + 2;
            }
        } else if let Some(e) = close_comment(b, pos) {
            next = e + 2;
        } else {
            push_latin1(out, b[pos]);
            proof {
                assert(out@ + body_from(b@, next as int, ctx@, i) =~= before + body_from(
                    b@,
                    was,
                    ctx@,
                    i,
                ));
            }
        }
        pos = next;
    }
    assert(out@ + Seq::<char>::empty() =~= out@);
}

/// The text of the first `n` turns of a loop over the messages.
pub open spec fn turns(b: Seq<char>, c: ContextText, n: nat) -> Seq<char>
    decreases n,
{
    if n == 0 {
        Seq::empty()
    } else {
        turns(b, c, (n - 1) as nat) + body_from(b, 0, c, n - 1)
    }
}

/// The position `n` bytes of UTF-8 behind `pos`.  Where that falls inside a character, it is the
/// next character's, and the bytes between come out as characters with those codes.
pub open spec fn skip_bytes(t: Seq<char>, pos: int, n: int) -> (Seq<char>, int)
    decreases t.len() - pos,
{
    if n <= 0 || pos < 0 || pos >= t.len() {
        (Seq::empty(), pos)
    } else {
        let b = encode_utf8(seq![t[pos]]);
        if b.len() <= n {
            skip_bytes(t, pos + 1, n - b.len())
        } else {
            (b.skip(n).map_values(|x: u8| x as char), pos + 1)
        }
    }
}

proof fn lemma_skip_bytes(t: Seq<char>, pos: int, n: int)
    requires
        pos <= t.len(),
    ensures
        pos <= skip_bytes(t, pos, n).1 <= t.len(),
    decreases t.len() - pos,
{
    if 0 < n && 0 <= pos < t.len() {
        lemma_skip_bytes(t, pos + 1, n - encode_utf8(seq![t[pos]]).len());
    }
}

fn push_skipped(t: &[char], start: usize, count: usize, out: &mut String) -> (r: usize)
    requires
        start <= t@.len(),
    ensures
        (final(out)@, r as int) == (
            old(out)@ + skip_bytes(t@, start as int, count as int).0,
            skip_bytes(t@, start as int, count as int).1,
        ),
        start <= r <= t@.len(),
{
    let mut pos: usize = start;
    let mut n: usize = count;
    proof {
        lemma_skip_bytes(t@, start as int, count as int);
    }
    while n > 0 && pos < t.len()
        invariant
            start <= pos <= t@.len(),
            out@ == old(out)@,
            skip_bytes(t@, start as int, count as int) == skip_bytes(t@, pos as int, n as int),
            start <= skip_bytes(t@, start as int, count as int).1 <= t@.len(),
        decreases t@.len() - pos,
    {
        let b = utf8_bytes(t[pos]);
        if b.len() <= n {
            n -= b.len();
            pos += 1;
        } else {
            push_bytes_as_chars(out, b.as_slice(), n);
            return pos + 1;
        }
    }
    assert(old(out)@ + Seq::<char>::empty() =~= old(out)@);
    pos
}

/// What a `for` statement does: the text that it adds, and where the template goes on.
pub open spec fn for_effect(over_messages: bool, t: Seq<char>, after: int, c: ContextText) -> (
    Seq<char>,
    int,
) {
    match for_end(t, after, 1) {
        None => (Seq::empty(), after),
        Some(e) => {
            let text = if over_messages {
                turns(t.subrange(after, e), c, c.messages.len())
            } else {
                Seq::empty()
            };
            let (cut, next) = skip_bytes(t, e, "{% endfor %}"@.len() as int);
            (text + cut, next)
        },
    }
}

fn eval_for(over_messages: bool, t: &[char], after: usize, ctx: &TemplateContext, out: &mut String)
 -> (r: usize)
    requires
        after <= t@.len(),
    ensures
        final(out)@ == old(out)@ + for_effect(over_messages, t@, after as int, ctx@).0,
        r == for_effect(over_messages, t@, after as int, ctx@).1,
        after <= r <= t@.len(),
{
    match find_for_end(t, after) {
        None => {
            assert(old(out)@ + Seq::<char>::empty() =~= old(out)@);
            after
        },
        Some(e) => {
            let body = sub_vec(t, after, e);
            let count: usize = if over_messages { ctx.messages.len() } else { 0 };
            let ghost text = turns(body@, ctx@, count as nat);
            let mut idx: usize = 0;
            assert(old(out)@ + Seq::<char>::empty() =~= old(out)@);
            while idx < count
                invariant
                    idx <= count <= ctx.messages@.len(),
                    out@ == old(out)@ + turns(body@, ctx@, idx as nat),
                decreases count - idx,
            {
                push_body(body.as_slice(), ctx, idx, out);
                idx += 1;
                proof {
                    assert(out@ =~= old(out)@ + turns(body@, ctx@, idx as nat));
                }
            }
            proof {
                reveal_strlit("{% endfor %}");
            }
            let ghost mid = out@;
            let next = push_skipped(t, e, 12, out);
            proof {
                assert(text =~= if over_messages {
                    turns(body@, ctx@, ctx@.messages.len())
                } else {
                    Seq::empty()
                });
                assert(out@ =~= old(out)@ + (text + skip_bytes(t@, e as int, 12).0));
            }
            next
        },
    }
}

/// What an `if` statement does: the text that it adds, and where the template goes on.  The chosen
/// branch is copied as it stands.
pub open spec fn if_effect(cond: Seq<char>, t: Seq<char>, after: int, c: ContextText) -> (
    Seq<char>,
    int,
) {
    let else_tag = find_from(t, "{% else %}"@, after);
    let endif_tag = find_from(t, "{% endif %}"@, after);
    if endif_tag is None || (else_tag is Some && endif_tag->0 <= else_tag->0) {
        (Seq::empty(), after)
    } else {
        let next = endif_tag->0 + "{% endif %}"@.len();
        if global_cond(cond, c) {
            let end = if else_tag is Some {
                else_tag->0
            } else {
                endif_tag->0
            };
            (t.subrange(after, end), next)
        } else if else_tag is Some {
            (t.subrange(else_tag->0 + "{% else %}"@.len(), endif_tag->0), next)
        } else {
            (Seq::empty(), next)
        }
    }
}

/// An `else` tag in front of an `endif` tag ends in front of it.
proof fn lemma_else_endif(t: Seq<char>, after: int)
    requires
        0 <= after,
    ensures
        find_from(t, "{% else %}"@, after) matches Some(a) ==> after <= a && a + 10 <= t.len(),
        find_from(t, "{% endif %}"@, after) matches Some(b) ==> after <= b && b + 11 <= t.len(),
        find_from(t, "{% else %}"@, after) is Some && find_from(t, "{% endif %}"@, after) is Some
            && find_from(t, "{% else %}"@, after)->0 < find_from(t, "{% endif %}"@, after)->0
            ==> find_from(t, "{% else %}"@, after)->0 + 10 <= find_from(
            t,
            "{% endif %}"@,
            after,
        )->0,
{
    let p = "{% else %}"@;
    let q = "{% endif %}"@;
    reveal_strlit("{% else %}");
    reveal_strlit("{% endif %}");
    lemma_find_from(t, p, after);
    lemma_find_from(t, q, after);
    if find_from(t, p, after) is Some && find_from(t, q, after) is Some {
        let a = find_from(t, p, after)->0;
        let b = find_from(t, q, after)->0;
        if a < b < a + 10 {
            assert(t.subrange(b, b + 11)[0] == t[b]);
            assert(t.subrange(a, a + 10)[b - a] == t[b]);
            assert(t.subrange(a, a + 10) == p);
            assert(t.subrange(b, b + 11) == q);
            assert(p[b - a] == q[0]);
            assert(q[0] == '{');
            assert(p[1] != '{' && p[2] != '{' && p[3] != '{' && p[4] != '{' && p[5] != '{' && p[6]
                != '{' && p[7] != '{' && p[8] != '{' && p[9] != '{');
        }
    }
}

fn push_range(t: &[char], from: usize, to: usize, out: &mut String)
    requires
        from <= to <= t@.len(),
    ensures
        final(out)@ == old(out)@ + t@.subrange(from as int, to as int),
{
    let piece = string_of(t, from, to);
    out.append(piece.as_str());
}

fn eval_if(cond: &[char], t: &[char], after: usize, ctx: &TemplateContext, out: &mut String) -> (r:
    usize)
    requires
        after <= t@.len(),
    ensures
        final(out)@ == old(out)@ + if_effect(cond@, t@, after as int, ctx@).0,
        r == if_effect(cond@, t@, after as int, ctx@).1,
        after <= r <= t@.len(),
{
    let holds = eval_cond_global(cond, ctx);
    let else_tag = find_str_from(t, "{% else %}", after);
    let endif_tag = find_str_from(t, "{% endif %}", after);
    proof {
        lemma_else_endif(t@, after as int);
        reveal_strlit("{% else %}");
        reveal_strlit("{% endif %}");
        assert(old(out)@ + Seq::<char>::empty() =~= old(out)@);
    }
    match endif_tag {
        None => after,
        Some(b) => {
            assert(b + 11 <= t.len());
            match else_tag {
                Some(a) => {
                    if b <= a {
                        return after;
                    }
                    if holds {
                        push_range(t, after, a, out);
                    } else {
                        push_range(t, a + 10, b, out);
                    }
                },
                None => {
                    if holds {
                        push_range(t, after, b, out);
                    }
                },
            }
            b + 11
        },
    }
}

/// What a statement does: the text that it adds, and where the template goes on.
pub open spec fn stmt_effect(stmt: Seq<char>, t: Seq<char>, after: int, c: ContextText) -> (
    Seq<char>,
    int,
) {
    let loop_in = find_from(stmt, " in "@, 4);
    if has_prefix(stmt, "for "@) && loop_in is Some {
        let over = strip_end(trim_end(stmt.subrange(loop_in->0 + 4, stmt.len() as int)), ':');
        for_effect(over == "messages"@, t, after, c)
    } else if has_prefix(stmt, "if "@) {
        if_effect(cond_of(stmt), t, after, c)
    } else if stmt == "else"@ || has_prefix(stmt, "elif "@) {
        if end_block(t, after) is Some {
            (Seq::empty(), end_block(t, after)->0)
        } else if find_from(t, "{% endif %}"@, after) is Some {
            (Seq::empty(), find_from(t, "{% endif %}"@, after)->0 + "{% endif %}"@.len())
        } else {
            (Seq::empty(), after)
        }
    } else {
        (Seq::empty(), after)
    }
}

/// A statement never moves back.
proof fn lemma_stmt_effect(stmt: Seq<char>, t: Seq<char>, after: int, c: ContextText)
    requires
        0 <= after <= t.len(),
    ensures
        after <= stmt_effect(stmt, t, after, c).1 <= t.len(),
{
    reveal_strlit("{% endif %}");
    lemma_for_end(t, after, 1);
    if for_end(t, after, 1) is Some {
        lemma_skip_bytes(t, for_end(t, after, 1)->0, "{% endfor %}"@.len() as int);
    }
    lemma_else_endif(t, after);
    lemma_end_block(t, after);
}

fn eval_stmt(stmt: &[char], t: &[char], after: usize, ctx: &TemplateContext, out: &mut String) -> (r:
    usize)
    requires
        after <= t@.len(),
    ensures
        final(out)@ == old(out)@ + stmt_effect(stmt@, t@, after as int, ctx@).0,
        r == stmt_effect(stmt@, t@, after as int, ctx@).1,
        after <= r <= t@.len(),
{
    proof {
        assert(old(out)@ + Seq::<char>::empty() =~= old(out)@);
        reveal_strlit("for ");
        reveal_strlit(" in ");
        reveal_strlit("{% endif %}");
        lemma_find_from(stmt@, " in "@, 4);
        lemma_else_endif(t@, after as int);
    }
    if starts_with_str(stmt, "for ") {
        if let Some(p) = find_str_from(stmt, " in ", 4) {
            assert(p + 4 <= stmt.len());
            let rest = sub_vec(stmt, p + 4, stmt.len());
            let ended = trimmed_end(rest.as_slice());
            let over = stripped_end(ended.as_slice(), ':');
            let over_messages = equals_str(over.as_slice(), "messages");
            return eval_for(over_messages, t, after, ctx, out);
        }
    }
    if starts_with_str(stmt, "if ") {
        let cond = condition_of(stmt);
        return eval_if(cond.as_slice(), t, after, ctx, out);
    }
    if equals_str(stmt, "else") || starts_with_str(stmt, "elif ") {
        if let Some(e) = find_end_block(t, after) {
            return e;
        }
        if let Some(e) = find_str_from(t, "{% endif %}", after) {
            assert(e + 11 <= t.len());
            return e + 11;
        }
    }
    after
}

/// The text of a template from `pos` on.
pub open spec fn render_from(t: Seq<char>, pos: int, c: ContextText) -> Seq<char>
    decreases t.len() - pos via render_from_decreases
{
    if pos < 0 || pos >= t.len() {
        Seq::empty()
    } else if expr_close(t, pos) is Some {
        let e = expr_close(t, pos)->0;
        expr_value(tag_text(t, pos, e), c) + render_from(t, e + 2, c)
    } else if stmt_close(t, pos) is Some {
        let e = stmt_close(t, pos)->0;
        let (text, next) = stmt_effect(tag_text(t, pos, e), t, e + 2, c);
        text + render_from(t, next, c)
    } else if comment_close(t, pos) is Some {
        render_from(t, comment_close(t, pos)->0 + 2, c)
    } else {
        latin1(t[pos]) + render_from(t, pos + 1, c)
    }
}

#[via_fn]
proof fn render_from_decreases(t: Seq<char>, pos: int, c: ContextText) {
    if 0 <= pos < t.len() {
        lemma_close(t, pos);
        if stmt_close(t, pos) is Some {
            let e = stmt_close(t, pos)->0;
            lemma_stmt_effect(tag_text(t, pos, e), t, e + 2, c);
        }
    }
}

/// The text of a template.
pub open spec fn render(t: Seq<char>, c: ContextText) -> Seq<char> {
    render_from(t, 0, c)
}

/// Renders a template.
pub fn eval_jinja2(template: &str, ctx: &TemplateContext) -> (r: String)
    ensures
        r@ == render(template@, ctx@),
{
    let chars = chars_of(template);
    let t = chars.as_slice();
    let mut out = String::new();
    let mut pos: usize = 0;
    assert(out@ + render(t@, ctx@) =~= render(t@, ctx@));
    while pos < t.len()
        invariant
            pos <= t@.len(),
            render(t@, ctx@) == out@ + render_from(t@, pos as int, ctx@),
        decreases t@.len() - pos,
    {
        let ghost before = out@;
        let ghost was = pos as int;
        let mut next: usize = pos + 1;
        if let Some(e) = close_expr(t, pos) {
            let expr = text_of_tag(t, pos, e);
            let value = eval_expr(expr.as_slice(), ctx);
            out.append(value.as_str());
            next = e + 2;
        } else if let Some(e) = close_stmt(t, pos) {
            let stmt = text_of_tag(t, pos, e);
            next = eval_stmt(stmt.as_slice(), t, e + 2, ctx, &mut out);
        } else if let Some(e) = close_comment(t, pos) {
            next = e + 2;
            assert(before + Seq::<char>::empty() =~= before);
        } else {
            push_latin1(&mut out, t[pos]);
        }
        proof {
            assert(out@ + render_from(t@, next as int, ctx@) =~= before + render_from(
                t@,
                was,
                ctx@,
            ));
        }
        pos = next;
    }
    assert(out@ + Seq::<char>::empty() =~= out@);
    out
}

} // verus!
