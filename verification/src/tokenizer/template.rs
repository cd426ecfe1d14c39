//! Prompt formats: which one a model uses, and a template for each.
use vstd::prelude::*;

use crate::gguf::file::GgufFile;
use crate::gguf::meta::{models_of, MetaModel, MetaValue};
use crate::text::{
    chars_of, contains, contains_str, equals_str, find, find_from, has_prefix, lemma_find_from,
    occurs_at, starts_with_str, strip_start, sub_vec, trim, trimmed,
};
use crate::tokenizer::jinja::{
    close_comment, close_expr, close_stmt, comment_close, expr_close, lemma_close, stmt_close,
};

verus! {

/// A prompt format.
#[derive(Debug, Clone, Copy, PartialEq, Eq, Structural)]
pub enum TemplateKind {
    ChatML,
    MistralInstruct,
    Llama3,
    Gemma,
    Phi3,
    Qwen3,
    Custom,
}

pub const CHATML_TEMPLATE: &'static str = "{% for message in messages %}{% if message['role'] == 'system' %}<|im_start|>system\n{{ message['content'] }}<|im_end|>\n{% endif %}{% if message['role'] == 'user' %}<|im_start|>user\n{{ message['content'] }}<|im_end|>\n{% endif %}{% if message['role'] == 'assistant' %}<|im_start|>assistant\n{{ message['content'] }}<|im_end|>\n{% endif %}{% endfor %}{% if add_generation_prompt %}<|im_start|>assistant\n\n\n\n{% endif %}";

pub const MISTRAL_TEMPLATE: &'static str = "{% for message in messages %}{% if message['role'] == 'user' %}[INST] {{ message['content'] }} [/INST]{% endif %}{% if message['role'] == 'assistant' %}{{ message['content'] }} </s>{% endif %}{% endfor %}";

pub const LLAMA3_TEMPLATE: &'static str = "{{ bos_token }}{% for message in messages %}{% if message['role'] == 'system' %}<|start_header_id|>system<|end_header_id|>\n\n{{ message['content'] }}<|eot_id|>\n{% endif %}{% if message['role'] == 'user' %}<|start_header_id|>user<|end_header_id|>\n\n{{ message['content'] }}<|eot_id|>\n{% endif %}{% if message['role'] == 'assistant' %}<|start_header_id|>assistant<|end_header_id|>\n\n{{ message['content'] }}<|eot_id|>\n{% endif %}{% endfor %}{% if add_generation_prompt %}<|start_header_id|>assistant<|end_header_id|>\n\n{% endif %}";

pub const GEMMA_TEMPLATE: &'static str = "{{ bos_token }}{% for message in messages %}{% if message['role'] == 'user' %}<start_of_turn>user\n{{ message['content'] }}<end_of_turn>\n{% endif %}{% if message['role'] == 'assistant' %}<start_of_turn>model\n{{ message['content'] }}<end_of_turn>\n{% endif %}{% endfor %}{% if add_generation_prompt %}<start_of_turn>user\n{% endif %}";

pub const QWEN3_TEMPLATE: &'static str = "{% for message in messages %}{% if message['role'] == 'system' %}<|im_start|>system\n{{ message['content'] }}<|im_end|>\n{% endif %}{% if message['role'] == 'user' %}<|im_start|>user\n{{ message['content'] }}<|im_end|>\n{% endif %}{% if message['role'] == 'assistant' %}<|im_start|>assistant\n{{ message['content'] }}<|im_end|>\n{% endif %}{% endfor %}{% if add_generation_prompt %}<|im_start|>assistant\n<think>\n\n</think>\n\n{% endif %}";

pub const PHI3_TEMPLATE: &'static str = "{% for message in messages %}{% if message['role'] == 'system' %}<|system|>\n{{ message['content'] }}<|end|>\n{% endif %}{% if message['role'] == 'user' %}<|user|>\n{{ message['content'] }}<|end|>\n{% endif %}{% if message['role'] == 'assistant' %}<|assistant|>\n{{ message['content'] }}<|end|>\n{% endif %}{% endfor %}{% if add_generation_prompt %}<|assistant|>\n{% endif %}";

/// The template that stands in for a missing or unsupported one.
pub open spec fn template_text(kind: TemplateKind) -> Seq<char> {
    match kind {
        TemplateKind::ChatML | TemplateKind::Custom => CHATML_TEMPLATE@,
        TemplateKind::MistralInstruct => MISTRAL_TEMPLATE@,
        TemplateKind::Llama3 => LLAMA3_TEMPLATE@,
        TemplateKind::Gemma => GEMMA_TEMPLATE@,
        TemplateKind::Qwen3 => QWEN3_TEMPLATE@,
        TemplateKind::Phi3 => PHI3_TEMPLATE@,
    }
}

/// The template that stands in for a missing or unsupported one.
pub fn synthetic_template(kind: TemplateKind) -> (r: &'static str)
    ensures
        r@ == template_text(kind),
{
    match kind {
        TemplateKind::ChatML | TemplateKind::Custom => CHATML_TEMPLATE,
        TemplateKind::MistralInstruct => MISTRAL_TEMPLATE,
        TemplateKind::Llama3 => LLAMA3_TEMPLATE,
        TemplateKind::Gemma => GEMMA_TEMPLATE,
        TemplateKind::Qwen3 => QWEN3_TEMPLATE,
        TemplateKind::Phi3 => PHI3_TEMPLATE,
    }
}

/// A statement that the evaluator does not know: an assignment or a further condition, with or
/// without a dash that strips white space.
pub open spec fn foreign_statement(inner: Seq<char>) -> bool {
    let s = trim(strip_start(inner, '-'));
    has_prefix(s, "set "@) || has_prefix(s, "elif "@)
}

/// The quotation mark that is open behind the first `n` characters of a tag.
pub open spec fn open_quote(inner: Seq<char>, n: int) -> Option<char>
    decreases n,
{
    if n <= 0 {
        None
    } else {
        let c = inner[n - 1];
        match open_quote(inner, n - 1) {
            None => if c == '\'' || c == '"' {
                Some(c)
            } else {
                None
            },
            Some(q) => if c == q {
                None
            } else {
                Some(q)
            },
        }
    }
}

/// A bar at place `i` of a tag, outside quoted text.
pub open spec fn filter_at(inner: Seq<char>, i: int) -> bool {
    0 <= i < inner.len() && inner[i] == '|' && open_quote(inner, i) is None
}

/// A tag applies a filter: a bar stands outside quoted text.
pub open spec fn has_filter(inner: Seq<char>) -> bool {
    exists|i: int| filter_at(inner, i)
}

/// From `pos` on, a tag holds a filter or a statement that the evaluator does not know.
pub open spec fn foreign_tag_from(t: Seq<char>, pos: int) -> bool
    decreases t.len() - pos via foreign_tag_decreases
{
    if pos < 0 || pos >= t.len() {
        false
    } else if expr_close(t, pos) is Some {
        let e = expr_close(t, pos)->0;
        has_filter(t.subrange(pos + 2, e)) || foreign_tag_from(t, e + 2)
    } else if stmt_close(t, pos) is Some {
        let e = stmt_close(t, pos)->0;
        let inner = t.subrange(pos + 2, e);
        has_filter(inner) || foreign_statement(inner) || foreign_tag_from(t, e + 2)
    } else if comment_close(t, pos) is Some {
        foreign_tag_from(t, comment_close(t, pos)->0 + 2)
    } else {
        foreign_tag_from(t, pos + 1)
    }
}

#[via_fn]
proof fn foreign_tag_decreases(t: Seq<char>, pos: int) {
    if 0 <= pos {
        lemma_close(t, pos);
    }
}

fn applies_filter(t: &[char], from: usize, to: usize) -> (r: bool)
    requires
        from <= to <= t@.len(),
    ensures
        r == has_filter(t@.subrange(from as int, to as int)),
{
    let ghost inner = t@.subrange(from as int, to as int);
    let mut open: Option<char> = None;
    let mut i: usize = from;
    while i < to
        invariant
            from <= i <= to <= t@.len(),
            inner == t@.subrange(from as int, to as int),
            open == open_quote(inner, i - from),
            forall|k: int| 0 <= k < i - from ==> !filter_at(inner, k),
        decreases to - i,
    {
        let c: char = t[i];
        assert(c == inner[i - from]);
        match open {
            None => {
                if c == '|' {
                    assert(filter_at(inner, i - from));
                    return true;
                }
                if c == '\'' || c == '"' {
                    open = Some(c);
                }
            },
            Some(q) => {
                if c == q {
                    open = None;
                }
            },
        }
        i += 1;
    }
    false
}

fn is_foreign_statement(t: &[char], from: usize, to: usize) -> (r: bool)
    requires
        from <= to <= t@.len(),
    ensures
        r == foreign_statement(t@.subrange(from as int, to as int)),
{
    let ghost inner = t@.subrange(from as int, to as int);
    let mut i: usize = from;
    assert(t@.subrange(i as int, to as int) =~= inner);
    while i < to && t[i] == '-'
        invariant
            from <= i <= to <= t@.len(),
            strip_start(t@.subrange(i as int, to as int), '-') == strip_start(inner, '-'),
        decreases to - i,
    {
        assert(t@.subrange(i as int, to as int).skip(1) =~= t@.subrange(i + 1, to as int));
        i += 1;
    }
    let s = trimmed(sub_vec(t, i, to).as_slice());
    starts_with_str(s.as_slice(), "set ") || starts_with_str(s.as_slice(), "elif ")
}

fn has_foreign_tag(t: &[char]) -> (r: bool)
    ensures
        r == foreign_tag_from(t@, 0),
{
    let mut pos: usize = 0;
    while pos < t.len()
        invariant
            pos <= t@.len(),
            foreign_tag_from(t@, 0) == foreign_tag_from(t@, pos as int),
        decreases t@.len() - pos,
    {
        if let Some(e) = close_expr(t, pos) {
            if applies_filter(t, pos + 2, e) {
                return true;
            }
            pos = e + 2;
        } else if let Some(e) = close_stmt(t, pos) {
            if applies_filter(t, pos + 2, e) || is_foreign_statement(t, pos + 2, e) {
                return true;
            }
            pos = e + 2;
        } else if let Some(e) = close_comment(t, pos) {
            pos = e + 2;
        } else {
            pos += 1;
        }
    }
    false
}

/// A template that uses nothing beyond what the evaluator knows: no assignments, no further
/// conditions, no filters, no namespaces and no tests.
pub open spec fn simple_enough(t: Seq<char>) -> bool {
    &&& !foreign_tag_from(t, 0)
    &&& !contains(t, "{% set"@) && !contains(t, "{%- set"@) && !contains(t, "{% elif"@)
    &&& !contains(t, "namespace"@) && !contains(t, "| "@)
    &&& !contains(t, "is defined"@) && !contains(t, "is not"@)
}

/// Whether a template uses nothing beyond what the evaluator knows.
pub fn is_template_simple_enough(template: &str) -> (r: bool)
    ensures
        r == simple_enough(template@),
{
    let c = chars_of(template);
    let t = c.as_slice();
    !has_foreign_tag(t) && !contains_str(t, "{% set") && !contains_str(t, "{%- set")
        && !contains_str(t, "{% elif") && !contains_str(t, "namespace") && !contains_str(t, "| ")
        && !contains_str(t, "is defined") && !contains_str(t, "is not")
}

/// No tag, not even half of one at the end, stands in the text.
pub open spec fn opens_no_tag(t: Seq<char>) -> bool {
    forall|i: int|
        0 <= i < t.len() && #[trigger] t[i] == '{' ==> i + 1 < t.len() && t[i + 1] != '{' && t[i + 1]
            != '%' && t[i + 1] != '#'
}

proof fn lemma_no_tag(t: Seq<char>, pos: int)
    requires
        0 <= pos < t.len(),
        t[pos] == '{' ==> pos + 1 < t.len() && t[pos + 1] != '{' && t[pos + 1] != '%' && t[pos + 1]
            != '#',
    ensures
        foreign_tag_from(t, pos) == foreign_tag_from(t, pos + 1),
{
    reveal_strlit("{{");
    reveal_strlit("{%");
    reveal_strlit("{#");
    if pos + 2 <= t.len() {
        assert(t.subrange(pos, pos + 2)[0] == t[pos]);
        assert(t.subrange(pos, pos + 2)[1] == t[pos + 1]);
    }
}

proof fn lemma_skip_literal(t: Seq<char>, pos: int, end: int)
    requires
        0 <= pos <= end <= t.len(),
        opens_no_tag(t.take(end)),
    ensures
        foreign_tag_from(t, pos) == foreign_tag_from(t, end),
    decreases end - pos,
{
    if pos < end {
        assert(t.take(end)[pos] == t[pos]);
        if t[pos] == '{' {
            assert(t.take(end)[pos + 1] == t[pos + 1]);
        }
        lemma_no_tag(t, pos);
        lemma_skip_literal(t, pos + 1, end);
    }
}

/// A bar in literal text is no filter: without tags, nothing is foreign.
pub proof fn law_literal_bars_are_allowed(t: Seq<char>)
    requires
        opens_no_tag(t),
    ensures
        !foreign_tag_from(t, 0),
{
    assert(t.take(t.len() as int) =~= t);
    lemma_skip_literal(t, 0, t.len() as int);
}

/// A bar in a quoted string is no filter: a tag without bars outside quotes applies none.
pub proof fn law_quoted_bars_are_allowed(
    before: Seq<char>,
    quoted: Seq<char>,
    after: Seq<char>,
    q: char,
)
    requires
        q == '\'' || q == '"',
        !quoted.contains(q),
        !before.contains('|') && !before.contains('\'') && !before.contains('"'),
        !after.contains('|'),
    ensures
        !has_filter(before.push(q) + quoted.push(q) + after),
{
    let inner = before.push(q) + quoted.push(q) + after;
    let (n, m) = (before.len() as int, before.len() + quoted.len() + 2);
    lemma_plain_part(inner, n);
    assert(inner[n] == q);
    assert(open_quote(inner, n + 1) == Some(q));
    assert(quoted =~= inner.subrange(n + 1, m - 1));
    lemma_quoted_part(inner, q, n + 1, m - 1, quoted);
    assert forall|i: int| !filter_at(inner, i) by {
        if filter_at(inner, i) {
            if i < n {
                assert(before.contains(inner[i]));
            } else if i >= m {
                assert(after.contains(inner[i]));
            }
        }
    }
}

proof fn lemma_plain_part(inner: Seq<char>, n: int)
    requires
        0 <= n <= inner.len(),
        forall|i: int| 0 <= i < n ==> inner[i] != '\'' && inner[i] != '"',
    ensures
        open_quote(inner, n) is None,
    decreases n,
{
    if n > 0 {
        lemma_plain_part(inner, n - 1);
    }
}

proof fn lemma_quoted_part(inner: Seq<char>, q: char, from: int, to: int, quoted: Seq<char>)
    requires
        0 < from <= to <= inner.len(),
        open_quote(inner, from) == Some(q),
        quoted == inner.subrange(from, to),
        !quoted.contains(q),
    ensures
        forall|i: int| from <= i <= to ==> open_quote(inner, i) == Some(q),
    decreases to - from,
{
    if from < to {
        assert(quoted[0] == inner[from]);
        assert(quoted.contains(quoted[0]));
        let rest = quoted.skip(1);
        assert(rest =~= inner.subrange(from + 1, to));
        assert forall|i: int| 0 <= i < rest.len() implies rest[i] != q by {
            assert(rest[i] == quoted[i + 1]);
            assert(quoted.contains(quoted[i + 1]));
        }
        lemma_quoted_part(inner, q, from + 1, to, rest);
    }
}

/// What opens and what closes an expression or a statement.
pub open spec fn delimiters(statement: bool) -> (Seq<char>, Seq<char>) {
    if statement {
        ("{%"@, "%}"@)
    } else {
        ("{{"@, "}}"@)
    }
}

/// A template with a filter in an expression or a statement is never simple, however the filter is
/// spaced.
pub proof fn law_filters_are_refused(
    statement: bool,
    before: Seq<char>,
    inner: Seq<char>,
    after: Seq<char>,
)
    requires
        opens_no_tag(before),
        has_filter(inner),
        find(inner + delimiters(statement).1, delimiters(statement).1) == Some(inner.len() as int),
    ensures
        !simple_enough(before + delimiters(statement).0 + inner + delimiters(statement).1 + after),
{
    let (open, close) = delimiters(statement);
    let t = before + open + inner + close + after;
    let n = before.len() as int;
    reveal_strlit("{{");
    reveal_strlit("}}");
    reveal_strlit("{%");
    reveal_strlit("%}");
    assert(t.take(n) =~= before);
    lemma_skip_literal(t, 0, n);
    assert(t.subrange(n, n + 2) =~= open);
    assert(occurs_at(t, n, open));
    assert(t.subrange(n, n + 2)[1] == if statement { '%' } else { '{' });
    let e = n + 2 + inner.len();
    let s = inner + close;
    lemma_find_from(s, close, 0);
    lemma_find_from(t, close, n + 2);
    assert(t.subrange(e, e + 2) =~= close);
    assert(occurs_at(t, e, close));
    let found = find_from(t, close, n + 2)->0;
    if found < e {
        let k = found - n - 2;
        assert(s.subrange(k, k + 2) =~= t.subrange(found, found + 2));
        assert(occurs_at(s, k, close));
    }
    assert(t.subrange(n + 2, e) =~= inner);
    assert(statement ==> !occurs_at(t, n, "{{"@));
}

/// The format whose markers a template holds.
pub open spec fn format_of_content(t: Seq<char>) -> Option<TemplateKind> {
    if contains(t, "namespace"@) && contains(t, "reasoning_content"@) {
        Some(TemplateKind::Qwen3)
    } else if contains(t, "<|im_start|>"@) {
        Some(TemplateKind::ChatML)
    } else if contains(t, "[INST]"@) {
        Some(TemplateKind::MistralInstruct)
    } else if contains(t, "<|start_header_id|>"@) {
        Some(TemplateKind::Llama3)
    } else if contains(t, "<start_of_turn>"@) {
        Some(TemplateKind::Gemma)
    } else if contains(t, "<|system|>"@) || contains(t, "<|user|>"@) || contains(
        t,
        "<|assistant|>"@,
    ) {
        Some(TemplateKind::Phi3)
    } else {
        None
    }
}

/// The format whose markers a template holds.
pub fn detect_format_from_content(template: &str) -> (r: Option<TemplateKind>)
    ensures
        r == format_of_content(template@),
{
    let c = chars_of(template);
    let t = c.as_slice();
    if contains_str(t, "namespace") && contains_str(t, "reasoning_content") {
        Some(TemplateKind::Qwen3)
    } else if contains_str(t, "<|im_start|>") {
        Some(TemplateKind::ChatML)
    } else if contains_str(t, "[INST]") {
        Some(TemplateKind::MistralInstruct)
    } else if contains_str(t, "<|start_header_id|>") {
        Some(TemplateKind::Llama3)
    } else if contains_str(t, "<start_of_turn>") {
        Some(TemplateKind::Gemma)
    } else if contains_str(t, "<|system|>") || contains_str(t, "<|user|>") || contains_str(
        t,
        "<|assistant|>",
    ) {
        Some(TemplateKind::Phi3)
    } else {
        None
    }
}

/// The format that one token gives away.  Only tokens of the main vocabulary tell of Phi-3.
pub open spec fn format_of_token(v: MetaModel, main: bool) -> Option<TemplateKind> {
    match v.text() {
        None => None,
        Some(s) => if contains(s, "<|im_start|>"@) {
            Some(TemplateKind::ChatML)
        } else if contains(s, "<|start_header_id|>"@) {
            Some(TemplateKind::Llama3)
        } else if contains(s, "<start_of_turn>"@) {
            Some(TemplateKind::Gemma)
        } else if main && (s == "<|system|>"@ || s == "<|user|>"@ || s == "<|assistant|>"@) {
            Some(TemplateKind::Phi3)
        } else {
            None
        },
    }
}

/// The format that the first telling token from `i` on gives away.
pub open spec fn format_of_tokens(v: Seq<MetaModel>, main: bool, i: int) -> Option<TemplateKind>
    decreases v.len() - i,
{
    if i < 0 || i >= v.len() {
        None
    } else if format_of_token(v[i], main) is Some {
        format_of_token(v[i], main)
    } else {
        format_of_tokens(v, main, i + 1)
    }
}

fn detect_format_from_token(v: &MetaValue, main: bool) -> (r: Option<TemplateKind>)
    ensures
        r == format_of_token(v@, main),
{
    match v.as_str() {
        None => None,
        Some(s) => {
            let c = chars_of(s);
            let t = c.as_slice();
            if contains_str(t, "<|im_start|>") {
                Some(TemplateKind::ChatML)
            } else if contains_str(t, "<|start_header_id|>") {
                Some(TemplateKind::Llama3)
            } else if contains_str(t, "<start_of_turn>") {
                Some(TemplateKind::Gemma)
            } else if main && (equals_str(t, "<|system|>") || equals_str(t, "<|user|>")
                || equals_str(t, "<|assistant|>")) {
                Some(TemplateKind::Phi3)
            } else {
                None
            }
        },
    }
}

fn detect_format_from_list(v: &[MetaValue], main: bool) -> (r: Option<TemplateKind>)
    ensures
        r == format_of_tokens(models_of(v@), main, 0),
{
    let mut i: usize = 0;
    while i < v.len()
        invariant
            i <= v@.len(),
            format_of_tokens(models_of(v@), main, 0) == format_of_tokens(
                models_of(v@),
                main,
                i as int,
            ),
        decreases v@.len() - i,
    {
        assert(models_of(v@)[i as int] == v@[i as int]@);
        let found = detect_format_from_token(&v[i], main);
        if found.is_some() {
            return found;
        }
        i += 1;
    }
    None
}

/// The items of the array under a key; none where there is no array.
pub open spec fn array_under(f: GgufFile, key: Seq<char>) -> Option<Seq<MetaModel>> {
    match f.entry(key) {
        Some(v) => v.items(),
        None => None,
    }
}

/// The text under a key.
pub open spec fn text_under(f: GgufFile, key: Seq<char>) -> Option<Seq<char>> {
    match f.entry(key) {
        Some(v) => v.text(),
        None => None,
    }
}

/// The format that the vocabulary gives away: added tokens first, then the others.
pub open spec fn format_of_vocabulary(f: GgufFile) -> Option<TemplateKind> {
    let added = match array_under(f, "tokenizer.ggml.added_tokens"@) {
        Some(v) => format_of_tokens(v, false, 0),
        None => None,
    };
    if added is Some {
        added
    } else {
        match array_under(f, "tokenizer.ggml.tokens"@) {
            Some(v) => format_of_tokens(v, true, 0),
            None => None,
        }
    }
}

/// The format that the vocabulary gives away.
pub fn detect_format_from_tokens(gguf: &GgufFile) -> (r: Option<TemplateKind>)
    ensures
        r == format_of_vocabulary(*gguf),
{
    if let Some(v) = gguf.meta_array("tokenizer.ggml.added_tokens") {
        let found = detect_format_from_list(v, false);
        if found.is_some() {
            return found;
        }
    }
    match gguf.meta_array("tokenizer.ggml.tokens") {
        Some(v) => detect_format_from_list(v, true),
        None => None,
    }
}

/// What `str::to_lowercase` makes of a string.
pub uninterp spec fn lowercase(s: Seq<char>) -> Seq<char>;

/// `str::to_lowercase`: the lowercase form of a string, by the Unicode tables.
#[verifier::external_body]
fn lowered(s: &str) -> (r: String)
    ensures
        r@ == lowercase(s@),
{
    s.to_lowercase()
}

/// The format of an architecture, by its lowercase name.
pub open spec fn format_of_lowercase_arch(a: Seq<char>) -> Option<TemplateKind> {
    if contains(a, "llama"@) || contains(a, "llama3"@) {
        Some(TemplateKind::Llama3)
    } else if contains(a, "mistral"@) || contains(a, "mixtral"@) {
        Some(TemplateKind::MistralInstruct)
    } else if a == "gemma"@ || a == "gemma2"@ {
        Some(TemplateKind::Gemma)
    } else if a == "phi3"@ || a == "phi-3"@ || a == "phi-3.5"@ {
        Some(TemplateKind::Phi3)
    } else if contains(a, "qwen3"@) {
        Some(TemplateKind::Qwen3)
    } else {
        None
    }
}

/// The format of an architecture, by its lowercase name.
pub fn format_from_lowercase_arch(arch: &str) -> (r: Option<TemplateKind>)
    ensures
        r == format_of_lowercase_arch(arch@),
{
    let c = chars_of(arch);
    let a = c.as_slice();
    if contains_str(a, "llama") || contains_str(a, "llama3") {
        Some(TemplateKind::Llama3)
    } else if contains_str(a, "mistral") || contains_str(a, "mixtral") {
        Some(TemplateKind::MistralInstruct)
    } else if equals_str(a, "gemma") || equals_str(a, "gemma2") {
        Some(TemplateKind::Gemma)
    } else if equals_str(a, "phi3") || equals_str(a, "phi-3") || equals_str(a, "phi-3.5") {
        Some(TemplateKind::Phi3)
    } else if contains_str(a, "qwen3") {
        Some(TemplateKind::Qwen3)
    } else {
        None
    }
}

/// The format of an architecture, whatever the case of its name.
pub fn detect_format_from_arch(arch: &str) -> (r: Option<TemplateKind>)
    ensures
        r == format_of_lowercase_arch(lowercase(arch@)),
{
    let low = lowered(arch);
    format_from_lowercase_arch(low.as_str())
}

/// The format of a file: by its template, else by its vocabulary, else by its architecture, else
/// ChatML.
pub open spec fn format_of_file(f: GgufFile) -> TemplateKind {
    let by_content = match text_under(f, "tokenizer.chat_template"@) {
        Some(t) => format_of_content(t),
        None => None,
    };
    let by_arch = match text_under(f, "general.architecture"@) {
        Some(a) => format_of_lowercase_arch(lowercase(a)),
        None => None,
    };
    if by_content is Some {
        by_content->0
    } else if format_of_vocabulary(f) is Some {
        format_of_vocabulary(f)->0
    } else if by_arch is Some {
        by_arch->0
    } else {
        TemplateKind::ChatML
    }
}

/// The format of a file and its own template.
pub fn detect_template(gguf: &GgufFile) -> (r: (TemplateKind, Option<String>))
    ensures
        r.0 == format_of_file(*gguf),
        match r.1 {
            Some(t) => text_under(*gguf, "tokenizer.chat_template"@) == Some(t@),
            None => text_under(*gguf, "tokenizer.chat_template"@) is None,
        },
{
    let chat_template: Option<String> = match gguf.meta_str("tokenizer.chat_template") {
        Some(t) => Some(t.to_owned()),
        None => None,
    };
    if let Some(t) = &chat_template {
        if let Some(kind) = detect_format_from_content(t.as_str()) {
            return (kind, chat_template);
        }
    }
    if let Some(kind) = detect_format_from_tokens(gguf) {
        return (kind, chat_template);
    }
    if let Some(arch) = gguf.meta_str("general.architecture") {
        if let Some(kind) = detect_format_from_arch(arch) {
            return (kind, chat_template);
        }
    }
    (TemplateKind::ChatML, chat_template)
}

} // verus!
