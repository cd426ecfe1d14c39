//! How a prompt format is recognised.
use vstd::prelude::*;

use crate::gguf::file::GgufFile;
use crate::gguf::meta::MetaModel;
use crate::llm::config_laws::{no_text_at, text_at};
use crate::text::{contains, lemma_find_from, occurs_at};
use crate::tokenizer::load_laws::list_at;
use crate::tokenizer::template::{
    format_of_content, format_of_file, format_of_lowercase_arch, format_of_token, format_of_tokens,
    lowercase, TemplateKind,
};

verus! {

/// A mark stands somewhere in a text.
pub open spec fn holds(t: Seq<char>, mark: Seq<char>) -> bool {
    exists|i: int| 0 <= i && #[trigger] occurs_at(t, i, mark)
}

proof fn lemma_holds(t: Seq<char>, mark: Seq<char>)
    ensures
        contains(t, mark) == holds(t, mark),
{
    lemma_find_from(t, mark, 0);
}

/// The mark that every text in a format has.
pub open spec fn mark_of(kind: TemplateKind) -> Seq<char> {
    match kind {
        TemplateKind::ChatML | TemplateKind::Qwen3 | TemplateKind::Custom => "<|im_start|>"@,
        TemplateKind::MistralInstruct => "[INST]"@,
        TemplateKind::Llama3 => "<|start_header_id|>"@,
        TemplateKind::Gemma => "<start_of_turn>"@,
        TemplateKind::Phi3 => "<|user|>"@,
    }
}

/// A template is recognised by the mark of its format, the marks of some formats counting before those of
/// others; a template with reasoning of its own is told apart first, and one without marks is not
/// recognised.
pub proof fn law_templates_are_recognised(t: Seq<char>)
    ensures
        ({
            let reasons = holds(t, "namespace"@) && holds(t, "reasoning_content"@);
            let has = |k: TemplateKind| holds(t, mark_of(k));
            let phi = has(TemplateKind::Phi3) || holds(t, "<|system|>"@) || holds(
                t,
                "<|assistant|>"@,
            );
            let (chat, mistral, llama, gemma) = (
                has(TemplateKind::ChatML),
                has(TemplateKind::MistralInstruct),
                has(TemplateKind::Llama3),
                has(TemplateKind::Gemma),
            );
            let found = format_of_content(t);
            &&& reasons ==> found == Some(TemplateKind::Qwen3)
            &&& !reasons && chat ==> found == Some(TemplateKind::ChatML)
            &&& !reasons && !chat && mistral ==> found == Some(TemplateKind::MistralInstruct)
            &&& !reasons && !chat && !mistral && llama ==> found == Some(TemplateKind::Llama3)
            &&& !reasons && !chat && !mistral && !llama && gemma ==> found == Some(
                TemplateKind::Gemma,
            )
            &&& !reasons && !chat && !mistral && !llama && !gemma && phi ==> found == Some(
                TemplateKind::Phi3,
            )
            &&& !reasons && !chat && !mistral && !llama && !gemma && !phi ==> found is None
        }),
{
    lemma_holds(t, "namespace"@);
    lemma_holds(t, "reasoning_content"@);
    lemma_holds(t, "<|im_start|>"@);
    lemma_holds(t, "[INST]"@);
    lemma_holds(t, "<|start_header_id|>"@);
    lemma_holds(t, "<start_of_turn>"@);
    lemma_holds(t, "<|system|>"@);
    lemma_holds(t, "<|user|>"@);
    lemma_holds(t, "<|assistant|>"@);
}

/// A token tells of a format by holding its mark; of Phi-3 only by being one of its marks, and only in the
/// vocabulary itself.
pub proof fn law_tokens_tell_of_formats(v: MetaModel, main: bool)
    ensures
        match v {
            MetaModel::Text(s) => {
                let found = format_of_token(v, main);
                let (chat, llama, gemma) = (
                    holds(s, mark_of(TemplateKind::ChatML)),
                    holds(s, mark_of(TemplateKind::Llama3)),
                    holds(s, mark_of(TemplateKind::Gemma)),
                );
                let phi = main && (s == "<|system|>"@ || s == "<|user|>"@ || s == "<|assistant|>"@);
                &&& chat ==> found == Some(TemplateKind::ChatML)
                &&& !chat && llama ==> found == Some(TemplateKind::Llama3)
                &&& !chat && !llama && gemma ==> found == Some(TemplateKind::Gemma)
                &&& !chat && !llama && !gemma && phi ==> found == Some(TemplateKind::Phi3)
                &&& !chat && !llama && !gemma && !phi ==> found is None
            },
            _ => format_of_token(v, main) is None,
        },
{
    if let MetaModel::Text(s) = v {
        lemma_holds(s, "<|im_start|>"@);
        lemma_holds(s, "<|start_header_id|>"@);
        lemma_holds(s, "<start_of_turn>"@);
    }
}

proof fn lemma_first(v: Seq<MetaModel>, main: bool, i: int, k: int)
    requires
        0 <= i <= k <= v.len(),
        forall|j: int| i <= j < k ==> format_of_token(#[trigger] v[j], main) is None,
    ensures
        format_of_tokens(v, main, i) == if k < v.len() && format_of_token(v[k], main) is Some {
            format_of_token(v[k], main)
        } else {
            format_of_tokens(v, main, k)
        },
    decreases k - i,
{
    if i < k {
        lemma_first(v, main, i + 1, k);
    }
}

/// Of a list the first token that tells of a format decides.
pub proof fn law_first_telling_token_decides(v: Seq<MetaModel>, main: bool, k: int)
    requires
        0 <= k <= v.len(),
        forall|j: int| 0 <= j < k ==> format_of_token(#[trigger] v[j], main) is None,
    ensures
        k < v.len() && format_of_token(v[k], main) is Some ==> format_of_tokens(v, main, 0)
            == format_of_token(v[k], main),
        k == v.len() ==> format_of_tokens(v, main, 0) is None,
{
    lemma_first(v, main, 0, k);
}

/// An architecture is recognised by its family's name in its own: Llama, Mistral or Mixtral and Qwen3
/// anywhere in it, Gemma and Phi-3 only as a whole.
pub proof fn law_architectures_are_recognised(a: Seq<char>)
    ensures
        ({
            let found = format_of_lowercase_arch(a);
            let (llama, mistral) = (
                holds(a, "llama"@),
                holds(a, "mistral"@) || holds(a, "mixtral"@),
            );
            &&& llama ==> found == Some(TemplateKind::Llama3)
            &&& !llama && mistral ==> found == Some(TemplateKind::MistralInstruct)
            &&& !llama && !mistral && (a == "gemma"@ || a == "gemma2"@) ==> found == Some(
                TemplateKind::Gemma,
            )
            &&& !llama && !mistral && !(a == "gemma"@ || a == "gemma2"@) && (a == "phi3"@ || a
                == "phi-3"@ || a == "phi-3.5"@) ==> found == Some(TemplateKind::Phi3)
            &&& found == Some(TemplateKind::Qwen3) ==> holds(a, "qwen3"@)
            &&& found is None ==> !llama && !mistral && !holds(a, "qwen3"@)
        }),
{
    lemma_holds(a, "llama"@);
    lemma_holds(a, "llama3"@);
    lemma_holds(a, "mistral"@);
    lemma_holds(a, "mixtral"@);
    lemma_holds(a, "qwen3"@);
    reveal_strlit("llama");
    reveal_strlit("llama3");
    if holds(a, "llama3"@) {
        let i = choose|i: int| 0 <= i && #[trigger] occurs_at(a, i, "llama3"@);
        assert(a.subrange(i, i + 5) =~= a.subrange(i, i + 6).subrange(0, 5));
        assert("llama3"@.subrange(0, 5) =~= "llama"@);
        assert(occurs_at(a, i, "llama"@));
    }
}

/// The format of a file is that of its template where that is recognised, else the one that added tokens
/// tell of, else the one that the vocabulary tells of, else that of its architecture, else ChatML.
pub proof fn law_file_format(
    f: GgufFile,
    t: Seq<char>,
    added: Seq<MetaModel>,
    tokens: Seq<MetaModel>,
    a: Seq<char>,
)
    requires
        text_at(f, "tokenizer.chat_template"@, t) || no_text_at(f, "tokenizer.chat_template"@)
            && format_of_content(t) is None,
        list_at(f, "tokenizer.ggml.added_tokens"@, added),
        list_at(f, "tokenizer.ggml.tokens"@, tokens),
        text_at(f, "general.architecture"@, a),
    ensures
        ({
            let (x, y, z, w) = (
                format_of_content(t),
                format_of_tokens(added, false, 0),
                format_of_tokens(tokens, true, 0),
                format_of_lowercase_arch(lowercase(a)),
            );
            &&& x matches Some(k) ==> format_of_file(f) == k
            &&& x is None ==> (y matches Some(k) ==> format_of_file(f) == k)
            &&& x is None && y is None ==> (z matches Some(k) ==> format_of_file(f) == k)
            &&& x is None && y is None && z is None ==> (w matches Some(k) ==> format_of_file(f)
                == k)
            &&& x is None && y is None && z is None && w is None ==> format_of_file(f)
                is ChatML
        }),
{
}

} // verus!
