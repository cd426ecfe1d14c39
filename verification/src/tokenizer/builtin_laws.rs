//! The built-in templates.
use vstd::prelude::*;

use crate::tokenizer::chat_laws::{
    branch_text, branches_text, chat_template, good_branches,
    law_chat_templates_render_the_conversation, literal, messages_out, Branch,
};
use crate::tokenizer::encoder::{id_text, TokenizerModel};
use crate::tokenizer::gpt2::spelled_text;
use crate::tokenizer::jinja::{render, ContextText};
use crate::tokenizer::prompt::{conversation, prompt};
use crate::tokenizer::template::{simple_enough, template_text, TemplateKind};

verus! {

/// The branches of a format: who speaks, and what stands before and behind their words.
pub open spec fn branches_of(kind: TemplateKind) -> Seq<Branch> {
    match kind {
        TemplateKind::ChatML | TemplateKind::Custom => seq![
            Branch { role: "system"@, before: "<|im_start|>system\n"@, behind: "<|im_end|>\n"@ },
            Branch { role: "user"@, before: "<|im_start|>user\n"@, behind: "<|im_end|>\n"@ },
            Branch { role: "assistant"@, before: "<|im_start|>assistant\n"@, behind: "<|im_end|>\n"@ },
        ],
        TemplateKind::MistralInstruct => seq![
            Branch { role: "user"@, before: "[INST] "@, behind: " [/INST]"@ },
            Branch { role: "assistant"@, before: ""@, behind: " </s>"@ },
        ],
        TemplateKind::Llama3 => seq![
            Branch { role: "system"@, before: "<|start_header_id|>system<|end_header_id|>\n\n"@, behind: "<|eot_id|>\n"@ },
            Branch { role: "user"@, before: "<|start_header_id|>user<|end_header_id|>\n\n"@, behind: "<|eot_id|>\n"@ },
            Branch { role: "assistant"@, before: "<|start_header_id|>assistant<|end_header_id|>\n\n"@, behind: "<|eot_id|>\n"@ },
        ],
        TemplateKind::Gemma => seq![
            Branch { role: "user"@, before: "<start_of_turn>user\n"@, behind: "<end_of_turn>\n"@ },
            Branch { role: "assistant"@, before: "<start_of_turn>model\n"@, behind: "<end_of_turn>\n"@ },
        ],
        TemplateKind::Qwen3 => seq![
            Branch { role: "system"@, before: "<|im_start|>system\n"@, behind: "<|im_end|>\n"@ },
            Branch { role: "user"@, before: "<|im_start|>user\n"@, behind: "<|im_end|>\n"@ },
            Branch { role: "assistant"@, before: "<|im_start|>assistant\n"@, behind: "<|im_end|>\n"@ },
        ],
        TemplateKind::Phi3 => seq![
            Branch { role: "system"@, before: "<|system|>\n"@, behind: "<|end|>\n"@ },
            Branch { role: "user"@, before: "<|user|>\n"@, behind: "<|end|>\n"@ },
            Branch { role: "assistant"@, before: "<|assistant|>\n"@, behind: "<|end|>\n"@ },
        ],
    }
}

/// Whether a format begins with the mark that begins a text.
pub open spec fn begins_with_mark(kind: TemplateKind) -> bool {
    kind is Llama3 || kind is Gemma
}

/// How a format asks for an answer.
pub open spec fn asks_of(kind: TemplateKind) -> Option<Seq<char>> {
    match kind {
        TemplateKind::ChatML | TemplateKind::Custom => Some("<|im_start|>assistant\n\n\n\n"@),
        TemplateKind::MistralInstruct => None,
        TemplateKind::Llama3 => Some("<|start_header_id|>assistant<|end_header_id|>\n\n"@),
        TemplateKind::Gemma => Some("<start_of_turn>user\n"@),
        TemplateKind::Qwen3 => Some("<|im_start|>assistant\n<think>\n\n</think>\n\n"@),
        TemplateKind::Phi3 => Some("<|assistant|>\n"@),
    }
}

proof fn lemma_three(a: Branch, b: Branch, c: Branch)
    ensures
        branches_text(seq![a, b, c]) == branch_text(a) + (branch_text(b) + branch_text(c)),
{
    let bs = seq![a, b, c];
    assert(bs.drop_first() =~= seq![b, c]);
    lemma_two(b, c);
}

proof fn lemma_two(a: Branch, b: Branch)
    ensures
        branches_text(seq![a, b]) == branch_text(a) + branch_text(b),
{
    let bs = seq![a, b];
    assert(bs.drop_first() =~= seq![b]);
    assert(seq![b].drop_first() =~= Seq::empty());
    assert(branches_text(Seq::<Branch>::empty()) =~= Seq::empty());
    assert(branches_text(seq![b]) =~= branch_text(b));
}

#[verifier::spinoff_prover]
#[verifier::rlimit(100)]
proof fn lemma_chatml()
    ensures
        template_text(TemplateKind::ChatML) == chat_template(
            begins_with_mark(TemplateKind::ChatML),
            branches_of(TemplateKind::ChatML),
            asks_of(TemplateKind::ChatML),
        ),
        good_branches(branches_of(TemplateKind::ChatML)),
        asks_of(TemplateKind::ChatML) matches Some(s) ==> literal(s),
{
    reveal_strlit("{% for message in messages %}{% if message['role'] == 'system' %}<|im_start|>system\n{{ message['content'] }}<|im_end|>\n{% endif %}{% if message['role'] == 'user' %}<|im_start|>user\n{{ message['content'] }}<|im_end|>\n{% endif %}{% if message['role'] == 'assistant' %}<|im_start|>assistant\n{{ message['content'] }}<|im_end|>\n{% endif %}{% endfor %}{% if add_generation_prompt %}<|im_start|>assistant\n\n\n\n{% endif %}");
    reveal_strlit("{% if add_generation_prompt %}");
    reveal_strlit("<|im_start|>assistant\n\n\n\n");
    reveal_strlit("{% for message in messages %}");
    reveal_strlit("{% if message['role'] == '");
    reveal_strlit("{{ message['content'] }}");
    reveal_strlit("<|im_start|>assistant\n");
    reveal_strlit("<|im_start|>system\n");
    reveal_strlit("<|im_start|>user\n");
    reveal_strlit("<|im_end|>\n");
    reveal_strlit("{% endfor %}");
    reveal_strlit("{% endif %}");
    reveal_strlit("assistant");
    reveal_strlit("system");
    reveal_strlit("' %}");
    reveal_strlit("user");
    let bs = branches_of(TemplateKind::ChatML);
    lemma_three(bs[0], bs[1], bs[2]);
    assert(bs =~= seq![bs[0], bs[1], bs[2]]);
    assert(template_text(TemplateKind::ChatML) =~= chat_template(
        begins_with_mark(TemplateKind::ChatML),
        bs,
        asks_of(TemplateKind::ChatML),
    ));
}

#[verifier::spinoff_prover]
#[verifier::rlimit(100)]
proof fn lemma_mistral()
    ensures
        template_text(TemplateKind::MistralInstruct) == chat_template(
            begins_with_mark(TemplateKind::MistralInstruct),
            branches_of(TemplateKind::MistralInstruct),
            asks_of(TemplateKind::MistralInstruct),
        ),
        good_branches(branches_of(TemplateKind::MistralInstruct)),
        asks_of(TemplateKind::MistralInstruct) matches Some(s) ==> literal(s),
{
    reveal_strlit("{% for message in messages %}{% if message['role'] == 'user' %}[INST] {{ message['content'] }} [/INST]{% endif %}{% if message['role'] == 'assistant' %}{{ message['content'] }} </s>{% endif %}{% endfor %}");
    reveal_strlit("{% for message in messages %}");
    reveal_strlit("{% if message['role'] == '");
    reveal_strlit("{{ message['content'] }}");
    reveal_strlit("{% endfor %}");
    reveal_strlit("{% endif %}");
    reveal_strlit("assistant");
    reveal_strlit(" [/INST]");
    reveal_strlit("[INST] ");
    reveal_strlit(" </s>");
    reveal_strlit("' %}");
    reveal_strlit("user");
    reveal_strlit("");
    let bs = branches_of(TemplateKind::MistralInstruct);
    lemma_two(bs[0], bs[1]);
    assert(bs =~= seq![bs[0], bs[1]]);
    assert(template_text(TemplateKind::MistralInstruct) =~= chat_template(
        begins_with_mark(TemplateKind::MistralInstruct),
        bs,
        asks_of(TemplateKind::MistralInstruct),
    ));
}

#[verifier::spinoff_prover]
#[verifier::rlimit(100)]
proof fn lemma_llama3()
    ensures
        template_text(TemplateKind::Llama3) == chat_template(
            begins_with_mark(TemplateKind::Llama3),
            branches_of(TemplateKind::Llama3),
            asks_of(TemplateKind::Llama3),
        ),
        good_branches(branches_of(TemplateKind::Llama3)),
        asks_of(TemplateKind::Llama3) matches Some(s) ==> literal(s),
{
    reveal_strlit("{{ bos_token }}{% for message in messages %}{% if message['role'] == 'system' %}<|start_header_id|>system<|end_header_id|>\n\n{{ message['content'] }}<|eot_id|>\n{% endif %}{% if message['role'] == 'user' %}<|start_header_id|>user<|end_header_id|>\n\n{{ message['content'] }}<|eot_id|>\n{% endif %}{% if message['role'] == 'assistant' %}<|start_header_id|>assistant<|end_header_id|>\n\n{{ message['content'] }}<|eot_id|>\n{% endif %}{% endfor %}{% if add_generation_prompt %}<|start_header_id|>assistant<|end_header_id|>\n\n{% endif %}");
    reveal_strlit("<|start_header_id|>assistant<|end_header_id|>\n\n");
    reveal_strlit("<|start_header_id|>system<|end_header_id|>\n\n");
    reveal_strlit("<|start_header_id|>user<|end_header_id|>\n\n");
    reveal_strlit("{% if add_generation_prompt %}");
    reveal_strlit("{% for message in messages %}");
    reveal_strlit("{% if message['role'] == '");
    reveal_strlit("{{ message['content'] }}");
    reveal_strlit("{{ bos_token }}");
    reveal_strlit("<|eot_id|>\n");
    reveal_strlit("{% endfor %}");
    reveal_strlit("{% endif %}");
    reveal_strlit("assistant");
    reveal_strlit("system");
    reveal_strlit("' %}");
    reveal_strlit("user");
    let bs = branches_of(TemplateKind::Llama3);
    lemma_three(bs[0], bs[1], bs[2]);
    assert(bs =~= seq![bs[0], bs[1], bs[2]]);
    assert(template_text(TemplateKind::Llama3) =~= chat_template(
        begins_with_mark(TemplateKind::Llama3),
        bs,
        asks_of(TemplateKind::Llama3),
    ));
}

#[verifier::spinoff_prover]
#[verifier::rlimit(100)]
proof fn lemma_gemma()
    ensures
        template_text(TemplateKind::Gemma) == chat_template(
            begins_with_mark(TemplateKind::Gemma),
            branches_of(TemplateKind::Gemma),
            asks_of(TemplateKind::Gemma),
        ),
        good_branches(branches_of(TemplateKind::Gemma)),
        asks_of(TemplateKind::Gemma) matches Some(s) ==> literal(s),
{
    reveal_strlit("{{ bos_token }}{% for message in messages %}{% if message['role'] == 'user' %}<start_of_turn>user\n{{ message['content'] }}<end_of_turn>\n{% endif %}{% if message['role'] == 'assistant' %}<start_of_turn>model\n{{ message['content'] }}<end_of_turn>\n{% endif %}{% endfor %}{% if add_generation_prompt %}<start_of_turn>user\n{% endif %}");
    reveal_strlit("{% if add_generation_prompt %}");
    reveal_strlit("{% for message in messages %}");
    reveal_strlit("{% if message['role'] == '");
    reveal_strlit("{{ message['content'] }}");
    reveal_strlit("<start_of_turn>model\n");
    reveal_strlit("<start_of_turn>user\n");
    reveal_strlit("<end_of_turn>\n");
    reveal_strlit("{{ bos_token }}");
    reveal_strlit("{% endfor %}");
    reveal_strlit("{% endif %}");
    reveal_strlit("assistant");
    reveal_strlit("' %}");
    reveal_strlit("user");
    let bs = branches_of(TemplateKind::Gemma);
    lemma_two(bs[0], bs[1]);
    assert(bs =~= seq![bs[0], bs[1]]);
    assert(template_text(TemplateKind::Gemma) =~= chat_template(
        begins_with_mark(TemplateKind::Gemma),
        bs,
        asks_of(TemplateKind::Gemma),
    ));
}

#[verifier::spinoff_prover]
#[verifier::rlimit(100)]
proof fn lemma_qwen3()
    ensures
        template_text(TemplateKind::Qwen3) == chat_template(
            begins_with_mark(TemplateKind::Qwen3),
            branches_of(TemplateKind::Qwen3),
            asks_of(TemplateKind::Qwen3),
        ),
        good_branches(branches_of(TemplateKind::Qwen3)),
        asks_of(TemplateKind::Qwen3) matches Some(s) ==> literal(s),
{
    reveal_strlit("{% for message in messages %}{% if message['role'] == 'system' %}<|im_start|>system\n{{ message['content'] }}<|im_end|>\n{% endif %}{% if message['role'] == 'user' %}<|im_start|>user\n{{ message['content'] }}<|im_end|>\n{% endif %}{% if message['role'] == 'assistant' %}<|im_start|>assistant\n{{ message['content'] }}<|im_end|>\n{% endif %}{% endfor %}{% if add_generation_prompt %}<|im_start|>assistant\n<think>\n\n</think>\n\n{% endif %}");
    reveal_strlit("<|im_start|>assistant\n<think>\n\n</think>\n\n");
    reveal_strlit("{% if add_generation_prompt %}");
    reveal_strlit("{% for message in messages %}");
    reveal_strlit("{% if message['role'] == '");
    reveal_strlit("{{ message['content'] }}");
    reveal_strlit("<|im_start|>assistant\n");
    reveal_strlit("<|im_start|>system\n");
    reveal_strlit("<|im_start|>user\n");
    reveal_strlit("<|im_end|>\n");
    reveal_strlit("{% endfor %}");
    reveal_strlit("{% endif %}");
    reveal_strlit("assistant");
    reveal_strlit("system");
    reveal_strlit("' %}");
    reveal_strlit("user");
    let bs = branches_of(TemplateKind::Qwen3);
    lemma_three(bs[0], bs[1], bs[2]);
    assert(bs =~= seq![bs[0], bs[1], bs[2]]);
    assert(template_text(TemplateKind::Qwen3) =~= chat_template(
        begins_with_mark(TemplateKind::Qwen3),
        bs,
        asks_of(TemplateKind::Qwen3),
    ));
}

#[verifier::spinoff_prover]
#[verifier::rlimit(100)]
proof fn lemma_phi3()
    ensures
        template_text(TemplateKind::Phi3) == chat_template(
            begins_with_mark(TemplateKind::Phi3),
            branches_of(TemplateKind::Phi3),
            asks_of(TemplateKind::Phi3),
        ),
        good_branches(branches_of(TemplateKind::Phi3)),
        asks_of(TemplateKind::Phi3) matches Some(s) ==> literal(s),
{
    reveal_strlit("{% for message in messages %}{% if message['role'] == 'system' %}<|system|>\n{{ message['content'] }}<|end|>\n{% endif %}{% if message['role'] == 'user' %}<|user|>\n{{ message['content'] }}<|end|>\n{% endif %}{% if message['role'] == 'assistant' %}<|assistant|>\n{{ message['content'] }}<|end|>\n{% endif %}{% endfor %}{% if add_generation_prompt %}<|assistant|>\n{% endif %}");
    reveal_strlit("{% if add_generation_prompt %}");
    reveal_strlit("{% for message in messages %}");
    reveal_strlit("{% if message['role'] == '");
    reveal_strlit("{{ message['content'] }}");
    reveal_strlit("<|assistant|>\n");
    reveal_strlit("<|system|>\n");
    reveal_strlit("{% endfor %}");
    reveal_strlit("{% endif %}");
    reveal_strlit("<|user|>\n");
    reveal_strlit("<|end|>\n");
    reveal_strlit("assistant");
    reveal_strlit("system");
    reveal_strlit("' %}");
    reveal_strlit("user");
    let bs = branches_of(TemplateKind::Phi3);
    lemma_three(bs[0], bs[1], bs[2]);
    assert(bs =~= seq![bs[0], bs[1], bs[2]]);
    assert(template_text(TemplateKind::Phi3) =~= chat_template(
        begins_with_mark(TemplateKind::Phi3),
        bs,
        asks_of(TemplateKind::Phi3),
    ));
}

/// Every built-in template is a chat template with the branches of its format.
pub proof fn law_builtin_templates_render_the_conversation(kind: TemplateKind, c: ContextText)
    ensures
        render(template_text(kind), c) == (if begins_with_mark(kind) {
            c.bos
        } else {
            Seq::empty()
        }) + messages_out(branches_of(kind), c.messages) + (if asks_of(kind) is Some
            && c.add_generation_prompt {
            asks_of(kind)->0
        } else {
            Seq::empty()
        }),
{
    lemma_chatml();
    lemma_mistral();
    lemma_llama3();
    lemma_gemma();
    lemma_qwen3();
    lemma_phi3();
    law_chat_templates_render_the_conversation(
        begins_with_mark(kind),
        branches_of(kind),
        asks_of(kind),
        c,
    );
}

/// The prompt of a model without a usable template of its own: perhaps the mark that begins a text, every
/// message of the conversation in the format of the model, and the text that asks for an answer.
pub proof fn law_prompts_render_the_conversation(
    m: TokenizerModel,
    system: Seq<char>,
    history: Seq<(Seq<char>, Seq<char>)>,
    user: Seq<char>,
)
    requires
        m.chat_template matches Some(t) ==> !simple_enough(t),
    ensures
        prompt(m, system, history, user) == (if begins_with_mark(m.template_kind) {
            spelled_text(id_text(m, m.bos_id))
        } else {
            Seq::empty()
        }) + messages_out(branches_of(m.template_kind), conversation(system, history, user)) + (if asks_of(
            m.template_kind,
        ) is Some {
            asks_of(m.template_kind)->0
        } else {
            Seq::empty()
        }),
{
    let c = ContextText {
        messages: conversation(system, history, user),
        bos: spelled_text(id_text(m, m.bos_id)),
        eos: spelled_text(id_text(m, m.eos_id)),
        add_generation_prompt: true,
    };
    law_builtin_templates_render_the_conversation(m.template_kind, c);
}

/// A model's own chat template, where it is simple enough, renders the conversation with its own branches.
pub proof fn law_own_templates_render_the_conversation(
    m: TokenizerModel,
    system: Seq<char>,
    history: Seq<(Seq<char>, Seq<char>)>,
    user: Seq<char>,
    bos: bool,
    bs: Seq<Branch>,
    asks: Option<Seq<char>>,
)
    requires
        m.chat_template == Some(chat_template(bos, bs, asks)),
        simple_enough(chat_template(bos, bs, asks)),
        good_branches(bs),
        asks matches Some(s) ==> literal(s),
    ensures
        prompt(m, system, history, user) == (if bos {
            spelled_text(id_text(m, m.bos_id))
        } else {
            Seq::empty()
        }) + messages_out(bs, conversation(system, history, user)) + (if asks is Some {
            asks->0
        } else {
            Seq::empty()
        }),
{
    let c = ContextText {
        messages: conversation(system, history, user),
        bos: spelled_text(id_text(m, m.bos_id)),
        eos: spelled_text(id_text(m, m.eos_id)),
        add_generation_prompt: true,
    };
    law_chat_templates_render_the_conversation(bos, bs, asks, c);
}

} // verus!
