//! Chat prompts and control tokens.
use vstd::prelude::*;

use crate::text::{
    chars_of, ends_with_str, has_prefix, has_suffix, same_str, starts_with_str,
};
use crate::tokenizer::encoder::{id_text, token_texts, Tokenizer, TokenizerModel};
use crate::tokenizer::gpt2::spelled_text;
use crate::tokenizer::jinja::{
    eval_jinja2, render, ChatMessage, ContextText, MessageText, TemplateContext,
};
use crate::tokenizer::template::{
    is_template_simple_enough, simple_enough, synthetic_template, template_text,
};

verus! {

/// The id of the special token with the given text.
pub open spec fn special_id(special: Seq<(Seq<char>, u32)>, text: Seq<char>) -> Option<u32>
    decreases special.len(),
{
    if special.len() == 0 {
        None
    } else if special.first().0 == text {
        Some(special.first().1)
    } else {
        special_id(special.drop_first(), text)
    }
}

/// Which template a prompt is built with.
#[derive(Clone, Copy, Debug, PartialEq, Eq, Structural)]
pub enum TemplateSource {
    /// The model's own.
    Own,
    /// The one of the format, since the model's own is too complex.
    TooComplex,
    /// The one of the format, since the model has none.
    Missing,
}

/// Tokens that steer the conversation and are not shown.
pub open spec fn is_control(m: TokenizerModel, id: u32) -> bool {
    let raw = id_text(m, id);
    ||| has_prefix(raw, "<|"@) && has_suffix(raw, "|>"@)
    ||| has_prefix(raw, "<|im_start|>"@)
    ||| has_prefix(raw, "<|im_end|>"@)
    ||| special_id(m.special_tokens, raw) == Some(id)
}

/// The messages of earlier turns.
pub open spec fn turn_messages(history: Seq<(Seq<char>, Seq<char>)>) -> Seq<MessageText>
    decreases history.len(),
{
    if history.len() == 0 {
        Seq::empty()
    } else {
        turn_messages(history.drop_last()).push(
            MessageText { role: "user"@, content: history.last().0 },
        ).push(MessageText { role: "assistant"@, content: history.last().1 })
    }
}

/// The messages of a conversation: the system's, the earlier turns, the user's latest.
pub open spec fn conversation(
    system: Seq<char>,
    history: Seq<(Seq<char>, Seq<char>)>,
    user: Seq<char>,
) -> Seq<MessageText> {
    (seq![MessageText { role: "system"@, content: system }] + turn_messages(history)).push(
        MessageText { role: "user"@, content: user },
    )
}

/// The template in use: the model's own where it is simple enough, else the one of its format.
pub open spec fn chosen_template(m: TokenizerModel) -> Seq<char> {
    match m.chat_template {
        Some(t) => if simple_enough(t) {
            t
        } else {
            template_text(m.template_kind)
        },
        None => template_text(m.template_kind),
    }
}

/// The prompt of a conversation.
pub open spec fn prompt(
    m: TokenizerModel,
    system: Seq<char>,
    history: Seq<(Seq<char>, Seq<char>)>,
    user: Seq<char>,
) -> Seq<char> {
    render(
        chosen_template(m),
        ContextText {
            messages: conversation(system, history, user),
            bos: spelled_text(id_text(m, m.bos_id)),
            eos: spelled_text(id_text(m, m.eos_id)),
            add_generation_prompt: true,
        },
    )
}

/// The texts of earlier turns.
pub open spec fn history_texts(h: Seq<(&str, &str)>) -> Seq<(Seq<char>, Seq<char>)> {
    h.map_values(|p: (&str, &str)| (p.0@, p.1@))
}

/// The texts of a run of messages.
spec fn message_texts(v: Seq<ChatMessage>) -> Seq<MessageText> {
    v.map_values(|c: ChatMessage| c@)
}

impl Tokenizer {
    /// Which template prompts are made with.
    pub fn template_source(&self) -> (r: TemplateSource)
        ensures
            r == match self.chat_template {
                None => TemplateSource::Missing,
                Some(t) => if simple_enough(t@) {
                    TemplateSource::Own
                } else {
                    TemplateSource::TooComplex
                },
            },
    {
        match &self.chat_template {
            None => TemplateSource::Missing,
            Some(t) => if is_template_simple_enough(t.as_str()) {
                TemplateSource::Own
            } else {
                TemplateSource::TooComplex
            },
        }
    }

    fn special_with_text(&self, text: &str) -> (r: Option<u32>)
        ensures
            r == special_id(self@.special_tokens, text@),
    {
        let ghost sp = self@.special_tokens;
        let mut i: usize = 0;
        assert(sp.skip(0) =~= sp);
        while i < self.special_tokens.len()
            invariant
                i <= self.special_tokens@.len(),
                sp == token_texts(self.special_tokens@),
                special_id(sp, text@) == special_id(sp.skip(i as int), text@),
            decreases self.special_tokens@.len() - i,
        {
            proof {
                assert(sp.skip(i as int).first() == (
                    self.special_tokens@[i as int].0@,
                    self.special_tokens@[i as int].1,
                ));
                assert(sp.skip(i as int).drop_first() =~= sp.skip(i + 1));
            }
            if same_str(self.special_tokens[i].0.as_str(), text) {
                return Some(self.special_tokens[i].1);
            }
            i += 1;
        }
        None
    }

    /// Whether an id is a control token.
    pub fn is_control_token(&self, id: u32) -> (r: bool)
        ensures
            r == is_control(self@, id),
    {
        let raw = self.text_of_id(id);
        let c = chars_of(raw);
        let s = c.as_slice();
        if starts_with_str(s, "<|") && ends_with_str(s, "|>") {
            return true;
        }
        if starts_with_str(s, "<|im_start|>") || starts_with_str(s, "<|im_end|>") {
            return true;
        }
        match self.special_with_text(raw) {
            Some(k) => k == id,
            None => false,
        }
    }

    /// The prompt of a conversation: system prompt, earlier turns as pairs of the user's and the
    /// assistant's words, and the user's latest message.
    pub fn apply_template(
        &self,
        system: &str,
        history: &[(&str, &str)],
        user: &str,
        thinking: bool,
    ) -> (r: String)
        ensures
            r@ == prompt(self@, system@, history_texts(history@), user@),
    {
        let ghost turns = history_texts(history@);
        let ghost head = seq![MessageText { role: "system"@, content: system@ }];
        let mut messages: Vec<ChatMessage> = Vec::new();
        messages.push(ChatMessage { role: "system".to_owned(), content: system.to_owned() });
        let mut i: usize = 0;
        proof {
            assert(turns.take(0).len() == 0);
            assert(message_texts(messages@) =~= head + turn_messages(turns.take(0)));
        }
        while i < history.len()
            invariant
                i <= history@.len(),
                turns == history_texts(history@),
                message_texts(messages@) == head + turn_messages(turns.take(i as int)),
            decreases history@.len() - i,
        {
            let ghost done = message_texts(messages@);
            let (said, answered) = history[i];
            messages.push(ChatMessage { role: "user".to_owned(), content: said.to_owned() });
            messages.push(
                ChatMessage { role: "assistant".to_owned(), content: answered.to_owned() },
            );
            proof {
                assert(turns.take(i + 1).drop_last() =~= turns.take(i as int));
                assert(turns.take(i + 1).last() == (said@, answered@));
                let asked = MessageText { role: "user"@, content: said@ };
                let reply = MessageText { role: "assistant"@, content: answered@ };
                assert(message_texts(messages@) =~= done.push(asked).push(reply));
                assert(message_texts(messages@) =~= head + turn_messages(turns.take(i + 1)));
            }
            i += 1;
        }
        assert(turns.take(i as int) =~= turns);
        messages.push(ChatMessage { role: "user".to_owned(), content: user.to_owned() });
        let template: &str = match &self.chat_template {
            Some(t) => if is_template_simple_enough(t.as_str()) {
                t.as_str()
            } else {
                synthetic_template(self.template_kind)
            },
            None => synthetic_template(self.template_kind),
        };
        let ctx = TemplateContext {
            messages,
            bos_token: self.decode_token(self.bos_id),
            eos_token: self.decode_token(self.eos_id),
            add_generation_prompt: true,
            thinking,
        };
        proof {
            assert(ctx@.messages =~= conversation(system@, turns, user@));
        }
        eval_jinja2(template, &ctx)
    }
}

/// A conversation opens with the system's words and closes with the user's, and has two messages
/// for each earlier turn between.
pub proof fn law_conversation_length(
    system: Seq<char>,
    history: Seq<(Seq<char>, Seq<char>)>,
    user: Seq<char>,
)
    ensures
        conversation(system, history, user).len() == 2 * history.len() + 2,
        conversation(system, history, user).first().content == system,
        conversation(system, history, user).last().content == user,
{
    lemma_turns_len(history);
}

/// Everyone speaks their own part: the system first, then of each earlier turn the user's words and
/// the assistant's answer, in order, and last the user.
pub proof fn law_everyone_speaks_their_part(
    system: Seq<char>,
    history: Seq<(Seq<char>, Seq<char>)>,
    user: Seq<char>,
    i: int,
)
    requires
        0 <= i < history.len(),
    ensures
        ({
            let c = conversation(system, history, user);
            &&& c.len() == 2 * history.len() + 2
            &&& c[0] == (MessageText { role: "system"@, content: system })
            &&& c[1 + 2 * i] == (MessageText { role: "user"@, content: history[i].0 })
            &&& c[2 + 2 * i] == (MessageText { role: "assistant"@, content: history[i].1 })
            &&& c[(2 * history.len() + 1) as int] == (MessageText { role: "user"@, content: user })
        }),
{
    lemma_turns_len(history);
    lemma_turn(history, i);
}

/// A conversation without earlier turns has the system's words, then the user's.
pub proof fn law_first_turn(system: Seq<char>, user: Seq<char>)
    ensures
        conversation(system, Seq::empty(), user) == seq![
            MessageText { role: "system"@, content: system },
            MessageText { role: "user"@, content: user },
        ],
{
    assert(turn_messages(Seq::empty()) =~= Seq::empty());
    assert(conversation(system, Seq::empty(), user) =~= seq![
        MessageText { role: "system"@, content: system },
        MessageText { role: "user"@, content: user },
    ]);
}

proof fn lemma_turn(history: Seq<(Seq<char>, Seq<char>)>, i: int)
    requires
        0 <= i < history.len(),
    ensures
        turn_messages(history)[2 * i] == (MessageText { role: "user"@, content: history[i].0 }),
        turn_messages(history)[2 * i + 1] == (MessageText {
            role: "assistant"@,
            content: history[i].1,
        }),
    decreases history.len(),
{
    lemma_turns_len(history.drop_last());
    if i < history.len() - 1 {
        lemma_turn(history.drop_last(), i);
    }
}

proof fn lemma_turns_len(history: Seq<(Seq<char>, Seq<char>)>)
    ensures
        turn_messages(history).len() == 2 * history.len(),
    decreases history.len(),
{
    if history.len() > 0 {
        lemma_turns_len(history.drop_last());
    }
}

} // verus!
