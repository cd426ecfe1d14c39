use hearth::tokenizer::jinja::{eval_cond_global, eval_jinja2, ChatMessage, TemplateContext};

fn message(role: &str, content: &str) -> ChatMessage {
    ChatMessage {
        role: role.to_string(),
        content: content.to_string(),
    }
}

fn context(messages: Vec<ChatMessage>, add_generation_prompt: bool) -> TemplateContext {
    TemplateContext {
        messages,
        bos_token: "<s>".to_string(),
        eos_token: "</s>".to_string(),
        add_generation_prompt,
        thinking: false,
    }
}

#[test]
fn test_simple_interpolation() {
    let ctx = TemplateContext {
        messages: vec![],
        bos_token: "<s>".to_string(),
        eos_token: "</s>".to_string(),
        add_generation_prompt: true,
        thinking: false,
    };
    let result = eval_jinja2("{{ bos_token }}hello{{ eos_token }}", &ctx);
    assert_eq!(result, "<s>hello</s>");
}

#[test]
fn test_for_loop() {
    let ctx = TemplateContext {
        messages: vec![
            ChatMessage {
                role: "user".to_string(),
                content: "hi".to_string(),
            },
            ChatMessage {
                role: "assistant".to_string(),
                content: "hello".to_string(),
            },
        ],
        bos_token: "<s>".to_string(),
        eos_token: "</s>".to_string(),
        add_generation_prompt: true,
        thinking: false,
    };
    let template = "{% for message in messages %}{{ message['role'] }}: {{ message['content'] }}\n{% endfor %}";
    let result = eval_jinja2(template, &ctx);
    assert!(result.contains("user: hi"));
    assert!(result.contains("assistant: hello"));
}

#[test]
fn test_if_condition() {
    let ctx = TemplateContext {
        messages: vec![ChatMessage {
            role: "user".to_string(),
            content: "test".to_string(),
        }],
        bos_token: "".to_string(),
        eos_token: "".to_string(),
        add_generation_prompt: true,
        thinking: false,
    };
    let template = "{% if add_generation_prompt %}GEN{% endif %}";
    let result = eval_jinja2(template, &ctx);
    assert!(result.contains("GEN"));
}

#[test]
fn a_plain_template_is_kept() {
    let ctx = context(vec![message("user", "x")], true);
    let text = "no tags here: { a } # % end\n";
    assert_eq!(eval_jinja2(text, &ctx), text);
    assert_eq!(eval_jinja2("", &ctx), "");
}

#[test]
fn a_false_condition_leaves_its_block_out() {
    let ctx = context(vec![], false);
    let template = "a{% if add_generation_prompt %}GEN{% endif %}b";
    assert!(!eval_jinja2(template, &ctx).contains("GEN"));
}

#[test]
fn comments_leave_no_trace() {
    let ctx = context(vec![], true);
    assert_eq!(eval_jinja2("a{# note #}b", &ctx), "ab");
}

#[test]
fn an_open_tag_is_plain_text() {
    let ctx = context(vec![], true);
    assert_eq!(eval_jinja2("a{{ bos_token", &ctx), "a{{ bos_token");
}

#[test]
fn every_message_has_its_turn() {
    let ctx = context(
        vec![message("user", "one"), message("assistant", "two"), message("user", "three")],
        true,
    );
    let template = "{% for message in messages %}[{{ message['content'] }}]{% endfor %}";
    assert!(eval_jinja2(template, &ctx).starts_with("[one][two][three]"));
}

#[test]
fn conditions_follow_the_laws_of_logic() {
    for flag in [false, true] {
        let ctx = context(vec![message("user", "hi")], flag);
        let holds = |c: &str| eval_cond_global(&c.chars().collect::<Vec<char>>(), &ctx);
        let atoms = [("true", true), ("false", false), ("add_generation_prompt", flag)];
        for (a, x) in atoms {
            assert_eq!(holds(a), x);
            assert_eq!(holds(&format!("not {}", a)), !x);
            for (b, y) in atoms {
                assert_eq!(holds(&format!("{} and {}", a, b)), x && y);
                assert_eq!(holds(&format!("{} or {}", a, b)), x || y);
            }
        }
        assert!(holds("false and false or true") == false);
        assert!(holds("messages|length == 1"));
    }
}
