use std::collections::HashMap;

use hearth::tokenizer::bpe::{merge_all, MergeTable};
use hearth::tokenizer::cache::TokenCache;
use hearth::tokenizer::gpt2::{gpt2_bytes, gpt2_decode};
use hearth::tokenizer::prompt::TemplateSource;
use hearth::tokenizer::template::{
    detect_format_from_arch, detect_format_from_content, is_template_simple_enough,
    synthetic_template,
};
use hearth::tokenizer::words::pre_tokenize;
use hearth::tokenizer::{TemplateKind, Tokenizer};
use hearth::StringHashMap;

fn make_mock_tokenizer() -> Tokenizer {
    let mut vocab = vec![
        "<unk>".to_string(),
        "<s>".to_string(),
        "</s>".to_string(),
        "a".to_string(),
        "b".to_string(),
        "ab".to_string(),
        "c".to_string(),
        "abc".to_string(),
        " ".to_string(),
    ];
    // Add byte tokens <0x00> through <0xFF>
    for i in 0..=255u8 {
        vocab.push(format!("<0x{:02X}>", i));
    }

    let mut token_to_id = StringHashMap::new();
    for (i, s) in vocab.iter().enumerate() {
        token_to_id.insert(s.clone(), i as u32);
    }

    let mut byte_tokens = HashMap::new();
    for i in 0..=255u8 {
        byte_tokens.insert(i, i as u32 + 9); // byte tokens start at index 9
    }

    let merges = vec![
        ("a".to_string(), "b".to_string()),
        ("ab".to_string(), "c".to_string()),
    ];
    let mut merge_ranks = MergeTable::new();
    for (i, (a, b)) in merges.iter().enumerate() {
        merge_ranks.insert(a, b, i);
    }

    Tokenizer {
        vocab,
        token_to_id,
        merges,
        merge_ranks,
        bos_id: 1,
        eos_id: 2,
        byte_tokens,
        template_kind: TemplateKind::ChatML,
        chat_template: None,
        special_tokens: Vec::new(),
        cache: TokenCache::new(),
    }
}

/// A tokenizer whose vocabulary spells every byte with one character, plus a few merges.
fn byte_level_tokenizer() -> Tokenizer {
    let mut vocab: Vec<String> = Vec::new();
    let mut byte_tokens = HashMap::new();
    let mut other = 0u32;
    for b in 0..=255u8 {
        let own = (33..=126).contains(&b) || (161..=172).contains(&b) || b >= 174;
        let c = if own {
            b as char
        } else {
            other += 1;
            char::from_u32(255 + other).unwrap()
        };
        byte_tokens.insert(b, vocab.len() as u32);
        vocab.push(c.to_string());
    }
    let merges = vec![
        ("h".to_string(), "e".to_string()),
        ("l".to_string(), "l".to_string()),
        ("he".to_string(), "ll".to_string()),
    ];
    let mut merge_ranks = MergeTable::new();
    for (i, (a, b)) in merges.iter().enumerate() {
        merge_ranks.insert(a, b, i);
        vocab.push(format!("{}{}", a, b));
    }
    vocab.push("<|end|>".to_string());
    let special_tokens = vec![("<|end|>".to_string(), vocab.len() as u32 - 1)];
    let mut token_to_id = StringHashMap::new();
    for (i, s) in vocab.iter().enumerate() {
        token_to_id.insert(s.clone(), i as u32);
    }
    Tokenizer {
        vocab,
        token_to_id,
        merges,
        merge_ranks,
        bos_id: 0,
        eos_id: 0,
        byte_tokens,
        template_kind: TemplateKind::Llama3,
        chat_template: None,
        special_tokens,
        cache: TokenCache::new(),
    }
}

#[test]
fn test_encode_decode_roundtrip() {
    let mut tok = make_mock_tokenizer();
    let text = "abc";
    let ids = tok.encode(text, true);
    assert!(!ids.is_empty(), "encode should produce tokens");
    let decoded = tok.decode(&ids);
    assert!(!decoded.is_empty(), "decode should produce text");
}

#[test]
fn test_bos_eos_ids() {
    let tok = make_mock_tokenizer();
    assert_eq!(tok.bos_id, 1);
    assert_eq!(tok.eos_id, 2);
}

#[test]
fn test_chatml_template() {
    let tok = make_mock_tokenizer();
    // apply_template routes through Jinja2 with synthetic ChatML template
    let result = tok.apply_template("You are helpful", &[], "Hello", false);
    assert!(result.contains("<|im_start|>system"));
    assert!(result.contains("<|im_start|>user"));
    assert!(result.contains("<|im_start|>assistant"));
}

#[test]
fn test_decode_token() {
    let tok = make_mock_tokenizer();
    assert_eq!(tok.decode_token(0), "<unk>");
    assert_eq!(tok.decode_token(3), "a");
}

#[test]
fn bos_comes_first_and_a_known_word_is_one_token() {
    let mut tok = make_mock_tokenizer();
    assert_eq!(tok.encode("abc", true), vec![1, 7]);
    assert_eq!(tok.encode("abc", false), vec![7]);
    assert_eq!(tok.decode(&[7]), "abc");
    assert_eq!(tok.encode("", false), Vec::<u32>::new());
}

#[test]
fn repeated_calls_agree() {
    let mut tok = byte_level_tokenizer();
    let first = tok.encode("hello there", false);
    let second = tok.encode("hello there", false);
    assert_eq!(first, second);
    assert_eq!(tok.decode(&first), tok.decode(&second));
}

#[test]
fn the_memory_stays_right_when_it_overflows() {
    let mut tok = byte_level_tokenizer();
    let mut first: Vec<Vec<u32>> = Vec::new();
    for i in 0..600u32 {
        first.push(tok.encode(&format!("text {}", i), false));
    }
    for i in 0..600u32 {
        assert_eq!(tok.encode(&format!("text {}", i), false), first[i as usize]);
    }
}

#[test]
fn decoding_undoes_encoding() {
    let mut tok = byte_level_tokenizer();
    let texts = [
        "hello",
        "hello world",
        "  two  spaces\n",
        "gr\u{fc}\u{df}e \u{2014} \u{65e5}\u{672c}\u{8a9e} \u{1f525}",
        "before<|end|>after",
        "",
    ];
    for text in texts {
        let ids = tok.encode(text, false);
        assert_eq!(tok.decode(&ids), text);
    }
}

#[test]
fn merges_apply_in_the_order_of_their_ranks() {
    let mut tok = byte_level_tokenizer();
    let ids = tok.encode("hello", false);
    let texts: Vec<&str> = ids.iter().map(|i| tok.vocab[*i as usize].as_str()).collect();
    assert_eq!(texts, vec!["hell", "o"]);
}

#[test]
fn a_special_token_is_never_split() {
    let mut tok = byte_level_tokenizer();
    let id = tok.special_tokens[0].1;
    assert_eq!(tok.encode("<|end|>", false), vec![id]);
    let ids = tok.encode("x<|end|>y", false);
    assert_eq!(ids.iter().filter(|i| **i == id).count(), 1);
}

#[test]
fn the_longest_special_token_wins() {
    let mut tok = byte_level_tokenizer();
    tok.special_tokens.push(("<|end|>!".to_string(), 5));
    assert_eq!(tok.encode("<|end|>!", false), vec![5]);
}

#[test]
fn control_tokens_are_recognised() {
    let tok = byte_level_tokenizer();
    let id = tok.special_tokens[0].1;
    assert!(tok.is_control_token(id));
    assert!(!tok.is_control_token(65));
    assert!(!make_mock_tokenizer().is_control_token(3));
}

#[test]
fn bytes_survive_their_spelling() {
    let tok = byte_level_tokenizer();
    for b in 0..=255usize {
        assert_eq!(gpt2_bytes(&tok.vocab[b]), vec![b as u8]);
    }
}

#[test]
fn malformed_bytes_become_replacement_characters() {
    // The character U+00FF spells the byte 255, which is never UTF-8.
    assert_eq!(gpt2_decode("\u{ff}"), "\u{fffd}");
    assert_eq!(gpt2_decode("a\u{120}b"), "a b");
}

#[test]
fn words_make_up_the_text() {
    let text: Vec<char> = "one two\tthree  four".chars().collect();
    let words = pre_tokenize(&text);
    assert_eq!(words.concat(), "one two\tthree  four");
    assert_eq!(words, vec!["one", " ", "two", "\t", "three", " ", " ", "four"]);
}

#[test]
fn merging_stops_where_no_rule_applies() {
    let mut ranks = MergeTable::new();
    ranks.insert("a", "b", 1);
    ranks.insert("b", "c", 0);
    let tokens: Vec<String> = ["a", "b", "c", "a", "b"].iter().map(|s| s.to_string()).collect();
    assert_eq!(merge_all(tokens, &ranks), vec!["a", "bc", "ab"]);
    assert_eq!(ranks.get("a", "b"), Some(1));
    assert_eq!(ranks.get("ab", ""), None);
}

#[test]
fn architectures_have_their_formats() {
    assert_eq!(detect_format_from_arch("LLAMA"), detect_format_from_arch("llama"));
    assert_eq!(detect_format_from_arch("Qwen3"), detect_format_from_arch("qwen3"));
    assert_eq!(detect_format_from_content("<|im_start|>"), Some(TemplateKind::ChatML));
    assert_eq!(detect_format_from_content("[INST]"), Some(TemplateKind::MistralInstruct));
    assert_eq!(detect_format_from_content("<|start_header_id|>"), Some(TemplateKind::Llama3));
    assert_eq!(detect_format_from_content("<start_of_turn>"), Some(TemplateKind::Gemma));
    assert_eq!(detect_format_from_content("plain"), None);
}

#[test]
fn complex_templates_are_replaced() {
    assert!(is_template_simple_enough("{{ bos_token }}"));
    assert!(!is_template_simple_enough("{% set x = 1 %}"));
    assert!(!is_template_simple_enough("{%set x = 1%}"));
    assert!(!is_template_simple_enough("{%- elif x %}"));
    assert!(!is_template_simple_enough("{{ message['content']|trim }}"));
    assert!(!is_template_simple_enough("{{ message['content'] | trim }}"));
    assert!(!is_template_simple_enough("{{ '<|x|>'|trim }}"));
    assert!(is_template_simple_enough("{{ '<|x|>' }}"));
    assert!(is_template_simple_enough("{% if message['content'] == \"<|x|>\" %}a{% endif %}"));
    assert!(!is_template_simple_enough("<|im_start|>{% if messages|length > 1 %}"));
    assert!(is_template_simple_enough("<|im_start|>{{ bos_token }}<|im_end|>{# a|b #}"));
    let mut tok = make_mock_tokenizer();
    assert_eq!(tok.template_source(), TemplateSource::Missing);
    tok.chat_template = Some("{{ bos_token }}".to_string());
    assert_eq!(tok.template_source(), TemplateSource::Own);
    assert_eq!(tok.apply_template("s", &[], "u", false), "<s>");
    tok.chat_template = Some("{% set ns = namespace() %}".to_string());
    assert_eq!(tok.template_source(), TemplateSource::TooComplex);
    assert!(tok.apply_template("s", &[], "u", false).contains("<|im_start|>user"));
    assert!(synthetic_template(TemplateKind::ChatML).contains("<|im_start|>"));
}

#[test]
fn a_conversation_keeps_its_turns() {
    let tok = make_mock_tokenizer();
    let prompt = tok.apply_template("sys", &[("q1", "a1"), ("q2", "a2")], "q3", false);
    let places: Vec<usize> = ["sys", "q1", "a1", "q2", "a2", "q3"]
        .iter()
        .map(|t| prompt.find(t).unwrap())
        .collect();
    let mut sorted = places.clone();
    sorted.sort();
    assert_eq!(places, sorted);
}
