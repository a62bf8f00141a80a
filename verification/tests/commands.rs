use chat_relay::commands::extract_commands;
use chat_relay::text::{chars_of, is_whitespace_char, split_whitespace, text_eq};

#[test]
fn model_directive_is_extracted() {
    let commands = extract_commands("!model gpt-4 hello");
    assert_eq!(commands.len(), 1);
    assert_eq!(commands.get("model"), Some(&"gpt-4".to_string()));
}

#[test]
fn prompt_without_directives_yields_nothing() {
    let commands = extract_commands("hello world");
    assert_eq!(commands.len(), 0);
    assert!(commands.is_empty());
}

#[test]
fn directive_at_the_end_has_empty_value() {
    let commands = extract_commands("!info");
    assert_eq!(commands.len(), 1);
    assert_eq!(commands.get("info"), Some(&String::new()));
}

#[test]
fn two_directives_are_both_extracted() {
    let commands = extract_commands("!a 1 !b 2");
    assert_eq!(commands.len(), 2);
    assert_eq!(commands.get("a"), Some(&"1".to_string()));
    assert_eq!(commands.get("b"), Some(&"2".to_string()));
}

#[test]
fn empty_and_blank_input_yield_nothing() {
    assert_eq!(extract_commands("").len(), 0);
    assert_eq!(extract_commands("  \t \n ").len(), 0);
}

#[test]
fn lone_bang_is_no_directive() {
    let commands = extract_commands("! value");
    assert_eq!(commands.len(), 0);
}

#[test]
fn value_token_is_consumed_even_if_it_looks_like_a_directive() {
    let commands = extract_commands("!a !b c");
    assert_eq!(commands.len(), 1);
    assert_eq!(commands.get("a"), Some(&"!b".to_string()));
    assert_eq!(commands.get("b"), None);
}

#[test]
fn later_directive_replaces_earlier_one() {
    let commands = extract_commands("!model a x !model b");
    assert_eq!(commands.len(), 1);
    assert_eq!(commands.get("model"), Some(&"b".to_string()));
}

#[test]
fn directive_in_the_middle_of_a_prompt() {
    let commands = extract_commands("tell me !model gpt-4 a joke");
    assert_eq!(commands.len(), 1);
    assert_eq!(commands.get("model"), Some(&"gpt-4".to_string()));
}

#[test]
fn bang_inside_a_token_is_no_directive() {
    let commands = extract_commands("wow! really");
    assert_eq!(commands.len(), 0);
}

#[test]
fn unicode_whitespace_separates_tokens() {
    let commands = extract_commands("!model\u{3000}gpt-4\u{a0}rest");
    assert_eq!(commands.len(), 1);
    assert_eq!(commands.get("model"), Some(&"gpt-4".to_string()));
}

#[test]
fn key_may_hold_any_characters_after_the_bang() {
    let commands = extract_commands("!!x y");
    assert_eq!(commands.get("!x"), Some(&"y".to_string()));
    let commands = extract_commands("!clé valeur");
    assert_eq!(commands.get("clé"), Some(&"valeur".to_string()));
}

#[test]
fn split_whitespace_drops_empty_pieces() {
    assert_eq!(split_whitespace("  a  b\tc\n"), vec!["a".to_string(), "b".to_string(), "c".to_string()]);
    assert_eq!(split_whitespace(""), Vec::<String>::new());
    assert_eq!(split_whitespace(" \r\n "), Vec::<String>::new());
    assert_eq!(split_whitespace("one"), vec!["one".to_string()]);
}

#[test]
fn split_whitespace_agrees_with_std() {
    let samples = ["a b", " lead", "trail ", "x\u{2003}y", "\u{85}n\u{1680}m", "zero\u{200b}width"];
    for sample in samples {
        let expected: Vec<String> = sample.split_whitespace().map(|w| w.to_string()).collect();
        assert_eq!(split_whitespace(sample), expected);
    }
}

#[test]
fn whitespace_characters_agree_with_std() {
    let mut code: u32 = 0;
    while code <= 0x3100 {
        if let Some(c) = char::from_u32(code) {
            assert_eq!(is_whitespace_char(c), c.is_whitespace());
        }
        code += 1;
    }
}

#[test]
fn chars_of_yields_every_character() {
    assert_eq!(chars_of("héy"), vec!['h', 'é', 'y']);
    assert_eq!(chars_of(""), Vec::<char>::new());
}

#[test]
fn text_eq_compares_characters() {
    assert!(text_eq("/ws", "/ws"));
    assert!(!text_eq("/ws", "/wS"));
    assert!(!text_eq("/ws", "/ws/"));
    assert!(text_eq("", ""));
}
