use arg::token::{following, second_char, starts_flag, tail};

fn list(tokens: &[&str]) -> Vec<String> {
    tokens.iter().map(|t| t.to_string()).collect()
}

#[test]
fn flag_tokens_begin_with_a_dash() {
    assert!(starts_flag("-a"));
    assert!(starts_flag("-"));
    assert!(starts_flag("--long"));
    assert!(!starts_flag(""));
    assert!(!starts_flag("a-"));
    assert!(!starts_flag("\u{2212}a"));
}

#[test]
fn second_char_counts_characters_not_bytes() {
    assert_eq!(second_char("-a"), Some('a'));
    assert_eq!(second_char("-abc"), Some('a'));
    assert_eq!(second_char("-"), None);
    assert_eq!(second_char(""), None);
    assert_eq!(second_char("\u{e9}\u{fc}x"), Some('\u{fc}'));
}

#[test]
fn following_is_the_next_token_unless_empty_or_missing() {
    let tokens = list(&["prog", "-b", "value", "", "x"]);
    assert_eq!(following(&tokens, 0), Some("-b"));
    assert_eq!(following(&tokens, 1), Some("value"));
    assert_eq!(following(&tokens, 2), None);
    assert_eq!(following(&tokens, 3), Some("x"));
    assert_eq!(following(&tokens, 4), None);
    assert_eq!(following(&tokens, 5), None);
    assert_eq!(following(&tokens, usize::MAX), None);
    assert_eq!(following(&Vec::new(), 0), None);
}

#[test]
fn tail_keeps_the_order() {
    let tokens = list(&["prog", "-b", "value"]);
    assert_eq!(tail(&tokens, 0), tokens);
    assert_eq!(tail(&tokens, 1), list(&["-b", "value"]));
    assert_eq!(tail(&tokens, 3), Vec::<String>::new());
    assert_eq!(tail(&tokens, 4), Vec::<String>::new());
    assert_eq!(tail(&tokens, usize::MAX), Vec::<String>::new());
}
