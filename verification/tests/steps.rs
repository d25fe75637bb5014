use arg::Args;

fn over<'a>(tokens: &[&str]) -> Args<'a> {
    Args::new(tokens.iter().map(|t| t.to_string()).collect())
}

fn owned(tokens: &[&str]) -> Vec<String> {
    tokens.iter().map(|t| t.to_string()).collect()
}

#[test]
fn new_parser_stands_after_the_program_name() {
    let args = over(&["prog", "-a", "x"]);
    assert_eq!(args.argv0(), "prog");
    assert!(args.at_flag());
    assert_eq!(args.rest(), owned(&["-a", "x"]));
}

#[test]
fn at_flag_is_false_at_the_end_and_on_other_tokens() {
    assert!(!over(&["prog"]).at_flag());
    assert!(!over(&["prog", "x", "-a"]).at_flag());
    assert!(!over(&["prog", ""]).at_flag());
    assert!(over(&["prog", "-"]).at_flag());
}

#[test]
fn enter_names_the_flag() {
    let mut args = over(&["prog", "-b", "value"]);
    assert_eq!(args.enter(), Some('b'));
    assert_eq!(args.rest(), owned(&["-b", "value"]));
}

#[test]
fn enter_on_lone_dash_keeps_the_flag() {
    let mut args = over(&["prog", "-", "-q", "-"]);
    assert_eq!(args.enter(), None);
    args.advance();
    assert_eq!(args.enter(), Some('q'));
    args.advance();
    assert_eq!(args.enter(), Some('q'));
    args.advance();
    assert!(!args.at_flag());
    assert!(args.rest().is_empty());
}

#[test]
fn advance_moves_one_token_without_a_value() {
    let mut args = over(&["prog", "-a", "value", "x"]);
    args.enter();
    args.advance();
    assert_eq!(args.rest(), owned(&["value", "x"]));
}

#[test]
fn advance_moves_two_tokens_with_a_value() {
    let mut args = over(&["prog", "-a", "value", "x"]);
    args.enter();
    assert_eq!(args.argf(), Some("value"));
    args.advance();
    assert_eq!(args.rest(), owned(&["x"]));
}

#[test]
fn eargf_on_the_parser_takes_the_following_token() {
    let mut args = over(&["prog", "-a", "value"]);
    args.enter();
    assert_eq!(args.eargf(), "value");
    args.advance();
    assert!(args.rest().is_empty());
    assert!(!args.at_flag());
}

#[test]
fn argf_on_the_parser_without_a_value() {
    let mut args = over(&["prog", "-a"]);
    args.enter();
    assert_eq!(args.argf(), None);
    args.advance();
    assert!(args.rest().is_empty());

    let mut args = over(&["prog", "-a", "", "x"]);
    args.enter();
    assert_eq!(args.argf(), None);
    args.advance();
    assert_eq!(args.rest(), owned(&["", "x"]));
}

#[test]
fn enter_forgets_a_value_taken_before() {
    let mut args = over(&["prog", "-a", "-b", "x"]);
    assert_eq!(args.argf(), Some("-b"));
    args.enter();
    args.advance();
    assert_eq!(args.rest(), owned(&["-b", "x"]));
}

#[test]
fn a_scan_by_hand_is_the_scan_that_parse_makes() {
    let tokens = ["prog", "-a", "-b", "value", "-c", "imhere", "-d"];

    let mut by_hand = over(&tokens);
    let mut flags: Vec<char> = Vec::new();
    while by_hand.at_flag() {
        if let Some(flag) = by_hand.enter() {
            flags.push(flag);
            if flag == 'b' {
                assert_eq!(by_hand.argf(), Some("value"));
            }
        }
        by_hand.advance();
    }
    assert_eq!(flags, vec!['a', 'b', 'c']);
    assert_eq!(by_hand.rest(), owned(&["imhere", "-d"]));

    let mut seen: Vec<char> = Vec::new();
    let rest;
    {
        let mut parsed = over(&tokens).with_cb(|d, flag| {
            seen.push(flag);
            if flag == 'b' {
                let _ = d.argf();
            }
        });
        rest = parsed.parse();
    }
    assert_eq!(seen, flags);
    assert_eq!(rest, by_hand.rest());
}

#[test]
fn parse_starts_over_from_the_first_token() {
    let mut args = over(&["prog", "-a", "-b", "x"]);
    args.enter();
    args.advance();
    args.enter();
    args.advance();
    assert_eq!(args.rest(), owned(&["x"]));
    assert_eq!(args.parse(), owned(&["x"]));
    assert_eq!(args.rest(), owned(&["x"]));
}
