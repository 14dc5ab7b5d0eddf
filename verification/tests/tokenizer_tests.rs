use shell::tokenizer::{
    ckeck_quote, continue_quote, parse_command, try_parse_command, LineEvent, ParseOutcome,
    QuoteContinuation, QuoteStep,
};

fn words(input: &str) -> Vec<String> {
    match parse_command(input) {
        ParseOutcome::Complete(t) => t,
        ParseOutcome::Unterminated(_) => panic!("unterminated"),
    }
}

fn open(input: &str) -> QuoteContinuation {
    match parse_command(input) {
        ParseOutcome::Unterminated(c) => c,
        ParseOutcome::Complete(_) => panic!("complete"),
    }
}

#[test]
fn splits_plain_words() {
    assert_eq!(words("echo hello world"), vec!["echo", "hello", "world"]);
}

#[test]
fn collapses_runs_of_whitespace() {
    assert_eq!(words("  ls  -la\t/tmp  "), vec!["ls", "-la", "/tmp"]);
}

#[test]
fn empty_line_has_no_words() {
    assert!(words("").is_empty());
    assert!(words("   ").is_empty());
}

#[test]
fn double_quotes_keep_spaces() {
    assert_eq!(words("echo \"a  b\" c"), vec!["echo", "a  b", "c"]);
}

#[test]
fn single_quotes_keep_spaces() {
    assert_eq!(words("echo 'x y'"), vec!["echo", "x y"]);
}

#[test]
fn other_quote_inside_quotes_is_kept() {
    assert_eq!(words("echo \"it's\""), vec!["echo", "it's"]);
}

#[test]
fn empty_quotes_give_empty_word() {
    assert_eq!(words("echo ''"), vec!["echo", ""]);
}

#[test]
fn quote_inside_word_restarts_the_word() {
    assert_eq!(words("ab'cd'ef"), vec!["cd", "ef"]);
}

#[test]
fn unterminated_quote_waits_for_more() {
    let c = open("echo \"abc");
    assert_eq!(c.tokens, vec!["echo"]);
    assert_eq!(c.quote, '"');
    assert_eq!(c.start, 6);
    assert!(c.pending.is_empty());
}

#[test]
fn cut_inside_a_character_has_no_answer() {
    assert!(try_parse_command("é a").is_none());
    assert!(try_parse_command("éé b").is_none());
}

#[test]
fn character_positions_are_used_as_byte_offsets() {
    // "é" takes two bytes: the word boundaries found at character
    // positions 2 and 4 cut the line at bytes 2 and 4.
    match try_parse_command("éé  ab") {
        Some(ParseOutcome::Complete(t)) => assert_eq!(t, vec!["é", "  ab"]),
        _ => panic!("expected words"),
    }
    match try_parse_command("éé") {
        Some(ParseOutcome::Complete(t)) => assert_eq!(t, vec!["éé"]),
        _ => panic!("expected words"),
    }
}

#[test]
fn quote_check_counts_exactly_one() {
    assert!(ckeck_quote('"', "abc\"\n".to_string()));
    assert!(!ckeck_quote('"', "abc\n".to_string()));
    assert!(!ckeck_quote('"', "\"a\"\n".to_string()));
    assert!(ckeck_quote('\'', "it's\n".to_string()));
}

#[test]
fn line_without_the_quote_stays_pending() {
    let c = open("ls \"abc");
    match continue_quote(c, LineEvent::Line("more\n".to_string())) {
        QuoteStep::Pending(n) => {
            assert_eq!(n.tokens, vec!["ls"]);
            assert_eq!(n.pending, vec!["more\n"]);
        }
        _ => panic!("expected pending"),
    }
}

#[test]
fn closing_line_finishes_the_second_word() {
    let c = open("ls \"abc");
    let c = match continue_quote(c, LineEvent::Line("mid\n".to_string())) {
        QuoteStep::Pending(n) => n,
        _ => panic!("expected pending"),
    };
    match continue_quote(c, LineEvent::Line("x'y\"\n".to_string())) {
        QuoteStep::Finished(t) => assert_eq!(t, vec!["ls", "abc\nmid\nxy\n"]),
        _ => panic!("expected finished"),
    }
}

#[test]
fn closing_line_for_echo_prints() {
    let c = open("echo \"abc");
    match continue_quote(c, LineEvent::Line("it's\"\n".to_string())) {
        QuoteStep::EchoOutput { lines, raw } => {
            assert_eq!(lines, vec!["abc"]);
            assert_eq!(raw, vec!["its\"\n"]);
        }
        _ => panic!("expected echo output"),
    }
}

#[test]
fn end_of_input_keeps_the_words() {
    let c = open("ls \"abc");
    match continue_quote(c, LineEvent::EndOfInput) {
        QuoteStep::Finished(t) => assert_eq!(t, vec!["ls"]),
        _ => panic!("expected finished"),
    }
}

#[test]
fn end_of_input_appends_pending_lines_to_second_word() {
    let c = open("cp a \"b");
    let c = match continue_quote(c, LineEvent::Line("q\"r\"\n".to_string())) {
        QuoteStep::Pending(n) => n,
        _ => panic!("expected pending"),
    };
    match continue_quote(c, LineEvent::EndOfInput) {
        QuoteStep::Finished(t) => assert_eq!(t, vec!["cp", "a\nqr\n"]),
        _ => panic!("expected finished"),
    }
}

#[test]
fn joined_balanced_lines_give_joined_words() {
    for (a, b) in [("echo 'a b'", "\"c\" d"), ("ls -l", ""), ("  x\t", "'y' z  "), ("", "")] {
        let mut expected = words(a);
        expected.extend(words(b));
        assert_eq!(words(&format!("{} {}", a, b)), expected);
    }
}
