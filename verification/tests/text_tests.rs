use shell::cd::check_path;
use shell::cp::{copy_into_step, CopyIntoStep};
use shell::mv::{rename_target, RenameTarget};
use shell::sorting::name_sort_key;
use shell::text::{
    byte_count, count_occurrences, decimal, join_strs, lex_less_or_equal, pad_left, remove_char, same_text,
    split_at_char, trim, trim_end,
};

#[test]
fn decimal_writes_digits() {
    assert_eq!(decimal(0), "0");
    assert_eq!(decimal(7), "7");
    assert_eq!(decimal(1234567), "1234567");
    assert_eq!(decimal(u64::MAX), "18446744073709551615");
}

#[test]
fn pad_left_right_aligns() {
    assert_eq!(pad_left("ab", 5), "   ab");
    assert_eq!(pad_left("abcdef", 3), "abcdef");
    assert_eq!(pad_left("", 2), "  ");
    assert_eq!(pad_left("é", 3), "  é");
}

#[test]
fn pad_left_matches_format_width() {
    for (s, w) in [("x", 4usize), ("héllo", 7), ("toolong", 2), ("", 0)] {
        assert_eq!(pad_left(s, w), format!("{:>w$}", s, w = w));
    }
}

#[test]
fn trim_end_drops_trailing_whitespace() {
    assert_eq!(trim_end("a b \n\t"), "a b");
    assert_eq!(trim_end("   "), "");
    assert_eq!(trim_end("x"), "x");
}

#[test]
fn trim_drops_both_ends() {
    assert_eq!(trim("  x y  \n"), "x y");
    assert_eq!(trim(""), "");
    assert_eq!(trim("\u{a0}z\u{a0}"), "z");
}

#[test]
fn trimming_uses_unicode_whitespace() {
    assert_eq!(trim_end("a \t\n\u{b}\u{c}\r"), "a");
    assert_eq!(trim_end("a\u{3000}"), "a");
    assert_eq!(trim_end("a\""), "a\"");
    assert_eq!(trim_end("ab"), "ab");
}

#[test]
fn lowercasing_uses_unicode_rules() {
    assert_eq!(name_sort_key("ÀBc"), "àbc");
    assert_eq!(name_sort_key("README.md"), "readme.md");
}

#[test]
fn lexicographic_comparison() {
    assert!(lex_less_or_equal("abc", "abd"));
    assert!(lex_less_or_equal("ab", "abc"));
    assert!(!lex_less_or_equal("abc", "ab"));
    assert!(lex_less_or_equal("", ""));
    assert!(lex_less_or_equal("B", "a"));
}

#[test]
fn join_with_separator() {
    assert_eq!(join_strs(&["a", "b", "c"], ", "), "a, b, c");
    assert_eq!(join_strs(&["solo"], " "), "solo");
    assert_eq!(join_strs(&[], " "), "");
}

#[test]
fn split_keeps_empty_pieces() {
    assert_eq!(split_at_char("a//b", '/'), vec!["a", "", "b"]);
    assert_eq!(split_at_char("", '/'), vec![""]);
    assert_eq!(split_at_char("/x/", '/'), vec!["", "x", ""]);
}

#[test]
fn character_helpers() {
    assert!(same_text("abc", "abc"));
    assert!(!same_text("abc", "abd"));
    assert_eq!(count_occurrences("a'b'c", '\''), 2);
    assert_eq!(remove_char("a'b'c", '\''), "abc");
    assert_eq!(byte_count("é"), 2);
    assert_eq!(remove_char("héllo", 'l'), "héo");
}

fn copied_to(file: &str, destination: &str) -> Option<String> {
    match copy_into_step(file, destination, true) {
        CopyIntoStep::Copy { to, .. } => Some(to),
        _ => None,
    }
}

#[test]
fn file_name_is_the_last_component() {
    assert_eq!(copied_to("/a/b.txt", "d"), Some("d/b.txt".to_string()));
    assert_eq!(copied_to("b", "d"), Some("d/b".to_string()));
    assert_eq!(copied_to("a/b/", "d"), Some("d/b".to_string()));
    assert_eq!(copied_to("/", "d"), None);
    assert_eq!(copied_to("..", "d"), None);
}

#[test]
fn joining_follows_path_rules() {
    assert_eq!(copied_to("f", "dir/"), Some("dir/f".to_string()));
    assert!(matches!(rename_target("x/f", "/tmp", true), RenameTarget::Into(p) if p == "/tmp/f"));
}

#[test]
fn popping_and_pushing_components() {
    assert_eq!(check_path("b", "/a"), "/a/b");
    assert_eq!(check_path("", "/a"), "/a/");
    assert_eq!(check_path("..", "/a/b"), "/a");
    assert_eq!(check_path("..", "/"), "/");
    assert_eq!(check_path("..", "a"), "");
}

#[test]
fn whitespace_is_exactly_the_white_space_property() {
    let listed = |u: u32| {
        (0x09..=0x0d).contains(&u)
            || u == 0x20
            || u == 0x85
            || u == 0xa0
            || u == 0x1680
            || (0x2000..=0x200a).contains(&u)
            || u == 0x2028
            || u == 0x2029
            || u == 0x202f
            || u == 0x205f
            || u == 0x3000
    };
    for u in 0..=0x10ffffu32 {
        if let Some(c) = char::from_u32(u) {
            let trimmed = trim_end(&c.to_string()).is_empty();
            assert_eq!(trimmed, listed(u), "U+{:04X}", u);
        }
    }
}
