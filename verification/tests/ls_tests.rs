use shell::listing::file_allowed_check;
use shell::ls::facts_fit_check;
use shell::entry::LsOptions;
use shell::entry::{EntryInfo, FileKind};
use shell::listing::{DirFacts, DirListing, FileFacts};
use shell::ls::{builtin_ls, parse_arguments, LsParse, PathFacts};
use shell::output::Emit;
use shell::sorting::DirItem;

const HELP: &str = "Usage: ls [OPTION]... [FILE]...\nList information about the FILEs (the current directory by default).\n\nOptions:\n  -l      use a long listing format\n  -a      do not ignore entries starting with .\n  -F      append indicator (one of */=>@|) to entries\n  --help  display this help and exit\n";

fn info(kind: FileKind, mode: u32) -> EntryInfo {
    EntryInfo {
        kind,
        mode,
        links: 1,
        uid: 0,
        user_name: Some("root".to_string()),
        gid: 0,
        group_name: Some("root".to_string()),
        size: 10,
        blocks: 8,
        date: Ok("Jan  1 01:00".to_string()),
        link_target: None,
    }
}

fn dir_with(names: &[&str]) -> PathFacts {
    PathFacts::Directory(DirFacts {
        listing: DirListing::Items(
            names
                .iter()
                .map(|n| DirItem { name: n.to_string(), metadata: Ok(info(FileKind::Regular, 0o100644)) })
                .collect(),
        ),
        dot: None,
        dotdot: None,
    })
}

fn shown(out: &[Emit]) -> Vec<(bool, String)> {
    out.iter().map(|e| (e.to_stderr, e.text.clone())).collect()
}

fn out(s: &str) -> (bool, String) {
    (false, s.to_string())
}

fn err(s: &str) -> (bool, String) {
    (true, s.to_string())
}

#[test]
fn parse_collects_options_and_operands() {
    let r = parse_arguments(&["-la", "x", "-", "y", "-F"]);
    assert_eq!(r.dash_operands, 1);
    match r.outcome {
        LsParse::List { options, paths } => {
            assert!(options.show_hidden && options.long_format && options.f_type);
            assert_eq!(paths, vec!["x", "y"]);
        }
        _ => panic!("expected a listing"),
    }
}

#[test]
fn parse_defaults_to_current_directory() {
    let r = parse_arguments(&[]);
    assert_eq!(r.dash_operands, 0);
    match r.outcome {
        LsParse::List { options, paths } => {
            assert!(!options.show_hidden && !options.long_format && !options.f_type);
            assert_eq!(paths, vec!["."]);
        }
        _ => panic!("expected a listing"),
    }
}

#[test]
fn parse_stops_at_help_and_invalid_option() {
    assert!(matches!(parse_arguments(&["-l", "--help", "-z"]).outcome, LsParse::Help));
    let r = parse_arguments(&["-", "-lz", "--help"]);
    assert_eq!(r.dash_operands, 1);
    assert!(matches!(r.outcome, LsParse::InvalidOption('z')));
    match parse_arguments(&["--", "-l-a"]).outcome {
        LsParse::List { options, paths } => {
            assert!(options.long_format && options.show_hidden);
            assert_eq!(paths, vec!["."]);
        }
        _ => panic!("expected a listing"),
    }
}

#[test]
fn help_is_printed() {
    assert_eq!(shown(&builtin_ls(&["--help"], vec![])), vec![out(HELP)]);
}

#[test]
fn invalid_option_is_reported_after_dashes() {
    assert_eq!(
        shown(&builtin_ls(&["-", "-q"], vec![])),
        vec![
            err("ls: cannot access '-': No such file or directory\n"),
            err("ls: invalid option -- 'q'\nTry 'ls --help' for more information.\n"),
        ]
    );
}

#[test]
fn missing_operand_is_reported() {
    assert_eq!(
        shown(&builtin_ls(&["nope"], vec![PathFacts::Missing("No such file or directory (os error 2)".to_string())])),
        vec![err("ls: cannot access 'nope': No such file or directory (os error 2)\n")]
    );
}

#[test]
fn single_directory_has_no_header() {
    assert_eq!(
        shown(&builtin_ls(&[], vec![dir_with(&["b", "a"])])),
        vec![out("\x1b[0ma\x1b[0m \x1b[0mb\x1b[0m\n")]
    );
}

#[test]
fn files_come_first_then_directory_sections() {
    let r = builtin_ls(
        &["d1", "f", "gone", "d2"],
        vec![
            dir_with(&["x"]),
            PathFacts::File(FileFacts::Entry(info(FileKind::Regular, 0o100755))),
            PathFacts::Missing("No such file or directory (os error 2)".to_string()),
            dir_with(&[]),
        ],
    );
    assert_eq!(
        shown(&r),
        vec![
            err("ls: cannot access 'gone': No such file or directory (os error 2)\n"),
            out("\x1b[1;32mf\x1b[0m "),
            out("\n"),
            out("d1:\n"),
            out("\x1b[0mx\x1b[0m\n"),
            out("\n"),
            out("d2:\n"),
        ]
    );
}

#[test]
fn two_directories_are_separated() {
    let r = builtin_ls(&["a", "b"], vec![dir_with(&["1"]), dir_with(&["2"])]);
    assert_eq!(
        shown(&r),
        vec![out("a:\n"), out("\x1b[0m1\x1b[0m\n"), out("\n"), out("b:\n"), out("\x1b[0m2\x1b[0m\n")]
    );
}

#[test]
fn same_facts_give_the_same_output() {
    let first = shown(&builtin_ls(&["-a", "d"], vec![dir_with(&["B", ".c", "a"])]));
    let second = shown(&builtin_ls(&["-a", "d"], vec![dir_with(&["B", ".c", "a"])]));
    assert_eq!(first, second);
    assert_eq!(first, vec![out("\x1b[0ma\x1b[0m \x1b[0mB\x1b[0m \x1b[0m.c\x1b[0m\n")]);
}

#[test]
fn option_placement_does_not_change_output() {
    let run = |args: &[&str]| shown(&builtin_ls(args, vec![dir_with(&["b", ".h", "a"])]));
    let first = run(&["-la", "p"]);
    assert_eq!(first, run(&["-a", "-l", "p"]));
    assert_eq!(first, run(&["p", "-l", "-a"]));
    assert_eq!(first, run(&["-l", "p", "--a"]));
    assert_ne!(first, run(&["-l", "p"]));
}

#[test]
fn facts_check_matches_what_listing_needs() {
    let long = LsOptions { show_hidden: false, long_format: true, f_type: false };
    let short = LsOptions { show_hidden: false, long_format: false, f_type: false };
    assert!(file_allowed_check(&FileFacts::Entry(info(FileKind::Regular, 0o644)), long));
    assert!(!file_allowed_check(&FileFacts::Entry(info(FileKind::Regular, 0o44)), long));
    assert!(file_allowed_check(&FileFacts::Entry(info(FileKind::Regular, 0o44)), short));
    assert!(file_allowed_check(&FileFacts::Unreadable("x".to_string()), long));
    let low = || PathFacts::File(FileFacts::Entry(info(FileKind::Regular, 0o44)));
    assert!(facts_fit_check(&["f"], &vec![low()]));
    assert!(!facts_fit_check(&["-l", "f"], &vec![low()]));
    assert!(!facts_fit_check(&["a", "b"], &vec![low()]));
    assert!(facts_fit_check(&[], &vec![dir_with(&["x"])]));
    assert!(facts_fit_check(&["--help"], &vec![]));
}
