use shell::mv::{finish_step, place_step, source_step, MoveAction};
use shell::output::{concat2, concat3, concat4};
use shell::vecs::reversed;
use shell::cd::{builtin_cd, cd_failure, check_path, home_path_for, CdRequest};
use shell::commands::{
    builtin_cat, builtin_echo, builtin_pwd, cat_continues, cat_open_failure, cat_read_failure, CatSource,
};
use shell::cp::{
    builtin_cp, copy_file_failure, copy_into_failure, copy_into_step, create_dir_failure, handle_multiple_files,
    handle_single_file, CopyIntoStep, CopyStep, CpRequest, MultipleStart, SingleFacts,
};
use shell::dispatch::{dispatch, repl_step, Builtin, ChildCommand, Dispatch, ReplStep};
use shell::mkdir::{builtin_mkdir, cut_before, mkdir_failure, MkdirStep};
use shell::mv::{
    builtin_mv, check_source, mv_failure, rename_into_failure, rename_target, MoveErrorKind, MvPlan,
    RenameTarget, SourceCheck,
};
use shell::rm::{builtin_rm, rm_failure, rm_step, RmArgs, RmStep};

fn words(v: &[&str]) -> Vec<String> {
    v.iter().map(|s| s.to_string()).collect()
}

#[test]
fn echo_joins_with_spaces() {
    assert_eq!(builtin_echo(&["hello", "big", "world"]), "hello big world");
    assert_eq!(builtin_echo(&["a  b"]), "a  b");
    assert_eq!(builtin_echo(&[]), "");
}

#[test]
fn pwd_prints_current_or_complains() {
    assert_eq!(builtin_pwd(&["x"], Some("/tmp".to_string())), Some("pwd: too many arguments".to_string()));
    assert_eq!(builtin_pwd(&[], Some("/tmp".to_string())), Some("/tmp".to_string()));
    assert_eq!(builtin_pwd(&[], None), None);
}

#[test]
fn cat_sources() {
    assert!(matches!(builtin_cat(&[]).as_slice(), [CatSource::Stdin]));
    let s = builtin_cat(&["a", "-", "--", "b"]);
    assert_eq!(s.len(), 4);
    assert!(matches!(&s[0], CatSource::File(f) if f == "a"));
    assert!(matches!(&s[1], CatSource::Stdin));
    assert!(matches!(&s[2], CatSource::Stdin));
    assert!(matches!(&s[3], CatSource::File(f) if f == "b"));
}

#[test]
fn cat_messages_and_end_of_input() {
    assert!(cat_continues("line\n"));
    assert!(!cat_continues(""));
    assert_eq!(cat_open_failure("x"), "cat: x: No such file or directory");
    assert_eq!(cat_read_failure("d"), "cat: d: Is a directory");
}

#[test]
fn cd_targets() {
    assert!(matches!(builtin_cd(&[]), CdRequest::Home));
    assert!(matches!(builtin_cd(&["~"]), CdRequest::Home));
    assert!(matches!(builtin_cd(&["src", "x"]), CdRequest::Target(t) if t == "src"));
    assert_eq!(home_path_for("bob"), "/home/bob");
    assert_eq!(cd_failure("nowhere"), "cd: can't cd to nowhere");
}

#[test]
fn cd_check_walks_components() {
    assert_eq!(check_path("..", "/home/u"), "/home");
    assert_eq!(check_path("a/../b", "/x"), "/x/b");
    assert_eq!(check_path("../..", "/a"), "/");
    assert_eq!(check_path("sub", "/x"), "/x/sub");
    assert_eq!(check_path("/etc", "/x"), "/x/etc");
}

#[test]
fn dispatch_chooses_command() {
    assert!(matches!(dispatch(&vec![]), Dispatch::Nothing));
    assert!(matches!(dispatch(&words(&["cd", ".."])), Dispatch::ChangeDirectory));
    assert!(matches!(dispatch(&words(&["ls", "-l"])), Dispatch::Fork(ChildCommand::Run(Builtin::Ls))));
    assert!(matches!(dispatch(&words(&["echo"])), Dispatch::Fork(ChildCommand::Run(Builtin::Echo))));
    assert!(matches!(dispatch(&words(&["mv", "a", "b"])), Dispatch::Fork(ChildCommand::Run(Builtin::Mv))));
    match dispatch(&words(&["frob", "x"])) {
        Dispatch::Fork(ChildCommand::NotFound(m)) => assert_eq!(m, "Command 'frob' not found"),
        _ => panic!("expected not found"),
    }
}

#[test]
fn repl_reads_lines() {
    assert!(matches!(repl_step("", 0), ReplStep::EndOfInput));
    assert!(matches!(repl_step("  exit \n", 8), ReplStep::Exit));
    assert!(matches!(repl_step("  \n", 3), ReplStep::Skip));
    assert!(matches!(repl_step(" ls -l \n", 8), ReplStep::Run(c) if c == "ls -l"));
    assert!(matches!(repl_step("exit now\n", 9), ReplStep::Run(c) if c == "exit now"));
}

#[test]
fn cp_splits_operands() {
    assert!(matches!(builtin_cp(&[]), CpRequest::Nothing));
    assert!(matches!(builtin_cp(&["a", "b"]),
        CpRequest::Single { source, destination } if source == "a" && destination == "b"));
    assert!(matches!(builtin_cp(&["a", "b", "d"]),
        CpRequest::Multiple { sources, destination } if sources == vec!["a", "b"] && destination == "d"));
    assert!(matches!(builtin_cp(&["d"]),
        CpRequest::Multiple { sources, destination } if sources.is_empty() && destination == "d"));
}

fn facts(source_exists: bool, destination_exists: bool, source_is_file: bool, destination_is_dir: bool) -> SingleFacts {
    SingleFacts { source_exists, destination_exists, source_is_file, destination_is_dir }
}

#[test]
fn cp_single_reports() {
    assert!(matches!(handle_single_file("s", "dst", facts(false, true, true, false)),
        CopyStep::Report(m) if m == "cp: cannot stat 'dst': No such file or directory"));
    assert!(matches!(handle_single_file("s", "dst", facts(true, false, true, false)),
        CopyStep::Report(m) if m == "Pcp: cannot stat 'dst': No a directory"));
    assert!(matches!(handle_single_file("src", "dst", facts(true, true, false, true)),
        CopyStep::Report(m) if m == "\"src\" is not a file"));
    assert!(matches!(handle_single_file("..", "dst", facts(true, true, true, true)),
        CopyStep::Report(m) if m == "Error: Could not extract filename from \"..\""));
}

#[test]
fn cp_single_copies() {
    assert!(matches!(handle_single_file("x/a.txt", "d", facts(true, true, true, true)),
        CopyStep::Copy { from, to } if from == "x/a.txt" && to == "d/a.txt"));
    assert!(matches!(handle_single_file("a.txt", "b.txt", facts(true, true, true, false)),
        CopyStep::Copy { from, to } if from == "a.txt" && to == "b.txt"));
    assert_eq!(copy_file_failure("a"), "cp: cannot open a' for reading: Permission denied");
}

#[test]
fn cp_multiple() {
    assert!(matches!(handle_multiple_files("d", false, true), MultipleStart::NotADirectory(m) if m == "'d' is not a directory"));
    assert!(matches!(handle_multiple_files("d", true, false), MultipleStart::CreateFirst));
    assert!(matches!(handle_multiple_files("d", true, true), MultipleStart::Proceed));
    assert!(matches!(copy_into_step("f", "d", false), CopyIntoStep::Stop(m) if m == "Error: 'f' does not exist"));
    assert!(matches!(copy_into_step("x/f", "d", true), CopyIntoStep::Copy { from, to } if from == "x/f" && to == "d/f"));
    assert!(matches!(copy_into_step("/", "d", true), CopyIntoStep::NoFileName));
    assert_eq!(copy_into_failure("f", "denied"), "Failed to copy 'f': denied");
    assert_eq!(create_dir_failure("denied"), "Failed to create directory: denied");
}

#[test]
fn mv_checks_operands() {
    assert!(matches!(builtin_mv(&["a"], false, false), MvPlan::Report(m) if m == "mv: missing file operand"));
    assert!(matches!(builtin_mv(&["a", "b", "c"], false, false),
        MvPlan::Report(m) if m == "mv: target 'c' is not a directory"));
    assert!(matches!(builtin_mv(&["a", "b", "c"], true, false),
        MvPlan::Report(m) if m == "mv: cannot overwrite non-directory 'c' with multiple sources"));
    assert!(matches!(builtin_mv(&["a", "b", "c"], true, true),
        MvPlan::Move { sources, destination } if sources == vec!["a", "b"] && destination == "c"));
    assert!(matches!(builtin_mv(&["a", "b"], false, false),
        MvPlan::Move { sources, destination } if sources == vec!["a"] && destination == "b"));
}

#[test]
fn mv_failures() {
    let f = mv_failure(MoveErrorKind::NotFound, "s", "d", true, true, "x");
    assert!(f.stop);
    assert_eq!(f.message, "mv: cannot stat 's': No such file or directory");
    let f = mv_failure(MoveErrorKind::InvalidInput, "s", "d", true, false, "x");
    assert!(!f.stop);
    assert_eq!(f.message, "mv: cannot overwrite non-directory 'd' with directory 's'");
    let f = mv_failure(MoveErrorKind::InvalidInput, "s", "d", true, true, "bad input");
    assert_eq!(f.message, "mv: bad input");
    let f = mv_failure(MoveErrorKind::Other, "s", "d", false, false, "oops");
    assert!(!f.stop);
    assert_eq!(f.message, "mv: oops");
}

#[test]
fn mv_sources_and_targets() {
    assert!(matches!(check_source(true, None), SourceCheck::Present));
    assert!(matches!(check_source(false, Some(true)), SourceCheck::DanglingLink));
    assert!(matches!(check_source(false, Some(false)), SourceCheck::NotFound));
    assert!(matches!(check_source(false, None), SourceCheck::NotFound));
    assert!(matches!(rename_target("x/a", "d", true), RenameTarget::Into(p) if p == "d/a"));
    assert!(matches!(rename_target("..", "d", true),
        RenameTarget::Busy(m) if m == "mv: cannot move '..' to 'd': Device or resource busy"));
    assert!(matches!(rename_target("a", "b", false), RenameTarget::Onto(p) if p == "b"));
    assert_eq!(rename_into_failure("e"), "'e'");
}

#[test]
fn rm_scans_arguments() {
    assert!(matches!(builtin_rm(&[]), RmArgs::MissingOperand));
    assert!(matches!(builtin_rm(&["-r"]), RmArgs::NoPaths));
    assert!(matches!(builtin_rm(&["-rf", "x"]), RmArgs::InvalidOption('f')));
    assert!(matches!(builtin_rm(&["x", "-q", "-z"]), RmArgs::InvalidOption('q')));
    assert!(matches!(builtin_rm(&["-r", "a", "b"]),
        RmArgs::Remove { recursive: true, paths } if paths == vec!["a", "b"]));
    assert!(matches!(builtin_rm(&["a", "-"]),
        RmArgs::Remove { recursive: false, paths } if paths == vec!["a", "-"]));
    assert!(matches!(builtin_rm(&["a", "-rr"]),
        RmArgs::Remove { recursive: true, paths } if paths == vec!["a"]));
}

#[test]
fn rm_steps() {
    assert!(matches!(rm_step("p", false, Ok(false), true),
        RmStep::Report(m) if m == "rm: cannot remove 'p': No such file or directory"));
    assert!(matches!(rm_step("p", true, Err("denied".to_string()), true),
        RmStep::Report(m) if m == "rm: cannot access 'p': denied"));
    assert!(matches!(rm_step("p", true, Ok(true), false),
        RmStep::Report(m) if m == "rm: cannot remove 'p': Is a directory"));
    assert!(matches!(rm_step("p", true, Ok(true), true), RmStep::RemoveAll(d) if d == "p"));
    assert!(matches!(rm_step("p", true, Ok(false), false), RmStep::RemoveFile(f) if f == "p"));
    assert_eq!(rm_failure("p", "busy"), "rm: cannot remove 'p': busy");
}

#[test]
fn mkdir_steps() {
    assert!(matches!(builtin_mkdir("d", true),
        MkdirStep::Exists(m) if m == "mkdir: cannot create directory 'd': File exists"));
    assert!(matches!(builtin_mkdir("d", false), MkdirStep::Create(p) if p == "d"));
    assert_eq!(
        mkdir_failure("a/b", "No such file or directory (os error 2)"),
        "mkdir: cannot create directory 'a/b': No such file or directory"
    );
    assert_eq!(mkdir_failure("x", "odd failure"), "mkdir: cannot create directory 'x': odd failure");
}

#[test]
fn cut_before_first_occurrence() {
    assert_eq!(cut_before("abc", "x"), "abc");
    assert_eq!(cut_before("a (os error 1) (os error 2)", " (os error"), "a");
    assert_eq!(cut_before("xyz", "x"), "");
    assert_eq!(cut_before("ab", "abc"), "ab");
}

#[test]
fn mv_steps_for_one_source() {
    assert!(matches!(source_step("s", true, Some(false), true), MoveAction::Proceed));
    assert!(matches!(source_step("s", false, Some(true), true), MoveAction::CopyAndRemove));
    assert!(matches!(source_step("s", false, Some(true), false), MoveAction::Proceed));
    assert!(matches!(source_step("s", false, None, false),
        MoveAction::NotFound(m) if m == "mv: cannot stat 's': No such file or directory"));
    assert!(matches!(source_step("s", false, Some(false), false), MoveAction::NotFound(_)));
    assert!(matches!(place_step("x/a", "d", true), MoveAction::RenameInto(p) if p == "d/a"));
    assert!(matches!(place_step("a", "b", false), MoveAction::RenameOnto(p) if p == "b"));
    assert!(matches!(place_step("..", "d", true),
        MoveAction::Print(m) if m == "mv: cannot move '..' to 'd': Device or resource busy"));
    assert!(matches!(finish_step(true), MoveAction::CopyAndRemove));
    assert!(matches!(finish_step(false), MoveAction::Proceed));
}

#[test]
fn text_joining_and_reversal() {
    assert_eq!(concat2("ab", "c"), "abc");
    assert_eq!(concat3("a", "", "c"), "ac");
    assert_eq!(concat4("ls: ", "x", ": ", "y"), "ls: x: y");
    assert_eq!(reversed(vec![1, 2, 3]), vec![3, 2, 1]);
    assert!(reversed(Vec::<u8>::new()).is_empty());
}
