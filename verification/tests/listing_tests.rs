use shell::entry::{EntryInfo, FileKind, LsOptions};
use shell::listing::{list_directory, list_file, listing_allowed_check, starts_with_dot, DirFacts, DirListing, FileFacts};
use shell::output::Emit;
use shell::sorting::{name_sort_key, sort_items, DirItem};

fn info(kind: FileKind, mode: u32, blocks: u64) -> EntryInfo {
    EntryInfo {
        kind,
        mode,
        links: 1,
        uid: 0,
        user_name: Some("root".to_string()),
        gid: 0,
        group_name: Some("root".to_string()),
        size: 10,
        blocks,
        date: Ok("Jan  1 01:00".to_string()),
        link_target: None,
    }
}

fn file(name: &str) -> DirItem {
    DirItem { name: name.to_string(), metadata: Ok(info(FileKind::Regular, 0o100644, 8)) }
}

fn opts(show_hidden: bool, long_format: bool, f_type: bool) -> LsOptions {
    LsOptions { show_hidden, long_format, f_type }
}

fn shown(out: &[Emit]) -> Vec<(bool, String)> {
    out.iter().map(|e| (e.to_stderr, e.text.clone())).collect()
}

fn out(s: &str) -> (bool, String) {
    (false, s.to_string())
}

fn err(s: &str) -> (bool, String) {
    (true, s.to_string())
}

fn names(items: &[DirItem]) -> Vec<String> {
    items.iter().map(|i| i.name.clone()).collect()
}

#[test]
fn sort_key_lowercases_and_drops_one_dot() {
    assert_eq!(name_sort_key(".Hello"), "hello");
    assert_eq!(name_sort_key("..x"), ".x");
    assert_eq!(name_sort_key("ABC"), "abc");
    assert_eq!(name_sort_key(""), "");
}

#[test]
fn sorting_ignores_case_and_leading_dot_and_is_stable() {
    let sorted = sort_items(vec![file("b"), file(".a"), file("A"), file("c")]);
    assert_eq!(names(&sorted), vec![".a", "A", "b", "c"]);
    let sorted = sort_items(vec![file("A"), file(".a"), file("a")]);
    assert_eq!(names(&sorted), vec!["A", ".a", "a"]);
    assert!(sort_items(vec![]).is_empty());
}

#[test]
fn short_listing_hides_dot_files() {
    let facts = DirFacts {
        listing: DirListing::Items(vec![file("b"), file(".a"), file("A"), file("c")]),
        dot: None,
        dotdot: None,
    };
    let r = list_directory("d", facts, opts(false, false, false), false);
    assert_eq!(shown(&r), vec![out("\x1b[0mA\x1b[0m \x1b[0mb\x1b[0m \x1b[0mc\x1b[0m\n")]);
}

#[test]
fn all_listing_starts_with_dot_entries_and_has_header() {
    let facts = DirFacts {
        listing: DirListing::Items(vec![file("b"), file(".a")]),
        dot: Some(info(FileKind::Directory, 0o40755, 8)),
        dotdot: Some(info(FileKind::Directory, 0o40755, 8)),
    };
    let r = list_directory("d", facts, opts(true, false, true), true);
    assert_eq!(
        shown(&r),
        vec![
            out("d:\n"),
            out("\x1b[1;34m.\x1b[0m/ \x1b[1;34m..\x1b[0m/ \x1b[0m.a\x1b[0m \x1b[0mb\x1b[0m\n"),
        ]
    );
}

#[test]
fn long_listing_prints_total_and_aligned_rows() {
    let mut big = info(FileKind::Regular, 0o100600, 4);
    big.size = 1000;
    let facts = DirFacts {
        listing: DirListing::Items(vec![
            DirItem { name: "z".to_string(), metadata: Ok(big) },
            DirItem { name: "y".to_string(), metadata: Err("gone".to_string()) },
            file("x"),
        ]),
        dot: None,
        dotdot: None,
    };
    let r = list_directory("d", facts, opts(false, true, false), false);
    assert_eq!(
        shown(&r),
        vec![
            err("ls: error reading metadata for 'y': gone\n"),
            out("total 6\n"),
            out("-rw-r--r-- 1 root root   10 Jan  1 01:00 \x1b[0mx\x1b[0m\n-rw------- 1 root root 1000 Jan  1 01:00 \x1b[0mz\x1b[0m\n"),
        ]
    );
}

#[test]
fn unreadable_date_is_reported_and_skipped() {
    let mut bad = info(FileKind::Regular, 0o100644, 0);
    bad.date = Err("no time".to_string());
    let facts = DirFacts {
        listing: DirListing::Items(vec![DirItem { name: "a".to_string(), metadata: Ok(bad) }]),
        dot: None,
        dotdot: None,
    };
    let r = list_directory("d", facts, opts(false, true, false), false);
    assert_eq!(shown(&r), vec![out("total 0\n"), err("ls: error reading date: no time\n")]);
}

#[test]
fn empty_directory_prints_nothing() {
    let facts = DirFacts { listing: DirListing::Items(vec![]), dot: None, dotdot: None };
    assert!(list_directory("d", facts, opts(false, false, false), false).is_empty());
}

#[test]
fn directory_errors() {
    let facts = DirFacts { listing: DirListing::ReadFailed("Permission denied (os error 13)".to_string()), dot: None, dotdot: None };
    let r = list_directory("secret", facts, opts(false, false, false), true);
    assert_eq!(shown(&r), vec![err("ls: cannot access 'secret': Permission denied (os error 13)\n")]);
    let facts = DirFacts { listing: DirListing::CollectFailed("I/O error".to_string()), dot: None, dotdot: None };
    let r = list_directory("d", facts, opts(false, false, false), false);
    assert_eq!(shown(&r), vec![err("ls: error reading directory 'd': I/O error\n")]);
}

#[test]
fn file_operand_is_shown_by_last_component() {
    let r = list_file("some/dir/notes", FileFacts::Entry(info(FileKind::Regular, 0o100644, 8)), opts(false, false, false));
    assert_eq!(shown(&r), vec![out("\x1b[0mnotes\x1b[0m ")]);
    let r = list_file("some/notes", FileFacts::Entry(info(FileKind::Regular, 0o100644, 8)), opts(false, true, false));
    assert_eq!(shown(&r), vec![out("-rw-r--r-- 1 root root 10 Jan  1 01:00 \x1b[0mnotes\x1b[0m\n")]);
    let r = list_file("..", FileFacts::Entry(info(FileKind::Directory, 0o40755, 8)), opts(false, false, false));
    assert_eq!(shown(&r), vec![out("\x1b[1;34m..\x1b[0m ")]);
    let r = list_file("ghost", FileFacts::Unreadable("No such file or directory (os error 2)".to_string()), opts(false, false, false));
    assert_eq!(shown(&r), vec![err("ls: cannot access 'ghost': No such file or directory (os error 2)\n")]);
}

#[test]
fn listing_check_rejects_short_modes_under_long_format() {
    let ok = DirFacts { listing: DirListing::Items(vec![file("a")]), dot: None, dotdot: None };
    assert!(listing_allowed_check(&ok, opts(false, true, false)));
    let low = DirFacts {
        listing: DirListing::Items(vec![DirItem { name: "a".to_string(), metadata: Ok(info(FileKind::Regular, 0o44, 0)) }]),
        dot: None,
        dotdot: None,
    };
    assert!(!listing_allowed_check(&low, opts(false, true, false)));
    assert!(listing_allowed_check(&low, opts(false, false, false)));
    let hidden_low = DirFacts {
        listing: DirListing::Items(vec![DirItem { name: ".a".to_string(), metadata: Ok(info(FileKind::Regular, 0o44, 0)) }]),
        dot: None,
        dotdot: None,
    };
    assert!(listing_allowed_check(&hidden_low, opts(false, true, false)));
    assert!(!listing_allowed_check(&hidden_low, opts(true, true, false)));
}

#[test]
fn dot_prefix() {
    assert!(starts_with_dot(".x"));
    assert!(!starts_with_dot("x."));
    assert!(!starts_with_dot(""));
}
