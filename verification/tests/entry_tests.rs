use shell::entry::{
    calculate_max_widths, format_entry, format_long_entry, format_permissions, format_short_entry,
    get_file_type_info, owner_label, EntryInfo, FileKind, LsOptions, MaxWidths,
};

const RESET: &str = "\x1b[0m";

fn info(kind: FileKind, mode: u32) -> EntryInfo {
    EntryInfo {
        kind,
        mode,
        links: 1,
        uid: 1000,
        user_name: Some("alice".to_string()),
        gid: 100,
        group_name: Some("staff".to_string()),
        size: 42,
        blocks: 8,
        date: Ok("Jan  1 01:00".to_string()),
        link_target: None,
    }
}

fn opts(show_hidden: bool, long_format: bool, f_type: bool) -> LsOptions {
    LsOptions { show_hidden, long_format, f_type }
}

fn widths(l: usize, u: usize, g: usize, s: usize) -> MaxWidths {
    MaxWidths { max_links: l, max_user: u, max_group: g, max_size: s }
}

#[test]
fn permissions_of_common_modes() {
    assert_eq!(format_permissions(0o755), "rwxr-xr-x");
    assert_eq!(format_permissions(0o644), "rw-r--r--");
    assert_eq!(format_permissions(0o100644), "rw-r--r--");
    assert_eq!(format_permissions(0o40700), "rwx------");
    assert_eq!(format_permissions(0o100), "--x------");
}

#[test]
fn permissions_show_special_bits() {
    assert_eq!(format_permissions(0o4755), "rwsr-xr-x");
    assert_eq!(format_permissions(0o4644), "rwSr--r--");
    assert_eq!(format_permissions(0o2755), "rwxr-sr-x");
    assert_eq!(format_permissions(0o2644), "rw-r-Sr--");
    assert_eq!(format_permissions(0o1777), "rwxrwxrwt");
    assert_eq!(format_permissions(0o1776), "rwxrwxrwT");
    assert_eq!(format_permissions(0o7000), "--S--S--T");
}

#[test]
fn permissions_depend_only_on_low_twelve_bits() {
    assert_eq!(format_permissions(0o100750), format_permissions(0o40750));
    assert_ne!(format_permissions(0o750), format_permissions(0o751));
}

#[test]
fn type_info_per_kind() {
    let exe = get_file_type_info(FileKind::Regular, 0o100755);
    assert_eq!((exe.indicator, exe.file_type, exe.color), ("*", "-", "\x1b[1;32m"));
    let plain = get_file_type_info(FileKind::Regular, 0o100644);
    assert_eq!((plain.indicator, plain.file_type, plain.color), ("", "-", "\x1b[0m"));
    let group_exec = get_file_type_info(FileKind::Regular, 0o100614);
    assert_eq!(group_exec.indicator, "*");
    let dir = get_file_type_info(FileKind::Directory, 0o40755);
    assert_eq!((dir.indicator, dir.file_type, dir.color), ("/", "d", "\x1b[1;34m"));
    let link = get_file_type_info(FileKind::Symlink, 0o120777);
    assert_eq!((link.indicator, link.file_type, link.color), ("@", "l", "\x1b[1;36m"));
    let fifo = get_file_type_info(FileKind::Fifo, 0o10644);
    assert_eq!((fifo.indicator, fifo.file_type, fifo.color), ("|", "p", "\x1b[1;33m"));
    let sock = get_file_type_info(FileKind::Socket, 0o140755);
    assert_eq!((sock.indicator, sock.file_type, sock.color), ("=", "s", "\x1b[1;35m"));
    let blk = get_file_type_info(FileKind::BlockDevice, 0o60660);
    assert_eq!((blk.indicator, blk.file_type, blk.color), ("", "b", "\x1b[1;33;40m"));
    let chr = get_file_type_info(FileKind::CharDevice, 0o20666);
    assert_eq!((chr.indicator, chr.file_type, chr.color), ("", "c", "\x1b[1;33;40m"));
    let other = get_file_type_info(FileKind::Other, 0o755);
    assert_eq!((other.indicator, other.file_type, other.color), ("", "-", "\x1b[0m"));
}

#[test]
fn short_form() {
    let dir = get_file_type_info(FileKind::Directory, 0o40755);
    assert_eq!(format_short_entry("src", opts(false, false, false), &dir, RESET), "\x1b[1;34msrc\x1b[0m ");
    assert_eq!(format_short_entry("src", opts(false, false, true), &dir, RESET), "\x1b[1;34msrc\x1b[0m/ ");
}

#[test]
fn owner_label_falls_back_to_number() {
    assert_eq!(owner_label(&Some("root".to_string()), 0), "root");
    assert_eq!(owner_label(&None, 1001), "1001");
}

#[test]
fn long_form_of_a_file() {
    let e = info(FileKind::Regular, 0o100644);
    let line = format_long_entry("notes.txt", &e, "Jan  1 01:00", opts(false, true, false), widths(2, 6, 5, 3));
    assert_eq!(line, "-rw-r--r--  1  alice staff  42 Jan  1 01:00 \x1b[0mnotes.txt\x1b[0m\n");
}

#[test]
fn long_form_of_a_link_shows_target_and_indicator() {
    let mut e = info(FileKind::Symlink, 0o120777);
    e.link_target = Some("target".to_string());
    e.user_name = None;
    let line = format_long_entry("ln", &e, "Mar  3  2020", opts(false, true, true), widths(1, 4, 5, 2));
    assert_eq!(line, "lrwxrwxrwx 1 1000 staff 42 Mar  3  2020 \x1b[1;36mln\x1b[0m -> target@\n");
}

#[test]
fn format_entry_short_and_long() {
    let e = info(FileKind::Regular, 0o100755);
    assert_eq!(
        format_entry("run.sh", &e, opts(false, false, true), widths(0, 0, 0, 0)),
        Ok("\x1b[1;32mrun.sh\x1b[0m* ".to_string())
    );
    assert_eq!(
        format_entry("run.sh", &e, opts(false, true, false), widths(0, 0, 0, 0)),
        Ok("-rwxr-xr-x 1 alice staff 42 Jan  1 01:00 \x1b[1;32mrun.sh\x1b[0m\n".to_string())
    );
}

#[test]
fn format_entry_reports_unreadable_date() {
    let mut e = info(FileKind::Regular, 0o100644);
    e.date = Err("unsupported".to_string());
    assert_eq!(
        format_entry("f", &e, opts(false, true, false), widths(0, 0, 0, 0)),
        Err("error reading date: unsupported".to_string())
    );
    assert!(format_entry("f", &e, opts(false, false, false), widths(0, 0, 0, 0)).is_ok());
}

#[test]
fn widths_are_column_maxima() {
    let mut a = info(FileKind::Regular, 0o100644);
    a.links = 12;
    a.size = 5;
    let mut b = info(FileKind::Directory, 0o40755);
    b.user_name = None;
    b.uid = 123456;
    b.group_name = Some("wheelé".to_string());
    b.size = 4096;
    let w = calculate_max_widths(&vec![a, b]);
    assert_eq!((w.max_links, w.max_user, w.max_group, w.max_size), (2, 6, 7, 4));
    let none = calculate_max_widths(&vec![]);
    assert_eq!((none.max_links, none.max_user, none.max_group, none.max_size), (0, 0, 0, 0));
}
