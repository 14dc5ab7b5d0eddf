//! How `ls` renders one directory entry: the permission column, the
//! file-type letter, colour and indicator, the short and long forms, and
//! the column widths of a long listing.

use vstd::prelude::*;
use vstd::string::*;
use crate::text::{byte_count, dec, decimal, pad_left, pad_left_spec, push_char, utf8_len};

verus! {

/// The three characters for one octal permission digit.
pub open spec fn triad(d: nat) -> Seq<char> {
    if d == 7 {
        seq!['r', 'w', 'x']
    } else if d == 6 {
        seq!['r', 'w', '-']
    } else if d == 5 {
        seq!['r', '-', 'x']
    } else if d == 4 {
        seq!['r', '-', '-']
    } else if d == 3 {
        seq!['-', 'w', 'x']
    } else if d == 2 {
        seq!['-', 'w', '-']
    } else if d == 1 {
        seq!['-', '-', 'x']
    } else {
        seq!['-', '-', '-']
    }
}

/// A triad with its execute position replaced when a special bit is set:
/// `lower` over an `x`, `upper` over a `-`.
pub open spec fn marked(t: Seq<char>, set: bool, lower: char, upper: char) -> Seq<char> {
    if set {
        t.update(2, if t[2] == 'x' { lower } else { upper })
    } else {
        t
    }
}

/// The nine characters for special digit `sp` and digits `a`, `b`, `c`
/// (owner, group, other).
pub open spec fn perm_of_digits(sp: nat, a: nat, b: nat, c: nat) -> Seq<char> {
    marked(triad(a), sp >= 4, 's', 'S')
        + marked(triad(b), sp == 2 || sp == 3 || sp == 6 || sp == 7, 's', 'S')
        + marked(triad(c), sp % 2 == 1, 't', 'T')
}

/// The nine-character symbolic form of a file mode: owner, group and
/// other triads, with set-user-id, set-group-id and sticky shown as
/// `s`/`S`, `s`/`S` and `t`/`T`.
pub open spec fn permission_string(mode: nat) -> Seq<char> {
    perm_of_digits((mode / 512) % 8, (mode / 64) % 8, (mode / 8) % 8, mode % 8)
}

fn push_triad(r: &mut String, d: u32, set: bool, lower: char, upper: char)
    requires
        d < 8,
    ensures
        final(r)@ == old(r)@ + marked(triad(d as nat), set, lower, upper),
{
    let (a, b, c) = if d == 7 {
        ('r', 'w', 'x')
    } else if d == 6 {
        ('r', 'w', '-')
    } else if d == 5 {
        ('r', '-', 'x')
    } else if d == 4 {
        ('r', '-', '-')
    } else if d == 3 {
        ('-', 'w', 'x')
    } else if d == 2 {
        ('-', 'w', '-')
    } else if d == 1 {
        ('-', '-', 'x')
    } else {
        ('-', '-', '-')
    };
    let c = if set {
        if c == 'x' { lower } else { upper }
    } else {
        c
    };
    push_char(r, a);
    push_char(r, b);
    push_char(r, c);
    proof {
        assert(final(r)@ =~= old(r)@ + marked(triad(d as nat), set, lower, upper));
    }
}

/// Renders the permission bits of `mode` symbolically.  Modes below
/// `0o100` have fewer than three octal digits and are not accepted.
pub fn format_permissions(mode: u32) -> (r: String)
    requires
        mode >= 64,
    ensures
        r@ == permission_string(mode as nat),
        r@.len() == 9,
{
    let special = (mode / 512) % 8;
    let mut r = String::new();
    push_triad(&mut r, (mode / 64) % 8, special >= 4, 's', 'S');
    push_triad(&mut r, (mode / 8) % 8, special == 2 || special == 3 || special == 6 || special == 7, 's', 'S');
    push_triad(&mut r, mode % 8, special % 2 == 1, 't', 'T');
    proof {
        assert(r@ =~= permission_string(mode as nat));
    }
    r
}

proof fn lemma_marked_triad_injective(d1: nat, s1: bool, d2: nat, s2: bool, lower: char, upper: char)
    requires
        d1 < 8,
        d2 < 8,
        lower != upper,
        lower != 'x' && lower != '-' && upper != 'x' && upper != '-',
        marked(triad(d1), s1, lower, upper) == marked(triad(d2), s2, lower, upper),
    ensures
        d1 == d2,
        s1 == s2,
{
    let m1 = marked(triad(d1), s1, lower, upper);
    let m2 = marked(triad(d2), s2, lower, upper);
    assert(m1[0] == m2[0] && m1[1] == m2[1] && m1[2] == m2[2]);
}

proof fn lemma_low_bits(m: u32)
    ensures
        m % 4096 == ((m / 512) % 8) * 512 + ((m / 64) % 8) * 64 + ((m / 8) % 8) * 8 + m % 8,
        (m / 512) % 8 < 8,
{
    assert(m % 4096 == ((m / 512) % 8) * 512 + ((m / 64) % 8) * 64 + ((m / 8) % 8) * 8 + m % 8)
        by (bit_vector);
}

proof fn lemma_low_bits_agree(m1: u32, m2: u32)
    requires
        m1 % 4096 == m2 % 4096,
    ensures
        (m1 / 512) % 8 == (m2 / 512) % 8,
        (m1 / 64) % 8 == (m2 / 64) % 8,
        (m1 / 8) % 8 == (m2 / 8) % 8,
        m1 % 8 == m2 % 8,
{
    assert(m1 % 4096 == m2 % 4096 ==> (m1 / 512) % 8 == (m2 / 512) % 8 && (m1 / 64) % 8 == (m2 / 64) % 8
        && (m1 / 8) % 8 == (m2 / 8) % 8 && m1 % 8 == m2 % 8) by (bit_vector);
}

proof fn lemma_special_determined(sp1: nat, sp2: nat)
    requires
        sp1 < 8,
        sp2 < 8,
        (sp1 >= 4) == (sp2 >= 4),
        (sp1 == 2 || sp1 == 3 || sp1 == 6 || sp1 == 7) == (sp2 == 2 || sp2 == 3 || sp2 == 6 || sp2 == 7),
        (sp1 % 2 == 1) == (sp2 % 2 == 1),
    ensures
        sp1 == sp2,
{
}

proof fn lemma_marked_len(d: nat, set: bool, lower: char, upper: char)
    ensures
        marked(triad(d), set, lower, upper).len() == 3,
{
}

proof fn lemma_split3(x1: Seq<char>, y1: Seq<char>, z1: Seq<char>, x2: Seq<char>, y2: Seq<char>, z2: Seq<char>)
    requires
        x1.len() == 3, y1.len() == 3, z1.len() == 3, x2.len() == 3, y2.len() == 3, z2.len() == 3,
        x1 + y1 + z1 == x2 + y2 + z2,
    ensures
        x1 == x2 && y1 == y2 && z1 == z2,
{
    let p1 = x1 + y1 + z1;
    let p2 = x2 + y2 + z2;
    assert(x1 =~= p1.subrange(0, 3));
    assert(x2 =~= p2.subrange(0, 3));
    assert(y1 =~= p1.subrange(3, 6));
    assert(y2 =~= p2.subrange(3, 6));
    assert(z1 =~= p1.subrange(6, 9));
    assert(z2 =~= p2.subrange(6, 9));
}

proof fn lemma_same_string_same_digits(sp1: nat, a1: nat, b1: nat, c1: nat, sp2: nat, a2: nat, b2: nat, c2: nat)
    requires
        sp1 < 8, a1 < 8, b1 < 8, c1 < 8, sp2 < 8, a2 < 8, b2 < 8, c2 < 8,
        perm_of_digits(sp1, a1, b1, c1) == perm_of_digits(sp2, a2, b2, c2),
    ensures
        sp1 == sp2 && a1 == a2 && b1 == b2 && c1 == c2,
{
    let g1 = sp1 == 2 || sp1 == 3 || sp1 == 6 || sp1 == 7;
    let g2 = sp2 == 2 || sp2 == 3 || sp2 == 6 || sp2 == 7;
    lemma_marked_len(a1, sp1 >= 4, 's', 'S');
    lemma_marked_len(a2, sp2 >= 4, 's', 'S');
    lemma_marked_len(b1, g1, 's', 'S');
    lemma_marked_len(b2, g2, 's', 'S');
    lemma_marked_len(c1, sp1 % 2 == 1, 't', 'T');
    lemma_marked_len(c2, sp2 % 2 == 1, 't', 'T');
    lemma_split3(
        marked(triad(a1), sp1 >= 4, 's', 'S'), marked(triad(b1), g1, 's', 'S'), marked(triad(c1), sp1 % 2 == 1, 't', 'T'),
        marked(triad(a2), sp2 >= 4, 's', 'S'), marked(triad(b2), g2, 's', 'S'), marked(triad(c2), sp2 % 2 == 1, 't', 'T'),
    );
    lemma_marked_triad_injective(a1, sp1 >= 4, a2, sp2 >= 4, 's', 'S');
    lemma_marked_triad_injective(b1, g1, b2, g2, 's', 'S');
    lemma_marked_triad_injective(c1, sp1 % 2 == 1, c2, sp2 % 2 == 1, 't', 'T');
    lemma_special_determined(sp1, sp2);
}

/// The permission column determines the twelve permission bits of the
/// mode and nothing else: two modes (of at least `0o100`) render alike
/// exactly when their low twelve bits agree.
pub proof fn law_permissions_determine_mode_bits(m1: u32, m2: u32)
    requires
        m1 >= 64,
        m2 >= 64,
    ensures
        permission_string(m1 as nat) == permission_string(m2 as nat) <==> m1 % 4096 == m2 % 4096,
{
    lemma_low_bits(m1);
    lemma_low_bits(m2);
    if permission_string(m1 as nat) == permission_string(m2 as nat) {
        lemma_same_string_same_digits(
            ((m1 / 512) % 8) as nat, ((m1 / 64) % 8) as nat, ((m1 / 8) % 8) as nat, (m1 % 8) as nat,
            ((m2 / 512) % 8) as nat, ((m2 / 64) % 8) as nat, ((m2 / 8) % 8) as nat, (m2 % 8) as nat,
        );
    }
    if m1 % 4096 == m2 % 4096 {
        lemma_low_bits_agree(m1, m2);
    }
}

/// What kind of file an entry is, as far as `ls` distinguishes.
#[derive(Clone, Copy, PartialEq, Eq, Structural)]
pub enum FileKind {
    Symlink,
    Directory,
    Regular,
    Fifo,
    Socket,
    BlockDevice,
    CharDevice,
    Other,
}

/// Everything `ls` reads about one entry besides its name.
pub struct EntryInfo {
    pub kind: FileKind,
    /// The full `st_mode` (type bits included).
    pub mode: u32,
    pub links: u64,
    pub uid: u32,
    /// The owner's user name, when the user database knows `uid`.
    pub user_name: Option<String>,
    pub gid: u32,
    /// The group's name, when the group database knows `gid`.
    pub group_name: Option<String>,
    pub size: u64,
    /// Allocated 512-byte blocks.
    pub blocks: u64,
    /// The modification date as shown, or the text of the error met reading it.
    pub date: Result<String, String>,
    /// Where a symbolic link points, when it could be read.
    pub link_target: Option<String>,
}

/// Options of `ls`.
#[derive(Clone, Copy, PartialEq, Eq, Structural)]
pub struct LsOptions {
    /// `-a`
    pub show_hidden: bool,
    /// `-l`
    pub long_format: bool,
    /// `-F`
    pub f_type: bool,
}

/// Field widths of the numeric and name columns of a long listing.
#[derive(Clone, Copy)]
pub struct MaxWidths {
    pub max_links: usize,
    pub max_user: usize,
    pub max_group: usize,
    pub max_size: usize,
}

/// Indicator, type letter and colour of an entry.
pub struct FileTypeInfo {
    pub indicator: &'static str,
    pub file_type: &'static str,
    pub color: &'static str,
}

pub open spec fn exec_bits(mode: u32) -> bool {
    mode & 73u32 != 0u32
}

/// The `-F` indicator of an entry.
pub open spec fn type_indicator(kind: FileKind, mode: u32) -> Seq<char> {
    match kind {
        FileKind::Symlink => "@"@,
        FileKind::Directory => "/"@,
        FileKind::Regular => if exec_bits(mode) { "*"@ } else { ""@ },
        FileKind::Fifo => "|"@,
        FileKind::Socket => "="@,
        _ => ""@,
    }
}

/// The type letter of the long form.
pub open spec fn type_letter(kind: FileKind, mode: u32) -> Seq<char> {
    match kind {
        FileKind::Symlink => "l"@,
        FileKind::Directory => "d"@,
        FileKind::Regular => "-"@,
        FileKind::Fifo => "p"@,
        FileKind::Socket => "s"@,
        FileKind::BlockDevice => "b"@,
        FileKind::CharDevice => "c"@,
        FileKind::Other => "-"@,
    }
}

/// The terminal colour sequence an entry's name is shown in.
pub open spec fn type_color(kind: FileKind, mode: u32) -> Seq<char> {
    match kind {
        FileKind::Symlink => "\x1b[1;36m"@,
        FileKind::Directory => "\x1b[1;34m"@,
        FileKind::Regular => if exec_bits(mode) { "\x1b[1;32m"@ } else { "\x1b[0m"@ },
        FileKind::Fifo => "\x1b[1;33m"@,
        FileKind::Socket => "\x1b[1;35m"@,
        FileKind::BlockDevice => "\x1b[1;33;40m"@,
        FileKind::CharDevice => "\x1b[1;33;40m"@,
        FileKind::Other => "\x1b[0m"@,
    }
}

pub open spec fn reset_seq() -> Seq<char> {
    "\x1b[0m"@
}

/// Classifies an entry.
pub fn get_file_type_info(kind: FileKind, mode: u32) -> (r: FileTypeInfo)
    ensures
        r.indicator@ == type_indicator(kind, mode),
        r.file_type@ == type_letter(kind, mode),
        r.color@ == type_color(kind, mode),
{
    match kind {
        FileKind::Symlink => FileTypeInfo { indicator: "@", file_type: "l", color: "\x1b[1;36m" },
        FileKind::Directory => FileTypeInfo { indicator: "/", file_type: "d", color: "\x1b[1;34m" },
        FileKind::Regular => if mode & 73u32 != 0u32 {
            FileTypeInfo { indicator: "*", file_type: "-", color: "\x1b[1;32m" }
        } else {
            FileTypeInfo { indicator: "", file_type: "-", color: "\x1b[0m" }
        },
        FileKind::Fifo => FileTypeInfo { indicator: "|", file_type: "p", color: "\x1b[1;33m" },
        FileKind::Socket => FileTypeInfo { indicator: "=", file_type: "s", color: "\x1b[1;35m" },
        FileKind::BlockDevice => FileTypeInfo { indicator: "", file_type: "b", color: "\x1b[1;33;40m" },
        FileKind::CharDevice => FileTypeInfo { indicator: "", file_type: "c", color: "\x1b[1;33;40m" },
        FileKind::Other => FileTypeInfo { indicator: "", file_type: "-", color: "\x1b[0m" },
    }
}

/// The short form: coloured name, `-F` indicator, one space.
pub open spec fn short_entry(name: Seq<char>, kind: FileKind, mode: u32, f_type: bool) -> Seq<char> {
    type_color(kind, mode) + name + reset_seq() + (if f_type { type_indicator(kind, mode) } else { ""@ }) + " "@
}

/// Formats the short form of an entry.
pub fn format_short_entry(file_str: &str, options: LsOptions, file_info: &FileTypeInfo, reset: &str) -> (r: String)
    ensures
        r@ == file_info.color@ + file_str@ + reset@ + (if options.f_type { file_info.indicator@ } else { ""@ }) + " "@,
{
    let mut r = file_info.color.to_owned();
    r.append(file_str);
    r.append(reset);
    if options.f_type {
        r.append(file_info.indicator);
    } else {
        r.append("");
    }
    r.append(" ");
    r
}

/// The owner or group column: the name, or the number when there is none.
pub open spec fn id_label(name: Option<String>, id: nat) -> Seq<char> {
    match name {
        Some(n) => n@,
        None => dec(id),
    }
}

/// Computes `id_label`.
pub fn owner_label(name: &Option<String>, id: u32) -> (r: String)
    ensures
        r@ == id_label(*name, id as nat),
{
    match name {
        Some(n) => n.clone(),
        None => decimal(id as u64),
    }
}

/// The name column of the long form: coloured name, then ` -> target` for
/// a symbolic link whose target could be read.
pub open spec fn name_display(name: Seq<char>, e: EntryInfo) -> Seq<char> {
    let base = type_color(e.kind, e.mode) + name + reset_seq();
    if e.kind == FileKind::Symlink && e.link_target is Some {
        base + " -> "@ + e.link_target->0@
    } else {
        base
    }
}

/// The long form of an entry, given its date column.
pub open spec fn long_entry(name: Seq<char>, e: EntryInfo, date: Seq<char>, f_type: bool, w: MaxWidths) -> Seq<char> {
    type_letter(e.kind, e.mode) + permission_string(e.mode as nat)
        + " "@ + pad_left_spec(dec(e.links as nat), w.max_links as nat)
        + " "@ + pad_left_spec(id_label(e.user_name, e.uid as nat), w.max_user as nat)
        + " "@ + pad_left_spec(id_label(e.group_name, e.gid as nat), w.max_group as nat)
        + " "@ + pad_left_spec(dec(e.size as nat), w.max_size as nat)
        + " "@ + date
        + " "@ + name_display(name, e)
        + (if f_type { type_indicator(e.kind, e.mode) } else { ""@ })
        + "\n"@
}

/// What `ls` prints for an entry: the short form, the long form, or, when
/// the long form needs a date that could not be read, the error text.
pub open spec fn entry_spec(name: Seq<char>, e: EntryInfo, options: LsOptions, w: MaxWidths) -> Result<Seq<char>, Seq<char>> {
    if options.long_format {
        match e.date {
            Ok(d) => Ok(long_entry(name, e, d@, options.f_type, w)),
            Err(t) => Err("error reading date: "@ + t@),
        }
    } else {
        Ok(short_entry(name, e.kind, e.mode, options.f_type))
    }
}

pub open spec fn result_view(r: Result<String, String>) -> Result<Seq<char>, Seq<char>> {
    match r {
        Ok(s) => Ok(s@),
        Err(s) => Err(s@),
    }
}

fn format_filename_with_symlink(name: &str, e: &EntryInfo, info: &FileTypeInfo) -> (r: String)
    requires
        info.color@ == type_color(e.kind, e.mode),
    ensures
        r@ == name_display(name@, *e),
{
    let mut r = info.color.to_owned();
    r.append(name);
    r.append("\x1b[0m");
    if e.kind == FileKind::Symlink {
        match &e.link_target {
            Some(t) => {
                r.append(" -> ");
                r.append(t.as_str());
            },
            None => {},
        }
    }
    r
}

/// Formats the long form of an entry, given its date column.
pub fn format_long_entry(name: &str, e: &EntryInfo, date: &str, options: LsOptions, w: MaxWidths) -> (r: String)
    requires
        e.mode >= 64,
    ensures
        r@ == long_entry(name@, *e, date@, options.f_type, w),
{
    let info = get_file_type_info(e.kind, e.mode);
    let mut r = info.file_type.to_owned();
    let perms = format_permissions(e.mode);
    r.append(perms.as_str());
    r.append(" ");
    let links = pad_left(decimal(e.links).as_str(), w.max_links);
    r.append(links.as_str());
    r.append(" ");
    let user = pad_left(owner_label(&e.user_name, e.uid).as_str(), w.max_user);
    r.append(user.as_str());
    r.append(" ");
    let group = pad_left(owner_label(&e.group_name, e.gid).as_str(), w.max_group);
    r.append(group.as_str());
    r.append(" ");
    let size = pad_left(decimal(e.size).as_str(), w.max_size);
    r.append(size.as_str());
    r.append(" ");
    r.append(date);
    r.append(" ");
    let display = format_filename_with_symlink(name, e, &info);
    r.append(display.as_str());
    if options.f_type {
        r.append(info.indicator);
    } else {
        r.append("");
    }
    r.append("\n");
    r
}

/// Formats an entry as `ls` prints it (see `entry_spec`).
pub fn format_entry(name: &str, e: &EntryInfo, options: LsOptions, w: MaxWidths) -> (r: Result<String, String>)
    requires
        options.long_format ==> e.mode >= 64,
    ensures
        result_view(r) == entry_spec(name@, *e, options, w),
{
    if options.long_format {
        match &e.date {
            Ok(d) => Ok(format_long_entry(name, e, d.as_str(), options, w)),
            Err(t) => {
                let mut m = "error reading date: ".to_owned();
                m.append(t.as_str());
                Err(m)
            },
        }
    } else {
        let info = get_file_type_info(e.kind, e.mode);
        Ok(format_short_entry(name, options, &info, "\x1b[0m"))
    }
}

pub open spec fn max_nat(a: nat, b: nat) -> nat {
    if a >= b { a } else { b }
}

/// Column widths for `es`: the longest rendering of each column (owner
/// and group measured in bytes).
pub open spec fn widths_of(es: Seq<EntryInfo>) -> (nat, nat, nat, nat)
    decreases es.len(),
{
    if es.len() == 0 {
        (0, 0, 0, 0)
    } else {
        let (l, u, g, z) = widths_of(es.drop_last());
        let e = es.last();
        (
            max_nat(l, dec(e.links as nat).len()),
            max_nat(u, utf8_len(id_label(e.user_name, e.uid as nat))),
            max_nat(g, utf8_len(id_label(e.group_name, e.gid as nat))),
            max_nat(z, dec(e.size as nat).len()),
        )
    }
}

pub open spec fn widths_match(w: MaxWidths, es: Seq<EntryInfo>) -> bool {
    let (l, u, g, z) = widths_of(es);
    w.max_links == l && w.max_user == u && w.max_group == g && w.max_size == z
}

/// Computes the column widths of a long listing of `items`.
pub fn calculate_max_widths(items: &Vec<EntryInfo>) -> (r: MaxWidths)
    ensures
        widths_match(r, items@),
{
    let mut w = MaxWidths { max_links: 0, max_user: 0, max_group: 0, max_size: 0 };
    let mut i: usize = 0;
    while i < items.len()
        invariant
            i <= items.len(),
            widths_match(w, items@.subrange(0, i as int)),
        decreases items.len() - i,
    {
        proof {
            assert(items@.subrange(0, i + 1).drop_last() =~= items@.subrange(0, i as int));
        }
        let e = &items[i];
        let links = decimal(e.links).as_str().unicode_len();
        let size = decimal(e.size).as_str().unicode_len();
        let user = byte_count(owner_label(&e.user_name, e.uid).as_str());
        let group = byte_count(owner_label(&e.group_name, e.gid).as_str());
        if links > w.max_links {
            w.max_links = links;
        }
        if user > w.max_user {
            w.max_user = user;
        }
        if group > w.max_group {
            w.max_group = group;
        }
        if size > w.max_size {
            w.max_size = size;
        }
        i = i + 1;
    }
    proof {
        assert(items@.subrange(0, items.len() as int) =~= items@);
    }
    w
}

/// The column widths of a long listing are wide enough for every entry:
/// no link count, owner, group or size of any entry is longer than its
/// column (owner and group measured in bytes).
pub proof fn law_widths_cover_every_entry(es: Seq<EntryInfo>, i: int)
    requires
        0 <= i < es.len(),
    ensures
        ({
            let (l, u, g, z) = widths_of(es);
            &&& dec(es[i].links as nat).len() <= l
            &&& utf8_len(id_label(es[i].user_name, es[i].uid as nat)) <= u
            &&& utf8_len(id_label(es[i].group_name, es[i].gid as nat)) <= g
            &&& dec(es[i].size as nat).len() <= z
        }),
    decreases es.len(),
{
    if i < es.len() - 1 {
        law_widths_cover_every_entry(es.drop_last(), i);
        assert(es.drop_last()[i] == es[i]);
    }
}

/// Reading one permission position: `set` shows `on`, otherwise `-`.
pub open spec fn bit_char(set: bool, on: char) -> char {
    if set { on } else { '-' }
}

/// The execute position of a triad: `x` when the execute bit is set, and,
/// when the special bit is set too, `lower` over an execute bit and `upper`
/// over none.
pub open spec fn exec_char(exec: bool, special: bool, lower: char, upper: char) -> char {
    if special {
        if exec { lower } else { upper }
    } else {
        bit_char(exec, 'x')
    }
}

proof fn lemma_triad_bits(d: nat, special: bool, lower: char, upper: char)
    requires
        d < 8,
    ensures
        marked(triad(d), special, lower, upper).len() == 3,
        marked(triad(d), special, lower, upper)[0] == bit_char(d >= 4, 'r'),
        marked(triad(d), special, lower, upper)[1] == bit_char(d % 4 >= 2, 'w'),
        marked(triad(d), special, lower, upper)[2] == exec_char(d % 2 == 1, special, lower, upper),
{
}

proof fn lemma_mode_digits(m: u32)
    ensures
        ((m / 64) % 8 >= 4) == (m & 256 != 0),
        ((m / 64) % 8 % 4 >= 2) == (m & 128 != 0),
        ((m / 64) % 8 % 2 == 1) == (m & 64 != 0),
        ((m / 8) % 8 >= 4) == (m & 32 != 0),
        ((m / 8) % 8 % 4 >= 2) == (m & 16 != 0),
        ((m / 8) % 8 % 2 == 1) == (m & 8 != 0),
        (m % 8 >= 4) == (m & 4 != 0),
        (m % 8 % 4 >= 2) == (m & 2 != 0),
        (m % 8 % 2 == 1) == (m & 1 != 0),
        ((m / 512) % 8 >= 4) == (m & 2048 != 0),
        ((m / 512) % 8 == 2 || (m / 512) % 8 == 3 || (m / 512) % 8 == 6 || (m / 512) % 8 == 7) == (m & 1024 != 0),
        ((m / 512) % 8 % 2 == 1) == (m & 512 != 0),
{
    assert(((m / 64) % 8 >= 4) == (m & 256 != 0)) by (bit_vector);
    assert(((m / 64) % 8 % 4 >= 2) == (m & 128 != 0)) by (bit_vector);
    assert(((m / 64) % 8 % 2 == 1) == (m & 64 != 0)) by (bit_vector);
    assert(((m / 8) % 8 >= 4) == (m & 32 != 0)) by (bit_vector);
    assert(((m / 8) % 8 % 4 >= 2) == (m & 16 != 0)) by (bit_vector);
    assert(((m / 8) % 8 % 2 == 1) == (m & 8 != 0)) by (bit_vector);
    assert((m % 8 >= 4) == (m & 4 != 0)) by (bit_vector);
    assert((m % 8 % 4 >= 2) == (m & 2 != 0)) by (bit_vector);
    assert((m % 8 % 2 == 1) == (m & 1 != 0)) by (bit_vector);
    assert(((m / 512) % 8 >= 4) == (m & 2048 != 0)) by (bit_vector);
    assert(((m / 512) % 8 == 2 || (m / 512) % 8 == 3 || (m / 512) % 8 == 6 || (m / 512) % 8 == 7)
        == (m & 1024 != 0)) by (bit_vector);
    assert(((m / 512) % 8 % 2 == 1) == (m & 512 != 0)) by (bit_vector);
}

/// The permission column reads the mode bit by bit: positions 0, 3 and 6
/// show `r` exactly when the owner, group and other read bits are set,
/// positions 1, 4 and 7 show `w` exactly when the write bits are set, and
/// positions 2, 5 and 8 show the execute bit, overlaid by set-user-id
/// (`s`/`S`), set-group-id (`s`/`S`) and sticky (`t`/`T`).
pub proof fn law_permission_column_reads_mode_bits(m: u32)
    ensures
        ({
            let p = permission_string(m as nat);
            &&& p.len() == 9
            &&& p[0] == bit_char(m & 256 != 0, 'r')
            &&& p[1] == bit_char(m & 128 != 0, 'w')
            &&& p[2] == exec_char(m & 64 != 0, m & 2048 != 0, 's', 'S')
            &&& p[3] == bit_char(m & 32 != 0, 'r')
            &&& p[4] == bit_char(m & 16 != 0, 'w')
            &&& p[5] == exec_char(m & 8 != 0, m & 1024 != 0, 's', 'S')
            &&& p[6] == bit_char(m & 4 != 0, 'r')
            &&& p[7] == bit_char(m & 2 != 0, 'w')
            &&& p[8] == exec_char(m & 1 != 0, m & 512 != 0, 't', 'T')
        }),
{
    lemma_mode_digits(m);
    let sp = ((m / 512) % 8) as nat;
    let a = ((m / 64) % 8) as nat;
    let b = ((m / 8) % 8) as nat;
    let c = (m % 8) as nat;
    let g = sp == 2 || sp == 3 || sp == 6 || sp == 7;
    lemma_triad_bits(a, sp >= 4, 's', 'S');
    lemma_triad_bits(b, g, 's', 'S');
    lemma_triad_bits(c, sp % 2 == 1, 't', 'T');
    let ta = marked(triad(a), sp >= 4, 's', 'S');
    let tb = marked(triad(b), g, 's', 'S');
    let tc = marked(triad(c), sp % 2 == 1, 't', 'T');
    let p = permission_string(m as nat);
    assert(p == ta + tb + tc);
    assert(p[3] == tb[0] && p[4] == tb[1] && p[5] == tb[2]);
    assert(p[6] == tc[0] && p[7] == tc[1] && p[8] == tc[2]);
}

} // verus!
