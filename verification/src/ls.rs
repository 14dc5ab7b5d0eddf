//! The `ls` command: options, operands, and the order of what it prints.

use vstd::prelude::*;
use vstd::string::*;
use crate::entry::LsOptions;
use crate::listing::{
    directory_output, file_allowed, file_allowed_check, file_output, list_directory, list_file, listing_allowed,
    listing_allowed_check, DirFacts, FileFacts,
};
use crate::vecs::reversed;
use crate::output::{emit, emits_view, err_line, out_line, stderr_line, stdout_line, Emit};
use crate::text::{chars_of, same_text};

verus! {

/// How argument scanning ended.
#[derive(PartialEq, Eq, Structural)]
pub enum ParseStop {
    /// All arguments were taken.
    Running,
    /// `--help` was met.
    Help,
    /// This character is not a known option letter.
    Invalid(char),
}

/// State of argument scanning after some arguments.
pub struct LsParseModel {
    pub options: LsOptions,
    pub paths: Seq<Seq<char>>,
    pub dashes: nat,
    pub stop: ParseStop,
}

pub open spec fn arg_views(args: Seq<&str>) -> Seq<Seq<char>> {
    Seq::new(args.len(), |i: int| args[i]@)
}

/// Characters allowed after `-` in an option word.
pub open spec fn flag_char(c: char) -> bool {
    c == 'l' || c == 'a' || c == 'F' || c == '-'
}

/// The first character of `s` that is not an option letter, if any.
pub open spec fn first_bad(s: Seq<char>) -> Option<char>
    decreases s.len(),
{
    if s.len() == 0 {
        None
    } else if flag_char(s[0]) {
        first_bad(s.drop_first())
    } else {
        Some(s[0])
    }
}

/// `o` with the options named by the letters of `s` switched on.
pub open spec fn with_flags(o: LsOptions, s: Seq<char>) -> LsOptions {
    LsOptions {
        show_hidden: o.show_hidden || s.contains('a'),
        long_format: o.long_format || s.contains('l'),
        f_type: o.f_type || s.contains('F'),
    }
}

pub open spec fn parse_init() -> LsParseModel {
    LsParseModel {
        options: LsOptions { show_hidden: false, long_format: false, f_type: false },
        paths: Seq::empty(),
        dashes: 0,
        stop: ParseStop::Running,
    }
}

/// The effect of one argument.
pub open spec fn parse_step(m: LsParseModel, arg: Seq<char>) -> LsParseModel {
    if !(m.stop is Running) {
        m
    } else if arg == "--help"@ {
        LsParseModel { stop: ParseStop::Help, ..m }
    } else if arg == "-"@ {
        LsParseModel { dashes: m.dashes + 1, ..m }
    } else if arg.len() > 0 && arg[0] == '-' {
        match first_bad(arg) {
            Some(c) => LsParseModel { stop: ParseStop::Invalid(c), ..m },
            None => LsParseModel { options: with_flags(m.options, arg), ..m },
        }
    } else {
        LsParseModel { paths: m.paths.push(arg), ..m }
    }
}

/// The state after all of `args`.
pub open spec fn parse_fold(args: Seq<Seq<char>>) -> LsParseModel
    decreases args.len(),
{
    if args.len() == 0 {
        parse_init()
    } else {
        parse_step(parse_fold(args.drop_last()), args.last())
    }
}

/// The operands listed: those given, or `.` when none is.
pub open spec fn operands(m: LsParseModel) -> Seq<Seq<char>> {
    if m.paths.len() == 0 {
        seq!["."@]
    } else {
        m.paths
    }
}

/// The outcome of scanning the arguments of `ls`.
pub enum LsParse {
    Help,
    InvalidOption(char),
    List { options: LsOptions, paths: Vec<String> },
}

/// Scanned arguments: how many lone `-` operands were met before the
/// outcome (each is reported and skipped), and the outcome.
pub struct LsArguments {
    pub dash_operands: usize,
    pub outcome: LsParse,
}

pub open spec fn arguments_match(m: LsParseModel, r: LsArguments) -> bool {
    &&& r.dash_operands == m.dashes
    &&& match r.outcome {
        LsParse::Help => m.stop is Help,
        LsParse::InvalidOption(c) => m.stop == ParseStop::Invalid(c),
        LsParse::List { options, paths } => m.stop is Running && options == m.options
            && paths.deep_view() == operands(m),
    }
}

/// Scans the letters of an option word.
fn parse_combined_options(arg: &str, options: LsOptions) -> (r: Result<LsOptions, char>)
    ensures
        match r {
            Ok(o) => first_bad(arg@) is None && o == with_flags(options, arg@),
            Err(c) => first_bad(arg@) == Some(c),
        },
{
    let cs = chars_of(arg);
    let mut o = options;
    let mut i: usize = 0;
    proof {
        assert(arg@.skip(0) =~= arg@);
    }
    while i < cs.len()
        invariant
            cs@ == arg@,
            i <= cs.len(),
            first_bad(arg@) == first_bad(arg@.skip(i as int)),
            o == with_flags(options, arg@.subrange(0, i as int)),
        decreases cs.len() - i,
    {
        let c = cs[i];
        proof {
            assert(arg@.skip(i as int).drop_first() =~= arg@.skip(i + 1));
            assert(arg@.subrange(0, i + 1) =~= arg@.subrange(0, i as int).push(c));
            assert forall|x: char| arg@.subrange(0, i + 1).contains(x) <==> (arg@.subrange(0, i as int).contains(x) || x == c) by {
                if arg@.subrange(0, i + 1).contains(x) {
                    let k = choose|k: int| 0 <= k < i + 1 && #[trigger] arg@.subrange(0, i + 1)[k] == x;
                    if k < i {
                        assert(arg@.subrange(0, i as int)[k] == x);
                    }
                }
                if x == c {
                    assert(arg@.subrange(0, i + 1)[i as int] == x);
                }
                if arg@.subrange(0, i as int).contains(x) {
                    let k = choose|k: int| 0 <= k < i && #[trigger] arg@.subrange(0, i as int)[k] == x;
                    assert(arg@.subrange(0, i + 1)[k] == x);
                }
            }
        }
        if c == 'l' {
            o.long_format = true;
        } else if c == 'a' {
            o.show_hidden = true;
        } else if c == 'F' {
            o.f_type = true;
        } else if c == '-' {
        } else {
            return Err(c);
        }
        i = i + 1;
    }
    proof {
        assert(arg@.skip(i as int) =~= Seq::<char>::empty());
        assert(arg@.subrange(0, i as int) =~= arg@);
    }
    Ok(o)
}

/// Scans the arguments of `ls`.
pub fn parse_arguments(args: &[&str]) -> (r: LsArguments)
    ensures
        arguments_match(parse_fold(arg_views(args@)), r),
{
    let ghost all = arg_views(args@);
    let mut options = LsOptions { show_hidden: false, long_format: false, f_type: false };
    let mut paths: Vec<String> = Vec::new();
    let mut dashes: usize = 0;
    let mut i: usize = 0;
    proof {
        assert(all.subrange(0, 0) =~= Seq::<Seq<char>>::empty());
    }
    while i < args.len()
        invariant
            all == arg_views(args@),
            i <= args.len(),
            dashes <= i,
            ({
                let m = parse_fold(all.subrange(0, i as int));
                &&& m.stop is Running
                &&& m.options == options
                &&& m.paths == paths.deep_view()
                &&& m.dashes == dashes
            }),
        decreases args.len() - i,
    {
        let arg: &str = args[i];
        let ghost m = parse_fold(all.subrange(0, i as int));
        proof {
            assert(all.subrange(0, i + 1).drop_last() =~= all.subrange(0, i as int));
            assert(all.subrange(0, i + 1).last() == arg@);
        }
        if same_text(arg, "-l") {
            options.long_format = true;
            proof {
                reveal_strlit("-l");
                reveal_strlit("--help");
                reveal_strlit("-");
                assert(first_bad(arg@) is None) by {
                    reveal_with_fuel(first_bad, 3);
                }
                assert(arg@.contains('l')) by { assert(arg@[1] == 'l'); }
                assert(!arg@.contains('a') && !arg@.contains('F'));
            }
        } else if same_text(arg, "-a") {
            options.show_hidden = true;
            proof {
                reveal_strlit("-a");
                reveal_strlit("--help");
                reveal_strlit("-");
                assert(first_bad(arg@) is None) by {
                    reveal_with_fuel(first_bad, 3);
                }
                assert(arg@.contains('a')) by { assert(arg@[1] == 'a'); }
                assert(!arg@.contains('l') && !arg@.contains('F'));
            }
        } else if same_text(arg, "-F") {
            options.f_type = true;
            proof {
                reveal_strlit("-F");
                reveal_strlit("--help");
                reveal_strlit("-");
                assert(first_bad(arg@) is None) by {
                    reveal_with_fuel(first_bad, 3);
                }
                assert(arg@.contains('F')) by { assert(arg@[1] == 'F'); }
                assert(!arg@.contains('l') && !arg@.contains('a'));
            }
        } else if same_text(arg, "--help") {
            proof {
                assert(parse_fold(all) == parse_fold(all.subrange(0, i + 1))) by {
                    lemma_parse_stops(all, i + 1);
                }
                assert(all.subrange(0, all.len() as int) =~= all);
            }
            return LsArguments { dash_operands: dashes, outcome: LsParse::Help };
        } else if same_text(arg, "-") {
            dashes = dashes + 1;
        } else if starts_with_dash(arg) {
            proof {
                reveal_strlit("--help");
                reveal_strlit("-");
            }
            match parse_combined_options(arg, options) {
                Ok(o) => {
                    options = o;
                },
                Err(c) => {
                    proof {
                        lemma_parse_stops(all, i + 1);
                        assert(all.subrange(0, all.len() as int) =~= all);
                    }
                    return LsArguments { dash_operands: dashes, outcome: LsParse::InvalidOption(c) };
                },
            }
        } else {
            proof {
                reveal_strlit("--help");
                reveal_strlit("-");
            }
            let ghost before = paths.deep_view();
            paths.push(arg.to_owned());
            proof {
                assert(paths.deep_view() =~= before.push(arg@));
            }
        }
        i = i + 1;
    }
    proof {
        assert(all.subrange(0, args@.len() as int) =~= all);
    }
    if paths.len() == 0 {
        paths.push(".".to_owned());
        proof {
            assert(paths.deep_view() =~= seq!["."@]);
        }
    }
    LsArguments { dash_operands: dashes, outcome: LsParse::List { options, paths } }
}

/// Once scanning has stopped, later arguments change nothing.
proof fn lemma_parse_stops(all: Seq<Seq<char>>, k: int)
    requires
        0 <= k <= all.len(),
        !(parse_fold(all.subrange(0, k)).stop is Running),
    ensures
        parse_fold(all) == parse_fold(all.subrange(0, k)),
    decreases all.len() - k,
{
    if k < all.len() {
        assert(all.subrange(0, k + 1).drop_last() =~= all.subrange(0, k));
        lemma_parse_stops(all, k + 1);
    } else {
        assert(all.subrange(0, k) =~= all);
    }
}

/// Whether `s` starts with `-`.
fn starts_with_dash(s: &str) -> (r: bool)
    ensures
        r == (s@.len() > 0 && s@[0] == '-'),
{
    s.unicode_len() > 0 && s.get_char(0) == '-'
}

/// What `ls` learned about one operand.
pub enum PathFacts {
    /// Its metadata could not be read (this error text).
    Missing(String),
    /// It is not a directory.
    File(FileFacts),
    Directory(DirFacts),
}

pub type Lines = Seq<(bool, Seq<char>)>;

/// Operands split into the error messages for missing ones, the files and
/// the directories (each in order).
pub open spec fn split_operands(paths: Seq<Seq<char>>, facts: Seq<PathFacts>)
    -> (Seq<Seq<char>>, Seq<(Seq<char>, FileFacts)>, Seq<(Seq<char>, DirFacts)>)
    decreases paths.len(),
{
    if paths.len() == 0 || facts.len() == 0 {
        (Seq::empty(), Seq::empty(), Seq::empty())
    } else {
        let (m, f, d) = split_operands(paths.drop_last(), facts.drop_last());
        match facts.last() {
            PathFacts::Missing(t) => (m.push("ls: cannot access '"@ + paths.last() + "': "@ + t@), f, d),
            PathFacts::File(x) => (m, f.push((paths.last(), x)), d),
            PathFacts::Directory(x) => (m, f, d.push((paths.last(), x))),
        }
    }
}

/// What the file operands print, in order.
pub open spec fn files_output(files: Seq<(Seq<char>, FileFacts)>, options: LsOptions) -> Lines
    decreases files.len(),
{
    if files.len() == 0 {
        Seq::empty()
    } else {
        files_output(files.drop_last(), options) + file_output(files.last().0, files.last().1, options)
    }
}

/// The directory sections, each preceded by an empty line unless it is
/// the first thing printed.
pub open spec fn dir_sections(outs: Seq<Lines>, has_files: bool) -> Lines
    decreases outs.len(),
{
    if outs.len() == 0 {
        Seq::empty()
    } else {
        dir_sections(outs.drop_last(), has_files)
            + (if outs.len() - 1 > 0 || has_files { seq![out_line(""@)] } else { Seq::empty() })
            + outs.last()
    }
}

pub open spec fn plain_err_lines(msgs: Seq<Seq<char>>) -> Lines {
    Seq::new(msgs.len(), |i: int| err_line(msgs[i]))
}

pub open spec fn dash_lines(n: nat) -> Lines {
    Seq::new(n, |i: int| err_line("ls: cannot access '-': No such file or directory"@))
}

pub open spec fn help_text() -> Seq<char> {
    "Usage: ls [OPTION]... [FILE]...\nList information about the FILEs (the current directory by default).\n\nOptions:\n  -l      use a long listing format\n  -a      do not ignore entries starting with .\n  -F      append indicator (one of */=>@|) to entries\n  --help  display this help and exit"@
}

pub open spec fn invalid_option_text(c: char) -> Seq<char> {
    "ls: invalid option -- '"@ + seq![c] + "'\nTry 'ls --help' for more information."@
}

/// The facts given for the operands are usable: one per operand, and none
/// that would make listing panic.
pub open spec fn facts_fit(args: Seq<&str>, facts: Seq<PathFacts>) -> bool {
    let m = parse_fold(arg_views(args));
    m.stop is Running ==> {
        &&& facts.len() == operands(m).len()
        &&& forall|i: int| 0 <= i < facts.len() ==> match #[trigger] facts[i] {
            PathFacts::Missing(_) => true,
            PathFacts::File(f) => file_allowed(f, m.options),
            PathFacts::Directory(d) => listing_allowed(d, m.options),
        }
    }
}

/// What `ls` prints for `args`, given what it learns about its operands.
pub open spec fn ls_output(args: Seq<&str>, facts: Seq<PathFacts>, out: Lines) -> bool {
    let m = parse_fold(arg_views(args));
    let pre = dash_lines(m.dashes);
    match m.stop {
        ParseStop::Help => out == pre + seq![out_line(help_text())],
        ParseStop::Invalid(c) => out == pre + seq![err_line(invalid_option_text(c))],
        ParseStop::Running => {
            let (missing, files, dirs) = split_operands(operands(m), facts);
            let more = dirs.len() > 1 || (files.len() > 0 && dirs.len() > 0);
            exists|outs: Seq<Lines>| {
                &&& outs.len() == dirs.len()
                &&& forall|i: int| 0 <= i < dirs.len() ==> directory_output(dirs[i].0, dirs[i].1, m.options, more, #[trigger] outs[i])
                &&& out == pre + plain_err_lines(missing) + files_output(files, m.options)
                    + (if !more && files.len() > 0 && dirs.len() > 0 { seq![out_line(""@)] } else { Seq::empty() })
                    + dir_sections(outs, files.len() > 0)
            }
        },
    }
}

/// Decides `facts_fit`: whether `builtin_ls` may be called with `facts`.
pub fn facts_fit_check(args: &[&str], facts: &Vec<PathFacts>) -> (r: bool)
    ensures
        r == facts_fit(args@, facts@),
{
    let parsed = parse_arguments(args);
    match parsed.outcome {
        LsParse::List { options, paths } => {
            if facts.len() != paths.len() {
                return false;
            }
            let mut i: usize = 0;
            while i < facts.len()
                invariant
                    i <= facts@.len(),
                    options == parse_fold(arg_views(args@)).options,
                    parse_fold(arg_views(args@)).stop is Running,
                    forall|j: int| 0 <= j < i ==> match #[trigger] facts@[j] {
                        PathFacts::Missing(_) => true,
                        PathFacts::File(f) => file_allowed(f, options),
                        PathFacts::Directory(d) => listing_allowed(d, options),
                    },
                decreases facts@.len() - i,
            {
                let ok = match &facts[i] {
                    PathFacts::Missing(_) => true,
                    PathFacts::File(f) => file_allowed_check(f, options),
                    PathFacts::Directory(d) => listing_allowed_check(d, options),
                };
                if !ok {
                    proof {
                        let f = facts@[i as int];
                        assert(!match f {
                            PathFacts::Missing(_) => true,
                            PathFacts::File(x) => file_allowed(x, options),
                            PathFacts::Directory(d) => listing_allowed(d, options),
                        });
                    }
                    return false;
                }
                i = i + 1;
            }
            true
        },
        _ => true,
    }
}

proof fn lemma_split_allowed(paths: Seq<Seq<char>>, facts: Seq<PathFacts>, options: LsOptions)
    requires
        forall|i: int| 0 <= i < facts.len() ==> match #[trigger] facts[i] {
            PathFacts::Missing(_) => true,
            PathFacts::File(f) => file_allowed(f, options),
            PathFacts::Directory(d) => listing_allowed(d, options),
        },
    ensures
        ({
            let (m, f, d) = split_operands(paths, facts);
            &&& forall|x: int| 0 <= x < f.len() ==> file_allowed(#[trigger] f[x].1, options)
            &&& forall|x: int| 0 <= x < d.len() ==> listing_allowed(#[trigger] d[x].1, options)
        }),
    decreases paths.len(),
{
    if paths.len() > 0 && facts.len() > 0 {
        let fi = facts.drop_last();
        assert forall|i: int| 0 <= i < fi.len() implies match #[trigger] fi[i] {
            PathFacts::Missing(_) => true,
            PathFacts::File(f) => file_allowed(f, options),
            PathFacts::Directory(d) => listing_allowed(d, options),
        } by {
            assert(fi[i] == facts[i]);
        }
        lemma_split_allowed(paths.drop_last(), fi, options);
        let (m0, f0, d0) = split_operands(paths.drop_last(), fi);
        let (m1, f1, d1) = split_operands(paths, facts);
        let last = facts[facts.len() - 1];
        assert(facts.last() == last);
        match last {
            PathFacts::Missing(_) => {
                assert(f1 == f0 && d1 == d0);
            },
            PathFacts::File(x) => {
                assert(f1 == f0.push((paths.last(), x)) && d1 == d0);
                assert forall|k: int| 0 <= k < f1.len() implies file_allowed(#[trigger] f1[k].1, options) by {
                    if k < f0.len() {
                        assert(f1[k] == f0[k]);
                    }
                }
            },
            PathFacts::Directory(x) => {
                assert(d1 == d0.push((paths.last(), x)) && f1 == f0);
                assert forall|k: int| 0 <= k < d1.len() implies listing_allowed(#[trigger] d1[k].1, options) by {
                    if k < d0.len() {
                        assert(d1[k] == d0[k]);
                    }
                }
            },
        }
    }
}

fn append_all(out: &mut Vec<Emit>, more: Vec<Emit>)
    ensures
        emits_view(final(out)@) == emits_view(old(out)@) + emits_view(more@),
{
    let ghost more0 = more@;
    let mut more = more;
    out.append(&mut more);
    proof {
        assert(emits_view(final(out)@) =~= emits_view(old(out)@) + emits_view(more0));
    }
}

/// Splits the operands into files and directories, reporting the missing
/// ones (see `split_operands`).
#[verifier::spinoff_prover]
#[verifier::rlimit(40)]
fn split_facts(paths: &Vec<String>, facts: Vec<PathFacts>, out: &mut Vec<Emit>)
    -> (r: (Vec<(String, FileFacts)>, Vec<(String, DirFacts)>))
    requires
        facts@.len() == paths@.len(),
    ensures
        ({
            let (ms, fs, ds) = split_operands(paths.deep_view(), facts@);
            &&& emits_view(final(out)@) == emits_view(old(out)@) + plain_err_lines(ms)
            &&& r.0@.len() == fs.len()
            &&& forall|j: int| 0 <= j < fs.len() ==> #[trigger] r.0@[j].0@ == fs[j].0 && r.0@[j].1 == fs[j].1
            &&& r.1@.len() == ds.len()
            &&& forall|j: int| 0 <= j < ds.len() ==> #[trigger] r.1@[j].0@ == ds[j].0 && r.1@[j].1 == ds[j].1
        }),
{
    let ghost all_paths = paths.deep_view();
    let ghost facts0 = facts@;
    let ghost pre = emits_view(out@);
    let mut files: Vec<(String, FileFacts)> = Vec::new();
    let mut dirs: Vec<(String, DirFacts)> = Vec::new();
    let _n = facts.len();
    let mut rev_facts = reversed(facts);
    let mut i: usize = 0;
    proof {
        assert(all_paths.subrange(0, 0) =~= Seq::<Seq<char>>::empty());
        assert(facts0.subrange(0, 0) =~= Seq::<PathFacts>::empty());
        assert(plain_err_lines(Seq::empty()) =~= Seq::<(bool, Seq<char>)>::empty());
        assert(pre + Seq::<(bool, Seq<char>)>::empty() =~= pre);
    }
    while rev_facts.len() > 0
        invariant
            facts0.len() == all_paths.len(),
            facts0.len() <= usize::MAX,
            all_paths == paths.deep_view(),
            i + rev_facts@.len() == facts0.len(),
            rev_facts@ == facts0.subrange(i as int, facts0.len() as int).reverse(),
            ({
                let (ms, fs, ds) = split_operands(all_paths.subrange(0, i as int), facts0.subrange(0, i as int));
                &&& emits_view(out@) == pre + plain_err_lines(ms)
                &&& files@.len() == fs.len()
                &&& forall|j: int| 0 <= j < fs.len() ==> #[trigger] files@[j].0@ == fs[j].0 && files@[j].1 == fs[j].1
                &&& dirs@.len() == ds.len()
                &&& forall|j: int| 0 <= j < ds.len() ==> #[trigger] dirs@[j].0@ == ds[j].0 && dirs@[j].1 == ds[j].1
            }),
        decreases rev_facts@.len(),
    {
        let f = rev_facts.pop().unwrap();
        let ghost (ms0, fs0, ds0) = split_operands(all_paths.subrange(0, i as int), facts0.subrange(0, i as int));
        let ghost files_before = files@;
        let ghost dirs_before = dirs@;
        let ghost out_before = emits_view(out@);
        proof {
            assert(f == facts0[i as int]);
            assert(all_paths.subrange(0, i + 1).drop_last() =~= all_paths.subrange(0, i as int));
            assert(facts0.subrange(0, i + 1).drop_last() =~= facts0.subrange(0, i as int));
            assert(all_paths.subrange(0, i + 1).last() == all_paths[i as int]);
            assert(facts0.subrange(0, i + 1).last() == f);
        }
        let p = paths[i].clone();
        match f {
            PathFacts::Missing(t) => {
                let mut msg = "ls: cannot access '".to_owned();
                msg.append(p.as_str());
                msg.append("': ");
                msg.append(t.as_str());
                emit(out, stderr_line(msg));
                proof {
                    let (ms1, fs1, ds1) = split_operands(all_paths.subrange(0, i + 1), facts0.subrange(0, i + 1));
                    assert(ms1 == ms0.push("ls: cannot access '"@ + all_paths[i as int] + "': "@ + t@));
                    assert(fs1 == fs0 && ds1 == ds0);
                    assert(plain_err_lines(ms1) =~= plain_err_lines(ms0).push(err_line(ms1.last())));
                }
            },
            PathFacts::File(x) => {
                files.push((p, x));
                proof {
                    let (ms1, fs1, ds1) = split_operands(all_paths.subrange(0, i + 1), facts0.subrange(0, i + 1));
                    assert(ms1 == ms0 && ds1 == ds0);
                    assert(fs1 == fs0.push((all_paths[i as int], x)));
                    assert forall|j: int| 0 <= j < fs1.len() implies #[trigger] files@[j].0@ == fs1[j].0 && files@[j].1 == fs1[j].1 by {
                        if j < fs0.len() {
                            assert(files@[j] == files_before[j]);
                        }
                    }
                }
            },
            PathFacts::Directory(x) => {
                dirs.push((p, x));
                proof {
                    let (ms1, fs1, ds1) = split_operands(all_paths.subrange(0, i + 1), facts0.subrange(0, i + 1));
                    assert(ms1 == ms0 && fs1 == fs0);
                    assert(ds1 == ds0.push((all_paths[i as int], x)));
                    assert forall|j: int| 0 <= j < ds1.len() implies #[trigger] dirs@[j].0@ == ds1[j].0 && dirs@[j].1 == ds1[j].1 by {
                        if j < ds0.len() {
                            assert(dirs@[j] == dirs_before[j]);
                        }
                    }
                }
            },
        }
        proof {
            assert(rev_facts@ =~= facts0.subrange(i + 1, facts0.len() as int).reverse());
        }
        i = i + 1;
    }
    proof {
        assert(all_paths.subrange(0, i as int) =~= all_paths);
        assert(facts0.subrange(0, i as int) =~= facts0);
    }
    (files, dirs)
}

/// Runs `ls` with `args` (see `ls_output`).  The caller reads the
/// operands `parse_arguments` reports and passes what it learned about
/// each, in order.
#[verifier::spinoff_prover]
#[verifier::rlimit(60)]
pub fn builtin_ls(args: &[&str], facts: Vec<PathFacts>) -> (r: Vec<Emit>)
    requires
        facts_fit(args@, facts@),
    ensures
        ls_output(args@, facts@, emits_view(r@)),
{
    let ghost m = parse_fold(arg_views(args@));
    let ghost facts0 = facts@;
    proof {
        reveal_strlit("");
    }
    let parsed = parse_arguments(args);
    let mut out: Vec<Emit> = Vec::new();
    let mut k: usize = 0;
    while k < parsed.dash_operands
        invariant
            k <= parsed.dash_operands,
            emits_view(out@) =~= dash_lines(k as nat),
        decreases parsed.dash_operands - k,
    {
        emit(&mut out, stderr_line("ls: cannot access '-': No such file or directory".to_owned()));
        k = k + 1;
    }
    let ghost pre = emits_view(out@);
    let (options, paths) = match parsed.outcome {
        LsParse::Help => {
            emit(&mut out, stdout_line("Usage: ls [OPTION]... [FILE]...\nList information about the FILEs (the current directory by default).\n\nOptions:\n  -l      use a long listing format\n  -a      do not ignore entries starting with .\n  -F      append indicator (one of */=>@|) to entries\n  --help  display this help and exit".to_owned()));
            proof {
                assert(emits_view(out@) =~= pre + seq![out_line(help_text())]);
            }
            return out;
        },
        LsParse::InvalidOption(c) => {
            let mut msg = "ls: invalid option -- '".to_owned();
            crate::text::push_char(&mut msg, c);
            msg.append("'\nTry 'ls --help' for more information.");
            proof {
                assert(msg@ =~= invalid_option_text(c));
            }
            emit(&mut out, stderr_line(msg));
            proof {
                assert(emits_view(out@) =~= pre + seq![err_line(invalid_option_text(c))]);
            }
            return out;
        },
        LsParse::List { options, paths } => (options, paths),
    };
    let ghost all_paths = paths.deep_view();

    // Split the operands.
    let (files, dirs) = split_facts(&paths, facts, &mut out);
    let ghost (ms, fs, ds) = split_operands(all_paths, facts0);
    proof {
        lemma_split_allowed(all_paths, facts0, options);
    }
    let more = dirs.len() > 1 || (files.len() > 0 && dirs.len() > 0);
    let has_files = files.len() > 0;
    let n_dirs = dirs.len();

    // Files first.
    let ghost before_files = emits_view(out@);
    let _nf = files.len();
    let mut rev_files = reversed(files);
    let mut j: usize = 0;
    proof {
        assert(fs.subrange(0, 0) =~= Seq::<(Seq<char>, FileFacts)>::empty());
        assert(before_files + files_output(Seq::empty(), options) =~= before_files);
    }
    while rev_files.len() > 0
        invariant
            fs.len() <= usize::MAX,
            j + rev_files@.len() == fs.len(),
            rev_files@.len() == fs.len() - j,
            forall|y: int| 0 <= y < rev_files@.len() ==> #[trigger] rev_files@[y].0@ == fs[fs.len() - 1 - y].0
                && rev_files@[y].1 == fs[fs.len() - 1 - y].1,
            forall|x: int| 0 <= x < fs.len() ==> file_allowed(#[trigger] fs[x].1, options),
            emits_view(out@) == before_files + files_output(fs.subrange(0, j as int), options),
        decreases rev_files@.len(),
    {
        let ghost rf = rev_files@;
        let (p, x) = rev_files.pop().unwrap();
        proof {
            assert((p, x) == rf[rf.len() - 1]);
            assert(rf[rf.len() - 1].0@ == fs[fs.len() - 1 - (rf.len() - 1)].0);
            assert(p@ == fs[j as int].0 && x == fs[j as int].1);
            assert forall|y: int| 0 <= y < rev_files@.len() implies #[trigger] rev_files@[y].0@ == fs[fs.len() - 1 - y].0
                && rev_files@[y].1 == fs[fs.len() - 1 - y].1 by {
                assert(rev_files@[y] == rf[y]);
            }
            assert(fs.subrange(0, j + 1).drop_last() =~= fs.subrange(0, j as int));
            assert(fs.subrange(0, j + 1).last() == fs[j as int]);
        }
        let v = list_file(p.as_str(), x, options);
        append_all(&mut out, v);
        proof {
            assert(emits_view(out@) =~= before_files + files_output(fs.subrange(0, j + 1), options));
        }
        j = j + 1;
    }
    proof {
        assert(fs.subrange(0, fs.len() as int) =~= fs);
    }
    if !more && has_files && n_dirs > 0 {
        emit(&mut out, stdout_line(String::new()));
    }
    let ghost before_dirs = emits_view(out@);

    // Then directories.
    let ghost dirs_v = dirs@;
    let mut rev_dirs = reversed(dirs);
    proof {
        assert forall|y: int| 0 <= y < rev_dirs@.len() implies #[trigger] rev_dirs@[y].0@ == ds[ds.len() - 1 - y].0
            && rev_dirs@[y].1 == ds[ds.len() - 1 - y].1 by {
            assert(rev_dirs@[y] == dirs_v[dirs_v.len() - 1 - y]);
            assert(dirs_v[dirs_v.len() - 1 - y].0@ == ds[dirs_v.len() - 1 - y].0);
        }
    }
    let ghost mut outs: Seq<Lines> = Seq::empty();
    let mut d: usize = 0;
    while rev_dirs.len() > 0
        invariant
            ds.len() <= usize::MAX,
            d + rev_dirs@.len() == ds.len(),
            forall|y: int| 0 <= y < rev_dirs@.len() ==> #[trigger] rev_dirs@[y].0@ == ds[ds.len() - 1 - y].0
                && rev_dirs@[y].1 == ds[ds.len() - 1 - y].1,
            forall|x: int| 0 <= x < ds.len() ==> listing_allowed(#[trigger] ds[x].1, options),
            outs.len() == d,
            forall|x: int| 0 <= x < d ==> directory_output(ds[x].0, ds[x].1, options, more, #[trigger] outs[x]),
            emits_view(out@) == before_dirs + dir_sections(outs, has_files),
        decreases rev_dirs@.len(),
    {
        let ghost rd = rev_dirs@;
        let (p, x) = rev_dirs.pop().unwrap();
        proof {
            assert((p, x) == rd[rd.len() - 1]);
            assert(rd[rd.len() - 1].0@ == ds[ds.len() - 1 - (rd.len() - 1)].0);
            assert(p@ == ds[d as int].0 && x == ds[d as int].1);
            assert forall|y: int| 0 <= y < rev_dirs@.len() implies #[trigger] rev_dirs@[y].0@ == ds[ds.len() - 1 - y].0
                && rev_dirs@[y].1 == ds[ds.len() - 1 - y].1 by {
                assert(rev_dirs@[y] == rd[y]);
            }
        }
        let ghost before_sep = emits_view(out@);
        if d > 0 || has_files {
            emit(&mut out, stdout_line(String::new()));
        }
        let ghost sep: Lines = if d > 0 || has_files { seq![out_line(""@)] } else { Seq::empty() };
        proof {
            reveal_strlit("");
            assert(emits_view(out@) =~= before_sep + sep);
        }
        let v = list_directory(p.as_str(), x, options, more);
        let ghost seg = emits_view(v@);
        append_all(&mut out, v);
        proof {
            let new_outs = outs.push(seg);
            assert(new_outs.drop_last() =~= outs);
            assert(new_outs.last() == seg);
            assert(dir_sections(new_outs, has_files) == dir_sections(outs, has_files) + sep + seg);
            assert(emits_view(out@) =~= before_dirs + dir_sections(new_outs, has_files));
            assert forall|x: int| 0 <= x < d + 1 implies directory_output(ds[x].0, ds[x].1, options, more, #[trigger] new_outs[x]) by {
                if x < d {
                    assert(new_outs[x] == outs[x]);
                }
            }
            outs = new_outs;
        }
        d = d + 1;
    }
    proof {
        assert(ls_output(args@, facts0, emits_view(out@)));
    }
    out
}

/// What `ls` prints is determined by its arguments and what it learned
/// about its operands: `ls_output` accepts exactly one output.
pub proof fn law_ls_output_is_unique(args: Seq<&str>, facts: Seq<PathFacts>, o1: Lines, o2: Lines)
    requires
        ls_output(args, facts, o1),
        ls_output(args, facts, o2),
    ensures
        o1 == o2,
{
    let m = parse_fold(arg_views(args));
    if m.stop is Running {
        let (missing, files, dirs) = split_operands(operands(m), facts);
        let more = dirs.len() > 1 || (files.len() > 0 && dirs.len() > 0);
        let outs1 = choose|outs: Seq<Lines>| {
            &&& outs.len() == dirs.len()
            &&& forall|i: int| 0 <= i < dirs.len() ==> directory_output(dirs[i].0, dirs[i].1, m.options, more, #[trigger] outs[i])
            &&& o1 == dash_lines(m.dashes) + plain_err_lines(missing) + files_output(files, m.options)
                + (if !more && files.len() > 0 && dirs.len() > 0 { seq![out_line(""@)] } else { Seq::empty() })
                + dir_sections(outs, files.len() > 0)
        };
        let outs2 = choose|outs: Seq<Lines>| {
            &&& outs.len() == dirs.len()
            &&& forall|i: int| 0 <= i < dirs.len() ==> directory_output(dirs[i].0, dirs[i].1, m.options, more, #[trigger] outs[i])
            &&& o2 == dash_lines(m.dashes) + plain_err_lines(missing) + files_output(files, m.options)
                + (if !more && files.len() > 0 && dirs.len() > 0 { seq![out_line(""@)] } else { Seq::empty() })
                + dir_sections(outs, files.len() > 0)
        };
        assert forall|i: int| 0 <= i < dirs.len() implies outs1[i] == outs2[i] by {
            crate::listing::law_directory_output_is_unique(dirs[i].0, dirs[i].1, m.options, more, outs1[i], outs2[i]);
        }
        assert(outs1 =~= outs2);
    }
}

/// An option word that switches options on: a `-` followed by option
/// letters (and further dashes), other than `-` and `--help`.
pub open spec fn is_flag_word(a: Seq<char>) -> bool {
    &&& a.len() > 0
    &&& a[0] == '-'
    &&& a != "-"@
    &&& a != "--help"@
    &&& first_bad(a) is None
}

/// An operand: a word that does not start with `-`.
pub open spec fn is_operand_word(a: Seq<char>) -> bool {
    !(a.len() > 0 && a[0] == '-')
}

/// The options switched on by the option words of `args`.
pub open spec fn options_given(args: Seq<Seq<char>>) -> LsOptions
    decreases args.len(),
{
    if args.len() == 0 {
        parse_init().options
    } else if is_flag_word(args.last()) {
        with_flags(options_given(args.drop_last()), args.last())
    } else {
        options_given(args.drop_last())
    }
}

/// The operands among `args`, in order.
pub open spec fn operands_given(args: Seq<Seq<char>>) -> Seq<Seq<char>>
    decreases args.len(),
{
    if args.len() == 0 {
        Seq::empty()
    } else if is_operand_word(args.last()) {
        operands_given(args.drop_last()).push(args.last())
    } else {
        operands_given(args.drop_last())
    }
}

/// Every word of `args` is an option word or an operand.
pub open spec fn options_and_operands(args: Seq<Seq<char>>) -> bool {
    forall|i: int| 0 <= i < args.len() ==> is_flag_word(#[trigger] args[i]) || is_operand_word(args[i])
}

proof fn lemma_parse_options_and_operands(args: Seq<Seq<char>>)
    requires
        options_and_operands(args),
    ensures
        parse_fold(args) == (LsParseModel {
            options: options_given(args),
            paths: operands_given(args),
            dashes: 0,
            stop: ParseStop::Running,
        }),
    decreases args.len(),
{
    if args.len() > 0 {
        let init = args.drop_last();
        assert forall|i: int| 0 <= i < init.len() implies is_flag_word(#[trigger] init[i]) || is_operand_word(init[i]) by {
            assert(init[i] == args[i]);
        }
        lemma_parse_options_and_operands(init);
        let a = args.last();
        assert(is_flag_word(a) || is_operand_word(a)) by {
            assert(a == args[args.len() - 1]);
        }
        if is_operand_word(a) {
            reveal_strlit("--help");
            reveal_strlit("-");
            assert(a != "--help"@);
            assert(a != "-"@);
        }
    }
}

/// Where options stand among the operands, and how they are grouped into
/// words, does not matter: two argument lists made of option words and
/// operands, that switch on the same options and name the same operands in
/// the same order, make `ls` print the same and accept the same facts.
pub proof fn law_option_placement_does_not_matter(args1: Seq<&str>, args2: Seq<&str>, facts: Seq<PathFacts>, out: Lines)
    requires
        options_and_operands(arg_views(args1)),
        options_and_operands(arg_views(args2)),
        options_given(arg_views(args1)) == options_given(arg_views(args2)),
        operands_given(arg_views(args1)) == operands_given(arg_views(args2)),
    ensures
        facts_fit(args1, facts) <==> facts_fit(args2, facts),
        ls_output(args1, facts, out) <==> ls_output(args2, facts, out),
{
    lemma_parse_options_and_operands(arg_views(args1));
    lemma_parse_options_and_operands(arg_views(args2));
    assert(parse_fold(arg_views(args1)) == parse_fold(arg_views(args2)));
}

/// The letters of an option word act independently: after any arguments,
/// an option word switches on exactly the options whose letters it holds
/// (`a` shows hidden entries, `l` the long form, `F` the indicators),
/// leaves the others as they were, and touches nothing else; so one word
/// `-xy` does what `-x` followed by `-y` does.
pub proof fn law_option_letters_act_independently(args: Seq<Seq<char>>, u: Seq<char>, v: Seq<char>)
    requires
        is_flag_word(u),
        is_flag_word(v),
        u + v.drop_first() != "--help"@,
    ensures
        ({
            let m = parse_fold(args);
            let mu = parse_fold(args.push(u));
            &&& m.stop is Running ==> {
                &&& mu.options.show_hidden == (m.options.show_hidden || u.contains('a'))
                &&& mu.options.long_format == (m.options.long_format || u.contains('l'))
                &&& mu.options.f_type == (m.options.f_type || u.contains('F'))
                &&& mu.paths == m.paths
                &&& mu.dashes == m.dashes
                &&& mu.stop == m.stop
            }
            &&& parse_fold(args.push(u + v.drop_first())) == parse_fold(args.push(u).push(v))
        }),
{
    let w = u + v.drop_first();
    assert(args.push(u).drop_last() =~= args);
    assert(args.push(w).drop_last() =~= args);
    assert(args.push(u).push(v).drop_last() =~= args.push(u));
    lemma_first_bad_concat(u, v.drop_first());
    assert(v =~= seq![v[0]] + v.drop_first());
    lemma_first_bad_concat(seq![v[0]], v.drop_first());
    assert(w[0] == '-');
    reveal_strlit("-");
    assert(w != "-"@) by {
        assert(w.len() >= u.len());
        if u.len() == 1 {
            assert(u =~= "-"@);
        }
    }
    assert forall|x: char| w.contains(x) <==> (u.contains(x) || v.drop_first().contains(x)) by {
        if w.contains(x) {
            let k = choose|k: int| 0 <= k < w.len() && w[k] == x;
            if k >= u.len() {
                assert(v.drop_first()[k - u.len()] == x);
            }
        }
        if u.contains(x) {
            let k = choose|k: int| 0 <= k < u.len() && u[k] == x;
            assert(w[k] == x);
        }
        if v.drop_first().contains(x) {
            let k = choose|k: int| 0 <= k < v.drop_first().len() && v.drop_first()[k] == x;
            assert(w[k + u.len()] == x);
        }
    }
    assert forall|x: char| v.contains(x) <==> (x == '-' || v.drop_first().contains(x)) by {
        if v.contains(x) {
            let k = choose|k: int| 0 <= k < v.len() && v[k] == x;
            if k > 0 {
                assert(v.drop_first()[k - 1] == x);
            }
        }
        if v.drop_first().contains(x) {
            let k = choose|k: int| 0 <= k < v.drop_first().len() && v.drop_first()[k] == x;
            assert(v[k + 1] == x);
        }
        if x == '-' {
            assert(v[0] == x);
        }
    }
}

proof fn lemma_first_bad_concat(a: Seq<char>, b: Seq<char>)
    ensures
        first_bad(a + b) == (if first_bad(a) is Some { first_bad(a) } else { first_bad(b) }),
    decreases a.len(),
{
    if a.len() > 0 {
        assert((a + b).drop_first() =~= a.drop_first() + b);
        lemma_first_bad_concat(a.drop_first(), b);
    } else {
        assert(a + b =~= b);
    }
}

} // verus!
