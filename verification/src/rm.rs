//! The `rm` command.

use vstd::prelude::*;
use vstd::string::*;
use crate::output::concat3;
use crate::text::{chars_of, utf8_len};

verus! {

/// The operands of `rm`, or why there are none to act on.
pub enum RmArgs {
    /// No arguments at all (reported on standard error).
    MissingOperand,
    /// An option letter other than `r` (reported on standard output).
    InvalidOption(char),
    /// Only options (reported on standard output as a missing operand).
    NoPaths,
    Remove { recursive: bool, paths: Vec<String> },
}

/// An option word: starts with `-` and is more than one byte long.
pub open spec fn is_option_word(a: Seq<char>) -> bool {
    a.len() > 0 && a[0] == '-' && utf8_len(a) > 1
}

/// The first letter after the dash that is not `r`, if any.
pub open spec fn bad_letter(a: Seq<char>) -> Option<char>
    decreases a.len(),
{
    if a.len() <= 1 {
        None
    } else if a[1] != 'r' {
        Some(a[1])
    } else {
        bad_letter(a.drop_first())
    }
}

/// State of scanning the arguments of `rm`.
pub struct RmScan {
    pub recursive: bool,
    pub paths: Seq<Seq<char>>,
    pub bad: Option<char>,
}

pub open spec fn rm_scan(args: Seq<Seq<char>>) -> RmScan
    decreases args.len(),
{
    if args.len() == 0 {
        RmScan { recursive: false, paths: Seq::empty(), bad: None }
    } else {
        let s = rm_scan(args.drop_last());
        let a = args.last();
        if s.bad is Some {
            s
        } else if is_option_word(a) {
            match bad_letter(a) {
                Some(c) => RmScan { bad: Some(c), ..s },
                None => RmScan { recursive: true, ..s },
            }
        } else {
            RmScan { paths: s.paths.push(a), ..s }
        }
    }
}

proof fn lemma_rm_scan_stops(args: Seq<Seq<char>>, k: int)
    requires
        0 <= k <= args.len(),
        rm_scan(args.subrange(0, k)).bad is Some,
    ensures
        rm_scan(args) == rm_scan(args.subrange(0, k)),
    decreases args.len() - k,
{
    if k < args.len() {
        assert(args.subrange(0, k + 1).drop_last() =~= args.subrange(0, k));
        lemma_rm_scan_stops(args, k + 1);
    } else {
        assert(args.subrange(0, k) =~= args);
    }
}

fn option_letters(a: &str) -> (r: Option<char>)
    requires
        a@.len() > 0,
    ensures
        r == bad_letter(a@),
{
    let cs = chars_of(a);
    let mut i: usize = 1;
    proof {
        assert(a@.skip(0) =~= a@);
    }
    while i < cs.len()
        invariant
            cs@ == a@,
            1 <= i <= cs.len(),
            bad_letter(a@) == bad_letter(a@.skip(i - 1)),
        decreases cs.len() - i,
    {
        proof {
            assert(a@.skip(i - 1)[1] == a@[i as int]);
            assert(a@.skip(i - 1).drop_first() =~= a@.skip(i as int));
        }
        if cs[i] != 'r' {
            return Some(cs[i]);
        }
        i = i + 1;
    }
    proof {
        assert(a@.skip(i - 1).len() <= 1);
    }
    None
}

/// Scans the arguments of `rm`.
pub fn builtin_rm(args: &[&str]) -> (r: RmArgs)
    ensures
        ({
            let s = rm_scan(crate::text::str_views(args@));
            if args@.len() == 0 {
                r is MissingOperand
            } else if s.bad is Some {
                r == RmArgs::InvalidOption(s.bad->0)
            } else if s.paths.len() == 0 {
                r is NoPaths
            } else {
                r matches RmArgs::Remove { recursive, paths } && recursive == s.recursive && paths.deep_view() == s.paths
            }
        }),
{
    if args.len() == 0 {
        return RmArgs::MissingOperand;
    }
    let ghost all = crate::text::str_views(args@);
    let mut recursive = false;
    let mut paths: Vec<String> = Vec::new();
    let mut i: usize = 0;
    proof {
        assert(all.subrange(0, 0) =~= Seq::<Seq<char>>::empty());
    }
    while i < args.len()
        invariant
            all == crate::text::str_views(args@),
            i <= args.len(),
            ({
                let s = rm_scan(all.subrange(0, i as int));
                &&& s.bad is None
                &&& s.recursive == recursive
                &&& s.paths == paths.deep_view()
            }),
        decreases args.len() - i,
    {
        let a: &str = args[i];
        proof {
            assert(all.subrange(0, i + 1).drop_last() =~= all.subrange(0, i as int));
            assert(all.subrange(0, i + 1).last() == a@);
        }
        let is_option = a.unicode_len() > 0 && a.get_char(0) == '-' && crate::text::byte_count(a) > 1;
        if is_option {
            match option_letters(a) {
                Some(c) => {
                    proof {
                        lemma_rm_scan_stops(all, i + 1);
                        assert(all.subrange(0, all.len() as int) =~= all);
                    }
                    return RmArgs::InvalidOption(c);
                },
                None => {
                    recursive = true;
                },
            }
        } else {
            let ghost before = paths.deep_view();
            paths.push(a.to_owned());
            proof {
                assert(paths.deep_view() =~= before.push(a@));
            }
        }
        i = i + 1;
    }
    proof {
        assert(all.subrange(0, all.len() as int) =~= all);
    }
    if paths.len() == 0 {
        return RmArgs::NoPaths;
    }
    RmArgs::Remove { recursive, paths }
}

/// What `rm` does with one path.
pub enum RmStep {
    /// Print this line on standard error and go on.
    Report(String),
    /// Remove this directory and everything in it.
    RemoveAll(String),
    /// Remove this file.
    RemoveFile(String),
}

/// Decides what `rm` does with `path`, given whether it exists and what
/// reading its metadata gave (whether it is a directory, or the error text).
pub fn rm_step(path: &str, exists: bool, metadata: Result<bool, String>, recursive: bool) -> (r: RmStep)
    ensures
        !exists ==> (r matches RmStep::Report(m) && m@ == "rm: cannot remove '"@ + path@ + "': No such file or directory"@),
        exists ==> match metadata {
            Err(e) => r matches RmStep::Report(m) && m@ == "rm: cannot access '"@ + path@ + "': "@ + e@,
            Ok(true) => if recursive {
                r matches RmStep::RemoveAll(p) && p@ == path@
            } else {
                r matches RmStep::Report(m) && m@ == "rm: cannot remove '"@ + path@ + "': Is a directory"@
            },
            Ok(false) => r matches RmStep::RemoveFile(p) && p@ == path@,
        },
{
    if !exists {
        return RmStep::Report(concat3("rm: cannot remove '", path, "': No such file or directory"));
    }
    match metadata {
        Err(e) => {
            let mut m = concat3("rm: cannot access '", path, "': ");
            m.append(e.as_str());
            RmStep::Report(m)
        },
        Ok(true) => if recursive {
            RmStep::RemoveAll(path.to_owned())
        } else {
            RmStep::Report(concat3("rm: cannot remove '", path, "': Is a directory"))
        },
        Ok(false) => RmStep::RemoveFile(path.to_owned()),
    }
}

/// The line printed when removing `path` fails with error text `err`.
pub fn rm_failure(path: &str, err: &str) -> (r: String)
    ensures
        r@ == "rm: cannot remove '"@ + path@ + "': "@ + err@,
{
    let mut m = concat3("rm: cannot remove '", path, "': ");
    m.append(err);
    m
}

} // verus!
