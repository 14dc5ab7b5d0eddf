//! `echo`, `pwd` and `cat`.

use vstd::prelude::*;
use vstd::string::*;
use crate::output::concat3;
use crate::text::{join_spec, join_strs, same_text, str_views};

verus! {

/// The line `echo` prints: its operands separated by single spaces.
pub fn builtin_echo(args: &[&str]) -> (r: String)
    ensures
        r@ == join_spec(str_views(args@), " "@),
{
    join_strs(args, " ")
}

/// The line `pwd` prints, if any: a complaint when given operands,
/// otherwise the recorded current directory (nothing when there is none).
pub fn builtin_pwd(args: &[&str], current: Option<String>) -> (r: Option<String>)
    ensures
        args@.len() > 0 ==> (r matches Some(m) && m@ == "pwd: too many arguments"@),
        args@.len() == 0 ==> match current {
            Some(d) => r matches Some(m) && m@ == d@,
            None => r is None,
        },
{
    if args.len() > 0 {
        return Some("pwd: too many arguments".to_owned());
    }
    current
}

/// Where `cat` reads from.
pub enum CatSource {
    /// Standard input, line by line until it ends.
    Stdin,
    File(String),
}

/// The sources `cat` reads for its operands, in order: standard input when
/// there are none, and for each `-` or `--`.
pub open spec fn cat_sources_spec(args: Seq<Seq<char>>) -> Seq<Option<Seq<char>>> {
    if args.len() == 0 {
        seq![None]
    } else {
        Seq::new(args.len(), |i: int| if args[i] == "-"@ || args[i] == "--"@ { None } else { Some(args[i]) })
    }
}

pub open spec fn source_view(s: CatSource) -> Option<Seq<char>> {
    match s {
        CatSource::Stdin => None,
        CatSource::File(f) => Some(f@),
    }
}

/// Decides the sources `cat` reads.
pub fn builtin_cat(args: &[&str]) -> (r: Vec<CatSource>)
    ensures
        r@.len() == cat_sources_spec(str_views(args@)).len(),
        forall|i: int| 0 <= i < r@.len() ==> source_view(#[trigger] r@[i]) == cat_sources_spec(str_views(args@))[i],
{
    let mut r: Vec<CatSource> = Vec::new();
    if args.len() == 0 {
        r.push(CatSource::Stdin);
        return r;
    }
    let mut i: usize = 0;
    while i < args.len()
        invariant
            i <= args.len(),
            r@.len() == i,
            args@.len() > 0,
            forall|j: int| 0 <= j < i ==> source_view(#[trigger] r@[j]) == cat_sources_spec(str_views(args@))[j],
        decreases args.len() - i,
    {
        let a: &str = args[i];
        if same_text(a, "-") || same_text(a, "--") {
            r.push(CatSource::Stdin);
        } else {
            r.push(CatSource::File(a.to_owned()));
        }
        i = i + 1;
    }
    r
}

/// Whether `cat` keeps reading standard input after a read that gave
/// `line` (an empty read means the input has ended).
pub fn cat_continues(line: &str) -> (r: bool)
    ensures
        r == (line@.len() > 0),
{
    line.unicode_len() > 0
}

/// The line printed when the operand `arg` cannot be opened.
pub fn cat_open_failure(arg: &str) -> (r: String)
    ensures
        r@ == "cat: "@ + arg@ + ": No such file or directory"@,
{
    concat3("cat: ", arg, ": No such file or directory")
}

/// The line printed when the operand `arg` cannot be read.
pub fn cat_read_failure(arg: &str) -> (r: String)
    ensures
        r@ == "cat: "@ + arg@ + ": Is a directory"@,
{
    concat3("cat: ", arg, ": Is a directory")
}

} // verus!
