//! The `cd` command: which directory is meant, and the check made before
//! changing to it.

use vstd::prelude::*;
use vstd::string::*;
use crate::paths::{path_pop, path_push, popped, pushed};
use crate::text::{same_text, split_at_char, split_spec};

verus! {

/// Where `cd` goes.
pub enum CdRequest {
    /// To the user's home directory.
    Home,
    /// To this operand.
    Target(String),
}

/// Reads the operands of `cd`: none, or `~`, means home.
pub fn builtin_cd(args: &[&str]) -> (r: CdRequest)
    ensures
        args@.len() == 0 || args@[0]@ == "~"@ ==> r is Home,
        !(args@.len() == 0 || args@[0]@ == "~"@) ==> (r matches CdRequest::Target(t) && t@ == args@[0]@),
{
    if args.len() == 0 || same_text(args[0], "~") {
        CdRequest::Home
    } else {
        CdRequest::Target(args[0].to_owned())
    }
}

/// The home directory of user `user` as the shell assumes it.
pub open spec fn home_of(user: Seq<char>) -> Seq<char> {
    "/home/"@ + user
}

/// Computes `home_of`.
pub fn home_path_for(user: &str) -> (r: String)
    ensures
        r@ == home_of(user@),
{
    let mut r = "/home/".to_owned();
    r.append(user);
    r
}

/// The path reached from `current` by following the `/`-separated parts
/// of `arg`: `..` removes a component, anything else (empty parts too) is
/// pushed.
pub open spec fn walk(current: Seq<char>, parts: Seq<Seq<char>>) -> Seq<char>
    decreases parts.len(),
{
    if parts.len() == 0 {
        current
    } else {
        let base = walk(current, parts.drop_last());
        if parts.last() == ".."@ {
            popped(base)
        } else {
            pushed(base, parts.last())
        }
    }
}

/// The path `check_path` tests for `arg`, starting from `current`.
pub open spec fn checked_path(current: Seq<char>, arg: Seq<char>) -> Seq<char> {
    walk(current, split_spec(arg, '/'))
}

/// Computes the path that is checked before `cd arg`.
pub fn check_path(arg: &str, current: &str) -> (r: String)
    ensures
        r@ == checked_path(current@, arg@),
{
    let parts = split_at_char(arg, '/');
    let mut p = current.to_owned();
    let mut i: usize = 0;
    proof {
        assert(parts.deep_view().subrange(0, 0) =~= Seq::<Seq<char>>::empty());
    }
    while i < parts.len()
        invariant
            i <= parts.len(),
            p@ == walk(current@, parts.deep_view().subrange(0, i as int)),
        decreases parts.len() - i,
    {
        proof {
            assert(parts.deep_view().subrange(0, i + 1).drop_last() =~= parts.deep_view().subrange(0, i as int));
            assert(parts.deep_view().subrange(0, i + 1).last() == parts@[i as int]@);
        }
        if same_text(parts[i].as_str(), "..") {
            p = path_pop(p.as_str());
        } else {
            p = path_push(p.as_str(), parts[i].as_str());
        }
        i = i + 1;
    }
    proof {
        assert(parts.deep_view().subrange(0, parts.len() as int) =~= parts.deep_view());
    }
    p
}

/// The line printed when `cd arg` cannot go there.
pub fn cd_failure(arg: &str) -> (r: String)
    ensures
        r@ == "cd: can't cd to "@ + arg@,
{
    let mut r = "cd: can't cd to ".to_owned();
    r.append(arg);
    r
}

} // verus!
