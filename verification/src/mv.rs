//! The `mv` command: checking the operands, where each source goes, and
//! what a failure reports.

use vstd::prelude::*;
use vstd::string::*;
use crate::output::concat3;
use crate::paths::{file_name_of, joined, path_file_name, path_join};
use crate::text::str_views;

verus! {

/// What `mv` was asked to do.
pub enum MvPlan {
    /// Print this line and stop.
    Report(String),
    Move { sources: Vec<String>, destination: String },
}

/// Checks the operands of `mv`, given what is known about the last one.
pub fn builtin_mv(args: &[&str], destination_exists: bool, destination_is_dir: bool) -> (r: MvPlan)
    ensures
        args@.len() < 2 ==> (r matches MvPlan::Report(m) && m@ == "mv: missing file operand"@),
        args@.len() > 2 && !destination_exists ==> (r matches MvPlan::Report(m)
            && m@ == "mv: target '"@ + args@.last()@ + "' is not a directory"@),
        args@.len() > 2 && destination_exists && !destination_is_dir ==> (r matches MvPlan::Report(m)
            && m@ == "mv: cannot overwrite non-directory '"@ + args@.last()@ + "' with multiple sources"@),
        args@.len() == 2 || (args@.len() > 2 && destination_exists && destination_is_dir) ==> (r matches MvPlan::Move { sources, destination }
            && destination@ == args@.last()@ && sources.deep_view() == str_views(args@).drop_last()),
{
    if args.len() < 2 {
        return MvPlan::Report("mv: missing file operand".to_owned());
    }
    let last = args.len() - 1;
    let destination = args[last];
    if last > 1 {
        if !destination_exists {
            return MvPlan::Report(concat3("mv: target '", destination, "' is not a directory"));
        }
        if !destination_is_dir {
            return MvPlan::Report(concat3("mv: cannot overwrite non-directory '", destination, "' with multiple sources"));
        }
    }
    let mut sources: Vec<String> = Vec::new();
    let mut i: usize = 0;
    while i < last
        invariant
            last == args@.len() - 1,
            i <= last,
            sources.deep_view() =~= str_views(args@).subrange(0, i as int),
        decreases last - i,
    {
        let ghost before = sources.deep_view();
        sources.push(args[i].to_owned());
        proof {
            assert(sources.deep_view() =~= before.push(args@[i as int]@));
        }
        i = i + 1;
    }
    MvPlan::Move { sources, destination: destination.to_owned() }
}

/// The kinds of I/O error `mv` tells apart.
#[derive(Clone, Copy, PartialEq, Eq, Structural)]
pub enum MoveErrorKind {
    NotFound,
    InvalidInput,
    Other,
}

/// The line `mv` prints for a failed source, and whether it stops there.
pub struct MoveFailure {
    pub message: String,
    pub stop: bool,
}

/// Decides what a failure to move `source` reports.
pub fn mv_failure(
    kind: MoveErrorKind,
    source: &str,
    destination: &str,
    destination_exists: bool,
    destination_is_dir: bool,
    err: &str,
) -> (r: MoveFailure)
    ensures
        kind == MoveErrorKind::NotFound ==> r.stop && r.message@ == "mv: cannot stat '"@ + source@ + "': No such file or directory"@,
        kind == MoveErrorKind::InvalidInput && destination_exists && !destination_is_dir ==> !r.stop
            && r.message@ == "mv: cannot overwrite non-directory '"@ + destination@ + "' with directory '"@ + source@ + "'"@,
        (kind == MoveErrorKind::Other || (kind == MoveErrorKind::InvalidInput && !(destination_exists && !destination_is_dir)))
            ==> !r.stop && r.message@ == "mv: "@ + err@,
{
    match kind {
        MoveErrorKind::NotFound => MoveFailure {
            message: concat3("mv: cannot stat '", source, "': No such file or directory"),
            stop: true,
        },
        MoveErrorKind::InvalidInput if destination_exists && !destination_is_dir => {
            let mut m = concat3("mv: cannot overwrite non-directory '", destination, "' with directory '");
            m.append(source);
            m.append("'");
            MoveFailure { message: m, stop: false }
        },
        _ => {
            let mut m = "mv: ".to_owned();
            m.append(err);
            MoveFailure { message: m, stop: false }
        },
    }
}

/// What the existence check on a source found.
pub enum SourceCheck {
    /// It exists.
    Present,
    /// It does not exist but is a symbolic link (whose target is missing).
    DanglingLink,
    /// It does not exist.
    NotFound,
}

/// Decides the existence check on a source: whether it exists, and what
/// reading its own metadata said (`None` when that failed, else whether it
/// is a symbolic link).
pub fn check_source(exists: bool, link: Option<bool>) -> (r: SourceCheck)
    ensures
        exists ==> r is Present,
        !exists && link == Some(true) ==> r is DanglingLink,
        !exists && link != Some(true) ==> r is NotFound,
{
    if exists {
        SourceCheck::Present
    } else {
        match link {
            Some(true) => SourceCheck::DanglingLink,
            _ => SourceCheck::NotFound,
        }
    }
}

/// Where a source is renamed to.
pub enum RenameTarget {
    /// Into the destination directory, under this path.
    Into(String),
    /// Onto the destination itself.
    Onto(String),
    /// The source has no final component: print this line.
    Busy(String),
}

/// Decides where `source` is renamed to.
pub fn rename_target(source: &str, destination: &str, destination_is_dir: bool) -> (r: RenameTarget)
    ensures
        !destination_is_dir ==> (r matches RenameTarget::Onto(p) && p@ == destination@),
        destination_is_dir ==> match file_name_of(source@) {
            Some(n) => r matches RenameTarget::Into(p) && p@ == joined(destination@, n),
            None => r matches RenameTarget::Busy(m)
                && m@ == "mv: cannot move '"@ + source@ + "' to '"@ + destination@ + "': Device or resource busy"@,
        },
{
    if destination_is_dir {
        match path_file_name(source) {
            Some(n) => RenameTarget::Into(path_join(destination, n.as_str())),
            None => {
                let mut m = concat3("mv: cannot move '", source, "' to '");
                m.append(destination);
                m.append("': Device or resource busy");
                RenameTarget::Busy(m)
            },
        }
    } else {
        RenameTarget::Onto(destination.to_owned())
    }
}

/// The line printed when renaming into a directory fails.
pub fn rename_into_failure(err: &str) -> (r: String)
    ensures
        r@ == "'"@ + err@ + "'"@,
{
    concat3("'", err, "'")
}

/// What moving one source does next.
pub enum MoveAction {
    /// The source does not exist: end this source's move with a not-found
    /// error carrying this text.
    NotFound(String),
    /// Copy the source onto the destination and remove the source (a
    /// failure of either ends this source's move), then go on.
    CopyAndRemove,
    /// Go on without touching the file system.
    Proceed,
    /// Rename the source to this path inside the destination directory; a
    /// failure is printed as `'error'` and the move goes on.
    RenameInto(String),
    /// Rename the source onto this path; a failure ends this source's move.
    RenameOnto(String),
    /// Print this line and go on.
    Print(String),
}

/// The first step of moving `source`, given whether it exists, what
/// reading its own metadata said (`None` when that failed, else whether it
/// is a symbolic link), and whether it is a regular file: a missing source
/// ends the move, a dangling link that is a regular file is copied over
/// and removed, anything else goes on to be placed.
pub fn source_step(source: &str, exists: bool, link: Option<bool>, is_file: bool) -> (r: MoveAction)
    ensures
        exists ==> r is Proceed,
        !exists && link == Some(true) ==> (if is_file { r is CopyAndRemove } else { r is Proceed }),
        !exists && link != Some(true) ==> (r matches MoveAction::NotFound(m)
            && m@ == "mv: cannot stat '"@ + source@ + "': No such file or directory"@),
{
    match check_source(exists, link) {
        SourceCheck::Present => MoveAction::Proceed,
        SourceCheck::DanglingLink => if is_file { MoveAction::CopyAndRemove } else { MoveAction::Proceed },
        SourceCheck::NotFound => MoveAction::NotFound(concat3("mv: cannot stat '", source, "': No such file or directory")),
    }
}

/// The second step: where `source` is renamed to (see `rename_target`).
pub fn place_step(source: &str, destination: &str, destination_is_dir: bool) -> (r: MoveAction)
    ensures
        !destination_is_dir ==> (r matches MoveAction::RenameOnto(p) && p@ == destination@),
        destination_is_dir ==> match file_name_of(source@) {
            Some(n) => r matches MoveAction::RenameInto(p) && p@ == joined(destination@, n),
            None => r matches MoveAction::Print(m)
                && m@ == "mv: cannot move '"@ + source@ + "' to '"@ + destination@ + "': Device or resource busy"@,
        },
{
    match rename_target(source, destination, destination_is_dir) {
        RenameTarget::Into(p) => MoveAction::RenameInto(p),
        RenameTarget::Onto(p) => MoveAction::RenameOnto(p),
        RenameTarget::Busy(m) => MoveAction::Print(m),
    }
}

/// The last step: a source that is still a regular file after renaming is
/// copied onto the destination and removed.
pub fn finish_step(source_is_file: bool) -> (r: MoveAction)
    ensures
        source_is_file ==> r is CopyAndRemove,
        !source_is_file ==> r is Proceed,
{
    if source_is_file { MoveAction::CopyAndRemove } else { MoveAction::Proceed }
}

} // verus!
