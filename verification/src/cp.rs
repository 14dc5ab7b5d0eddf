//! The `cp` command: what to copy where, and what to report.

use vstd::prelude::*;
use vstd::string::*;
use crate::paths::{file_name_of, joined, path_file_name, path_join};
use crate::text::{str_views};

verus! {

/// The text `{:?}` gives for a path, as `<Path as Debug>::fmt` writes it.
pub uninterp spec fn debug_form(p: Seq<char>) -> Seq<char>;

/// Formats `Path::new(p)` with `{:?}`; the contract names the text `debug_form(p)`.
#[verifier::external_body]
fn path_debug(p: &str) -> (r: String)
    ensures
        r@ == debug_form(p@),
{
    format!("{:?}", std::path::Path::new(p))
}

/// What `cp` was asked to do.
pub enum CpRequest {
    /// No operands: nothing happens.
    Nothing,
    /// One source and a destination.
    Single { source: String, destination: String },
    /// Any other number of sources (possibly none) and a destination.
    Multiple { sources: Vec<String>, destination: String },
}

/// Splits the operands of `cp`: the last is the destination, the others
/// are sources.
pub fn builtin_cp(args: &[&str]) -> (r: CpRequest)
    ensures
        args@.len() == 0 ==> r is Nothing,
        args@.len() == 2 ==> (r matches CpRequest::Single { source, destination }
            && source@ == args@[0]@ && destination@ == args@[1]@),
        args@.len() != 0 && args@.len() != 2 ==> (r matches CpRequest::Multiple { sources, destination }
            && destination@ == args@[args@.len() - 1]@
            && sources.deep_view() == str_views(args@).drop_last()),
{
    if args.len() == 0 {
        return CpRequest::Nothing;
    }
    let last = args.len() - 1;
    let destination = args[last].to_owned();
    if last == 1 {
        return CpRequest::Single { source: args[0].to_owned(), destination };
    }
    let mut sources: Vec<String> = Vec::new();
    let mut i: usize = 0;
    while i < last
        invariant
            last == args@.len() - 1,
            i <= last,
            sources.deep_view() =~= str_views(args@).subrange(0, i as int),
        decreases last - i,
    {
        let ghost before = sources.deep_view();
        sources.push(args[i].to_owned());
        proof {
            assert(sources.deep_view() =~= before.push(args@[i as int]@));
        }
        i = i + 1;
    }
    CpRequest::Multiple { sources, destination }
}

/// What is known about the paths of a one-source copy.
#[derive(Clone, Copy)]
pub struct SingleFacts {
    pub source_exists: bool,
    pub destination_exists: bool,
    pub source_is_file: bool,
    pub destination_is_dir: bool,
}

/// One step of `cp`: report a line, or copy a file.
pub enum CopyStep {
    Report(String),
    Copy { from: String, to: String },
}

/// What a one-source copy does.
pub open spec fn single_copy_spec(source: Seq<char>, destination: Seq<char>, f: SingleFacts, r: CopyStep) -> bool {
    if !f.source_exists {
        r matches CopyStep::Report(m) && m@ == "cp: cannot stat '"@ + destination + "': No such file or directory"@
    } else if !f.destination_exists {
        r matches CopyStep::Report(m) && m@ == "Pcp: cannot stat '"@ + destination + "': No a directory"@
    } else if !f.source_is_file {
        r matches CopyStep::Report(m) && m@ == debug_form(source) + " is not a file"@
    } else if f.destination_is_dir {
        match file_name_of(source) {
            Some(n) => r matches CopyStep::Copy { from, to } && from@ == source && to@ == joined(destination, n),
            None => r matches CopyStep::Report(m) && m@ == "Error: Could not extract filename from "@ + debug_form(source),
        }
    } else {
        r matches CopyStep::Copy { from, to } && from@ == source && to@ == destination
    }
}

/// Decides a one-source copy.
pub fn handle_single_file(source: &str, destination: &str, facts: SingleFacts) -> (r: CopyStep)
    ensures
        single_copy_spec(source@, destination@, facts, r),
{
    if !facts.source_exists {
        let m = crate::output::concat3("cp: cannot stat '", destination, "': No such file or directory");
        return CopyStep::Report(m);
    }
    if !facts.destination_exists {
        let m = crate::output::concat3("Pcp: cannot stat '", destination, "': No a directory");
        return CopyStep::Report(m);
    }
    if !facts.source_is_file {
        let d = path_debug(source);
        return CopyStep::Report(crate::output::concat2(d.as_str(), " is not a file"));
    }
    if facts.destination_is_dir {
        match path_file_name(source) {
            Some(n) => CopyStep::Copy { from: source.to_owned(), to: path_join(destination, n.as_str()) },
            None => {
                let d = path_debug(source);
                CopyStep::Report(crate::output::concat2("Error: Could not extract filename from ", d.as_str()))
            },
        }
    } else {
        CopyStep::Copy { from: source.to_owned(), to: destination.to_owned() }
    }
}

/// The line reported when a one-source copy fails.
pub fn copy_file_failure(source: &str) -> (r: String)
    ensures
        r@ == "cp: cannot open "@ + source@ + "' for reading: Permission denied"@,
{
    crate::output::concat3("cp: cannot open ", source, "' for reading: Permission denied")
}

/// How a copy into a directory starts.
pub enum MultipleStart {
    /// The destination is not a directory: report and stop.
    NotADirectory(String),
    /// Create the destination (and its parents) first.
    CreateFirst,
    Proceed,
}

/// Decides how a copy of several sources into `destination` starts.
pub fn handle_multiple_files(destination: &str, destination_is_dir: bool, destination_exists: bool) -> (r: MultipleStart)
    ensures
        !destination_is_dir ==> (r matches MultipleStart::NotADirectory(m) && m@ == "'"@ + destination@ + "' is not a directory"@),
        destination_is_dir && !destination_exists ==> r is CreateFirst,
        destination_is_dir && destination_exists ==> r is Proceed,
{
    if !destination_is_dir {
        MultipleStart::NotADirectory(crate::output::concat3("'", destination, "' is not a directory"))
    } else if !destination_exists {
        MultipleStart::CreateFirst
    } else {
        MultipleStart::Proceed
    }
}

/// The line reported when creating the destination fails.
pub fn create_dir_failure(err: &str) -> (r: String)
    ensures
        r@ == "Failed to create directory: "@ + err@,
{
    crate::output::concat2("Failed to create directory: ", err)
}

/// One source of a copy into a directory.
pub enum CopyIntoStep {
    /// The source does not exist: report and stop copying.
    Stop(String),
    Copy { from: String, to: String },
    /// The source has no final component: a fatal error for the caller.
    NoFileName,
}

/// Decides the copy of `file` into `destination`.
pub fn copy_into_step(file: &str, destination: &str, exists: bool) -> (r: CopyIntoStep)
    ensures
        !exists ==> (r matches CopyIntoStep::Stop(m) && m@ == "Error: '"@ + file@ + "' does not exist"@),
        exists ==> match file_name_of(file@) {
            Some(n) => r matches CopyIntoStep::Copy { from, to } && from@ == file@ && to@ == joined(destination@, n),
            None => r is NoFileName,
        },
{
    if !exists {
        return CopyIntoStep::Stop(crate::output::concat3("Error: '", file, "' does not exist"));
    }
    match path_file_name(file) {
        Some(n) => CopyIntoStep::Copy { from: file.to_owned(), to: path_join(destination, n.as_str()) },
        None => CopyIntoStep::NoFileName,
    }
}

/// The line reported when copying one of several sources fails.
pub fn copy_into_failure(file: &str, err: &str) -> (r: String)
    ensures
        r@ == "Failed to copy '"@ + file@ + "': "@ + err@,
{
    let mut r = crate::output::concat3("Failed to copy '", file, "': ");
    r.append(err);
    r
}

} // verus!
