//! The pieces of `std::path` that the commands rely on, named by what they
//! compute: the last component of a path, and joining a name onto a path.

use vstd::prelude::*;
use vstd::string::*;

verus! {

/// The final component of path `p` as `Path::file_name` gives it (`None`
/// for a path that ends in `..`, the root, or the empty path).
pub uninterp spec fn file_name_of(p: Seq<char>) -> Option<Seq<char>>;

/// Calls `Path::file_name` on `p`; the contract names the answer `file_name_of(p)`.
#[verifier::external_body]
pub(crate) fn path_file_name(p: &str) -> (r: Option<String>)
    ensures
        match r {
            Some(n) => file_name_of(p@) == Some(n@),
            None => file_name_of(p@) is None,
        },
{
    match std::path::Path::new(p).file_name() {
        Some(f) => Some(f.to_string_lossy().into_owned()),
        None => None,
    }
}

/// `base` joined with `name` as `Path::join` gives it.
pub uninterp spec fn joined(base: Seq<char>, name: Seq<char>) -> Seq<char>;

/// Calls `Path::join`; the contract names the answer `joined(base, name)`.
#[verifier::external_body]
pub(crate) fn path_join(base: &str, name: &str) -> (r: String)
    ensures
        r@ == joined(base@, name@),
{
    std::path::Path::new(base).join(name).to_string_lossy().into_owned()
}

/// The path with its last component removed, as `PathBuf::pop` leaves it
/// (unchanged when there is no parent).
pub uninterp spec fn popped(p: Seq<char>) -> Seq<char>;

/// Calls `PathBuf::pop`; the contract names the result `popped(p)`.
#[verifier::external_body]
pub(crate) fn path_pop(p: &str) -> (r: String)
    ensures
        r@ == popped(p@),
{
    let mut b = std::path::PathBuf::from(p);
    b.pop();
    b.to_string_lossy().into_owned()
}

/// The path extended by `part` as `PathBuf::push` leaves it.
pub uninterp spec fn pushed(p: Seq<char>, part: Seq<char>) -> Seq<char>;

/// Calls `PathBuf::push`; the contract names the result `pushed(p, part)`.
#[verifier::external_body]
pub(crate) fn path_push(p: &str, part: &str) -> (r: String)
    ensures
        r@ == pushed(p@, part@),
{
    let mut b = std::path::PathBuf::from(p);
    b.push(part);
    b.to_string_lossy().into_owned()
}

} // verus!
