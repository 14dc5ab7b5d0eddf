//! Text destined for the terminal.

use vstd::prelude::*;
use vstd::string::*;

verus! {

/// A piece of text for standard output or standard error, printed as it
/// stands (line ends included).
pub struct Emit {
    pub to_stderr: bool,
    pub text: String,
}

pub open spec fn emit_view(e: Emit) -> (bool, Seq<char>) {
    (e.to_stderr, e.text@)
}

pub open spec fn emits_view(v: Seq<Emit>) -> Seq<(bool, Seq<char>)> {
    Seq::new(v.len(), |i: int| emit_view(v[i]))
}

/// A line on standard output.
pub open spec fn out_line(s: Seq<char>) -> (bool, Seq<char>) {
    (false, s + "\n"@)
}

/// A line on standard error.
pub open spec fn err_line(s: Seq<char>) -> (bool, Seq<char>) {
    (true, s + "\n"@)
}

/// Text on standard output without a line end.
pub open spec fn out_text(s: Seq<char>) -> (bool, Seq<char>) {
    (false, s)
}

/// Makes a line for standard output.
pub fn stdout_line(s: String) -> (e: Emit)
    ensures
        emit_view(e) == out_line(s@),
{
    let mut t = s;
    t.append("\n");
    Emit { to_stderr: false, text: t }
}

/// Makes a line for standard error.
pub fn stderr_line(s: String) -> (e: Emit)
    ensures
        emit_view(e) == err_line(s@),
{
    let mut t = s;
    t.append("\n");
    Emit { to_stderr: true, text: t }
}

/// Appends `e` to `v`.
pub fn emit(v: &mut Vec<Emit>, e: Emit)
    ensures
        emits_view(final(v)@) == emits_view(old(v)@).push(emit_view(e)),
{
    v.push(e);
    proof {
        assert(emits_view(final(v)@) =~= emits_view(old(v)@).push(emit_view(e)));
    }
}

/// Joins two pieces of text into one string.
pub fn concat2(a: &str, b: &str) -> (r: String)
    ensures
        r@ == a@ + b@,
{
    let mut r = a.to_owned();
    r.append(b);
    r
}

/// Joins three pieces of text into one string.
pub fn concat3(a: &str, b: &str, c: &str) -> (r: String)
    ensures
        r@ == a@ + b@ + c@,
{
    let mut r = a.to_owned();
    r.append(b);
    r.append(c);
    r
}

/// Joins four pieces of text into one string.
pub fn concat4(a: &str, b: &str, c: &str, d: &str) -> (r: String)
    ensures
        r@ == a@ + b@ + c@ + d@,
{
    let mut r = concat3(a, b, c);
    r.append(d);
    r
}

} // verus!
