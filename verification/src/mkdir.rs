//! The `mkdir` command.

use vstd::prelude::*;
use vstd::string::*;
use crate::output::concat3;
use crate::text::chars_of;

verus! {

/// What `mkdir` does with one operand.
pub enum MkdirStep {
    /// It exists already: print this line.
    Exists(String),
    /// Create it.
    Create(String),
}

/// Decides what `mkdir` does with `arg`.
pub fn builtin_mkdir(arg: &str, exists: bool) -> (r: MkdirStep)
    ensures
        exists ==> (r matches MkdirStep::Exists(m) && m@ == "mkdir: cannot create directory '"@ + arg@ + "': File exists"@),
        !exists ==> (r matches MkdirStep::Create(p) && p@ == arg@),
{
    if exists {
        MkdirStep::Exists(concat3("mkdir: cannot create directory '", arg, "': File exists"))
    } else {
        MkdirStep::Create(arg.to_owned())
    }
}

/// Whether `p` occurs in `s` at position `k`.
pub open spec fn occurs_at(s: Seq<char>, p: Seq<char>, k: int) -> bool {
    0 <= k && k + p.len() <= s.len() && s.subrange(k, k + p.len()) == p
}

/// The part of `s` before the first occurrence of `p` (all of `s` when
/// `p` does not occur), as `s.split(p).next()` gives it.
pub open spec fn before_first(s: Seq<char>, p: Seq<char>) -> Seq<char> {
    if exists|k: int| occurs_at(s, p, k) {
        s.subrange(0, choose|k: int| occurs_at(s, p, k) && forall|j: int| 0 <= j < k ==> !occurs_at(s, p, j))
    } else {
        s
    }
}

/// The error text shown without the ` (os error N)` suffix.
pub open spec fn cleaned_error(err: Seq<char>) -> Seq<char> {
    before_first(err, " (os error"@)
}

/// Cuts `s` before the first occurrence of `p`.
pub fn cut_before(s: &str, p: &str) -> (r: String)
    requires
        p@.len() > 0,
    ensures
        r@ == before_first(s@, p@),
{
    let cs = chars_of(s);
    let ps = chars_of(p);
    let mut k: usize = 0;
    let mut found = false;
    while k < cs.len() && !found
        invariant
            cs@ == s@,
            ps@ == p@,
            k <= cs.len(),
            !found ==> forall|j: int| 0 <= j < k ==> !occurs_at(s@, p@, j),
            found ==> k > 0 && occurs_at(s@, p@, k - 1) && forall|j: int| 0 <= j < k - 1 ==> !occurs_at(s@, p@, j),
        decreases cs.len() - k + (if found { 0int } else { 1int }),
    {
        let mut matches = ps.len() <= cs.len() - k;
        let mut m: usize = 0;
        while matches && m < ps.len()
            invariant
                cs@ == s@,
                ps@ == p@,
                k < cs.len(),
                m <= ps.len(),
                matches ==> k + ps.len() <= cs.len(),
                matches ==> forall|x: int| 0 <= x < m ==> cs@[k + x] == ps@[x],
                !matches ==> !occurs_at(s@, p@, k as int),
            decreases ps.len() - m + (if matches { 1int } else { 0int }),
        {
            if cs[k + m] != ps[m] {
                matches = false;
                proof {
                    assert(s@.subrange(k as int, k + p@.len())[m as int] == s@[k + m]);
                }
            } else {
                m = m + 1;
            }
        }
        if matches {
            proof {
                assert(s@.subrange(k as int, k + p@.len()) =~= p@);
            }
            found = true;
        }
        k = k + 1;
    }
    let end: usize = if found { k - 1 } else { cs.len() };
    proof {
        if found {
            let w = choose|j: int| occurs_at(s@, p@, j) && forall|i: int| 0 <= i < j ==> !occurs_at(s@, p@, i);
            assert(occurs_at(s@, p@, (k - 1) as int));
            if w < k - 1 {
                assert(!occurs_at(s@, p@, w));
            } else if w > k - 1 {
                assert(!occurs_at(s@, p@, (k - 1) as int));
            }
            assert(w == k - 1);
        } else {
            assert forall|j: int| !occurs_at(s@, p@, j) by {
                if 0 <= j < cs.len() {
                } else if j >= cs.len() {
                    assert(p@.len() > 0);
                }
            }
        }
    }
    let mut r = String::new();
    let mut i: usize = 0;
    while i < end
        invariant
            cs@ == s@,
            end <= cs.len(),
            i <= end,
            r@ =~= s@.subrange(0, i as int),
        decreases end - i,
    {
        crate::text::push_char(&mut r, cs[i]);
        i = i + 1;
    }
    r
}

/// The line `mkdir` prints when creating `arg` fails with error text `err`.
pub fn mkdir_failure(arg: &str, err: &str) -> (r: String)
    ensures
        r@ == "mkdir: cannot create directory '"@ + arg@ + "': "@ + cleaned_error(err@),
{
    proof {
        reveal_strlit(" (os error");
    }
    let clean = cut_before(err, " (os error");
    let mut r = concat3("mkdir: cannot create directory '", arg, "': ");
    r.append(clean.as_str());
    r
}

/// The error text `mkdir` shows never holds ` (os error` any more: it is
/// the part before the first occurrence.
pub proof fn law_cleaned_error_has_no_os_error(err: Seq<char>)
    ensures
        forall|k: int| !occurs_at(cleaned_error(err), " (os error"@, k),
{
    let p = " (os error"@;
    reveal_strlit(" (os error");
    if exists|k: int| occurs_at(err, p, k) {
        assert(exists|k: int| occurs_at(err, p, k) && forall|j: int| 0 <= j < k ==> !occurs_at(err, p, j)) by {
            let k0 = choose|k: int| occurs_at(err, p, k);
            lemma_first_occurrence(err, p, k0);
        }
        let w = choose|k: int| occurs_at(err, p, k) && forall|j: int| 0 <= j < k ==> !occurs_at(err, p, j);
        let c = err.subrange(0, w);
        assert(cleaned_error(err) == c);
        assert forall|k: int| !occurs_at(c, p, k) by {
            if occurs_at(c, p, k) {
                assert(c.subrange(k, k + p.len()) =~= err.subrange(k, k + p.len()));
                assert(occurs_at(err, p, k));
                assert(k < w);
            }
        }
    }
}

proof fn lemma_first_occurrence(s: Seq<char>, p: Seq<char>, k: int)
    requires
        occurs_at(s, p, k),
    ensures
        exists|w: int| occurs_at(s, p, w) && forall|j: int| 0 <= j < w ==> !occurs_at(s, p, j),
    decreases k,
{
    if exists|j: int| 0 <= j < k && occurs_at(s, p, j) {
        let j = choose|j: int| 0 <= j < k && occurs_at(s, p, j);
        lemma_first_occurrence(s, p, j);
    } else {
        assert(forall|j: int| 0 <= j < k ==> !occurs_at(s, p, j));
    }
}

} // verus!
