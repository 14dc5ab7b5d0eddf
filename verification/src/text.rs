//! Character-sequence helpers shared by the commands: decimal rendering,
//! padding, character removal and counting, trailing-whitespace trimming.

use vstd::prelude::*;
use vstd::string::*;

verus! {

/// Membership in the Unicode `White_Space` property, the set that
/// `char::is_whitespace` tests: tab, line feed, vertical tab, form feed,
/// carriage return, space, next line, no-break space, ogham space mark, the
/// en quad to hair space block, line and paragraph separators, narrow
/// no-break space, medium mathematical space and ideographic space.
pub open spec fn white_space(c: char) -> bool {
    let u = c as u32;
    ||| 0x09 <= u <= 0x0d
    ||| u == 0x20
    ||| u == 0x85
    ||| u == 0xa0
    ||| u == 0x1680
    ||| 0x2000 <= u <= 0x200a
    ||| u == 0x2028
    ||| u == 0x2029
    ||| u == 0x202f
    ||| u == 0x205f
    ||| u == 0x3000
}

/// Calls `char::is_whitespace`, which answers whether `c` has the Unicode
/// `White_Space` property (`white_space`).
#[verifier::external_body]
pub(crate) fn is_white(c: char) -> (r: bool)
    ensures
        r == white_space(c),
{
    c.is_whitespace()
}

/// Calls `String::push`, which appends one character at the end.
#[verifier::external_body]
pub(crate) fn push_char(s: &mut String, c: char)
    ensures
        final(s)@ == old(s)@.push(c),
{
    s.push(c)
}

/// The character of a decimal digit `d < 10`.
pub open spec fn digit_char(d: nat) -> char {
    ((48 + d) as u32) as char
}

/// Decimal rendering of a natural number, most significant digit first.
pub open spec fn dec(n: nat) -> Seq<char>
    decreases n,
{
    if n < 10 {
        seq![digit_char(n)]
    } else {
        dec(n / 10).push(digit_char(n % 10))
    }
}

/// The character for a digit below ten.
fn digit_of(d: u64) -> (c: char)
    requires
        d < 10,
    ensures
        c == digit_char(d as nat),
{
    if d == 0 { '0' } else if d == 1 { '1' } else if d == 2 { '2' } else if d == 3 { '3' }
    else if d == 4 { '4' } else if d == 5 { '5' } else if d == 6 { '6' } else if d == 7 { '7' }
    else if d == 8 { '8' } else { '9' }
}

/// Renders `n` in decimal.
pub fn decimal(n: u64) -> (r: String)
    ensures
        r@ == dec(n as nat),
{
    let mut digits: Vec<char> = Vec::new();
    let mut m: u64 = n;
    while m >= 10
        invariant
            dec(n as nat) =~= dec(m as nat) + digits@.reverse(),
        decreases m,
    {
        let c = digit_of(m % 10);
        proof {
            assert(digits@.push(c).reverse() =~= seq![c] + digits@.reverse());
        }
        digits.push(c);
        m = m / 10;
    }
    let c = digit_of(m);
    proof {
        assert(digits@.push(c).reverse() =~= seq![c] + digits@.reverse());
    }
    digits.push(c);
    let mut r = String::new();
    let mut i: usize = digits.len();
    while i > 0
        invariant
            i <= digits.len(),
            r@ =~= digits@.subrange(i as int, digits.len() as int).reverse(),
        decreases i,
    {
        i = i - 1;
        proof {
            assert(digits@.subrange(i as int, digits.len() as int) =~= seq![digits@[i as int]]
                + digits@.subrange(i + 1, digits.len() as int));
        }
        push_char(&mut r, digits[i]);
    }
    proof {
        assert(digits@.subrange(0, digits.len() as int) =~= digits@);
    }
    r
}

/// Calls `str::chars` and collects the characters in order.
#[verifier::external_body]
pub(crate) fn chars_of(s: &str) -> (r: Vec<char>)
    ensures
        r@ == s@,
{
    s.chars().collect()
}

/// `s` with every occurrence of `c` left out.
pub open spec fn drop_char(s: Seq<char>, c: char) -> Seq<char>
    decreases s.len(),
{
    if s.len() == 0 {
        s
    } else if s.last() == c {
        drop_char(s.drop_last(), c)
    } else {
        drop_char(s.drop_last(), c).push(s.last())
    }
}

/// How many times `c` occurs in `s`.
pub open spec fn count_char(s: Seq<char>, c: char) -> nat
    decreases s.len(),
{
    if s.len() == 0 {
        0
    } else if s.last() == c {
        count_char(s.drop_last(), c) + 1
    } else {
        count_char(s.drop_last(), c)
    }
}

/// The concatenation of `parts`, in order.
pub open spec fn concat_all(parts: Seq<Seq<char>>) -> Seq<char>
    decreases parts.len(),
{
    if parts.len() == 0 {
        Seq::empty()
    } else {
        concat_all(parts.drop_last()) + parts.last()
    }
}

/// Removes every occurrence of `c` (as `str::replace(c, "")` does).
pub fn remove_char(s: &str, c: char) -> (r: String)
    ensures
        r@ == drop_char(s@, c),
{
    let cs = chars_of(s);
    let mut r = String::new();
    let mut i: usize = 0;
    while i < cs.len()
        invariant
            i <= cs.len(),
            cs@ == s@,
            r@ == drop_char(s@.subrange(0, i as int), c),
        decreases cs.len() - i,
    {
        proof {
            assert(s@.subrange(0, i + 1).drop_last() =~= s@.subrange(0, i as int));
        }
        if cs[i] != c {
            push_char(&mut r, cs[i]);
        }
        i = i + 1;
    }
    proof {
        assert(s@.subrange(0, cs.len() as int) =~= s@);
    }
    r
}

/// Counts the occurrences of `c` in `s`.
pub fn count_occurrences(s: &str, c: char) -> (n: usize)
    ensures
        n == count_char(s@, c),
{
    let cs = chars_of(s);
    let mut n: usize = 0;
    let mut i: usize = 0;
    while i < cs.len()
        invariant
            i <= cs.len(),
            cs@ == s@,
            n == count_char(s@.subrange(0, i as int), c),
            n <= i,
        decreases cs.len() - i,
    {
        proof {
            assert(s@.subrange(0, i + 1).drop_last() =~= s@.subrange(0, i as int));
        }
        if cs[i] == c {
            n = n + 1;
        }
        i = i + 1;
    }
    proof {
        assert(s@.subrange(0, cs.len() as int) =~= s@);
    }
    n
}

/// Whether two strings hold the same characters.
pub fn same_text(a: &str, b: &str) -> (r: bool)
    ensures
        r == (a@ == b@),
{
    let ca = chars_of(a);
    let cb = chars_of(b);
    if ca.len() != cb.len() {
        return false;
    }
    let mut i: usize = 0;
    while i < ca.len()
        invariant
            i <= ca.len(),
            ca.len() == cb.len(),
            ca@ == a@,
            cb@ == b@,
            forall|j: int| 0 <= j < i ==> ca@[j] == cb@[j],
        decreases ca.len() - i,
    {
        if ca[i] != cb[i] {
            return false;
        }
        i = i + 1;
    }
    proof {
        assert(a@ =~= b@);
    }
    true
}

/// `n` spaces.
pub open spec fn spaces(n: nat) -> Seq<char> {
    Seq::new(n, |i: int| ' ')
}

/// `s` right-aligned in a field of `width` characters (as `{:>width$}`).
pub open spec fn pad_left_spec(s: Seq<char>, width: nat) -> Seq<char> {
    if s.len() < width {
        spaces((width - s.len()) as nat) + s
    } else {
        s
    }
}

/// Right-aligns `s` in a field of `width` characters.
pub fn pad_left(s: &str, width: usize) -> (r: String)
    ensures
        r@ == pad_left_spec(s@, width as nat),
{
    let cs = chars_of(s);
    let mut r = String::new();
    if cs.len() < width {
        let mut k: usize = 0;
        while k < width - cs.len()
            invariant
                cs@ == s@,
                cs.len() < width,
                k <= width - cs.len(),
                r@ =~= spaces(k as nat),
            decreases width - cs.len() - k,
        {
            push_char(&mut r, ' ');
            k = k + 1;
        }
    }
    r.append(s);
    proof {
        assert(r@ =~= pad_left_spec(s@, width as nat));
    }
    r
}

/// `s` without its trailing whitespace (as `str::trim_end`).
pub open spec fn trim_end_spec(s: Seq<char>) -> Seq<char>
    decreases s.len(),
{
    if s.len() > 0 && white_space(s.last()) {
        trim_end_spec(s.drop_last())
    } else {
        s
    }
}

proof fn lemma_trim_end_prefix(s: Seq<char>, k: int)
    requires
        0 <= k <= s.len(),
        forall|j: int| k <= j < s.len() ==> white_space(#[trigger] s[j]),
    ensures
        trim_end_spec(s) == trim_end_spec(s.subrange(0, k)),
    decreases s.len() - k,
{
    if k < s.len() {
        assert(s.drop_last() =~= s.subrange(0, s.len() - 1));
        lemma_trim_end_prefix(s.drop_last(), k);
        assert(s.drop_last().subrange(0, k) =~= s.subrange(0, k));
    } else {
        assert(s.subrange(0, k) =~= s);
    }
}

/// Removes trailing whitespace.
pub fn trim_end(s: &str) -> (r: String)
    ensures
        r@ == trim_end_spec(s@),
{
    let cs = chars_of(s);
    let mut k: usize = cs.len();
    while k > 0 && is_white(cs[k - 1])
        invariant
            cs@ == s@,
            k <= cs.len(),
            forall|j: int| k <= j < s@.len() ==> white_space(#[trigger] s@[j]),
        decreases k,
    {
        k = k - 1;
    }
    proof {
        lemma_trim_end_prefix(s@, k as int);
        let t = s@.subrange(0, k as int);
        assert(!(t.len() > 0 && white_space(t.last())));
    }
    let mut r = String::new();
    let mut i: usize = 0;
    while i < k
        invariant
            cs@ == s@,
            k <= cs.len(),
            i <= k,
            r@ =~= s@.subrange(0, i as int),
        decreases k - i,
    {
        push_char(&mut r, cs[i]);
        i = i + 1;
    }
    r
}

/// Byte length of the UTF-8 encoding of `s`.
pub open spec fn utf8_len(s: Seq<char>) -> nat {
    vstd::utf8::encode_utf8(s).len()
}

/// Length of `s` in bytes.
pub fn byte_count(s: &str) -> (n: usize)
    ensures
        n == utf8_len(s@),
{
    s.as_bytes().len()
}

/// The lowercase form of `s` produced by `str::to_lowercase`.
pub uninterp spec fn lowercase(s: Seq<char>) -> Seq<char>;

/// Calls `str::to_lowercase`; the contract names its answer `lowercase(s)`.
#[verifier::external_body]
pub(crate) fn to_lower(s: &str) -> (r: String)
    ensures
        r@ == lowercase(s@),
{
    s.to_lowercase()
}

/// `a` sorts before or together with `b`: character-wise lexicographic
/// order (the order of `str`'s `Ord`, which UTF-8 byte order preserves).
pub open spec fn lex_le(a: Seq<char>, b: Seq<char>) -> bool
    decreases a.len(),
{
    if a.len() == 0 {
        true
    } else if b.len() == 0 {
        false
    } else if a[0] != b[0] {
        (a[0] as u32) < (b[0] as u32)
    } else {
        lex_le(a.drop_first(), b.drop_first())
    }
}

/// Decides `lex_le`.
pub fn lex_less_or_equal(a: &str, b: &str) -> (r: bool)
    ensures
        r == lex_le(a@, b@),
{
    let ca = chars_of(a);
    let cb = chars_of(b);
    let mut i: usize = 0;
    proof {
        assert(a@.skip(0) =~= a@);
        assert(b@.skip(0) =~= b@);
    }
    while i < ca.len() && i < cb.len() && ca[i] == cb[i]
        invariant
            ca@ == a@,
            cb@ == b@,
            i <= ca.len(),
            i <= cb.len(),
            lex_le(a@, b@) == lex_le(a@.skip(i as int), b@.skip(i as int)),
        decreases ca.len() - i,
    {
        proof {
            assert(a@.skip(i as int).drop_first() =~= a@.skip(i + 1));
            assert(b@.skip(i as int).drop_first() =~= b@.skip(i + 1));
        }
        i = i + 1;
    }
    if i == ca.len() {
        true
    } else if i == cb.len() {
        false
    } else {
        (ca[i] as u32) < (cb[i] as u32)
    }
}

/// `parts` joined with `sep` between consecutive parts.
pub open spec fn join_spec(parts: Seq<Seq<char>>, sep: Seq<char>) -> Seq<char>
    decreases parts.len(),
{
    if parts.len() == 0 {
        Seq::empty()
    } else if parts.len() == 1 {
        parts[0]
    } else {
        join_spec(parts.drop_last(), sep) + sep + parts.last()
    }
}

pub open spec fn str_views(v: Seq<&str>) -> Seq<Seq<char>> {
    Seq::new(v.len(), |i: int| v[i]@)
}

/// Joins `parts` with `sep` (as `[&str]::join`).
pub fn join_strs(parts: &[&str], sep: &str) -> (r: String)
    ensures
        r@ == join_spec(str_views(parts@), sep@),
{
    let ghost all = str_views(parts@);
    let mut r = String::new();
    let mut i: usize = 0;
    proof {
        assert(all.subrange(0, 0) =~= Seq::<Seq<char>>::empty());
    }
    while i < parts.len()
        invariant
            all == str_views(parts@),
            i <= parts.len(),
            r@ == join_spec(all.subrange(0, i as int), sep@),
        decreases parts.len() - i,
    {
        proof {
            assert(all.subrange(0, i + 1).drop_last() =~= all.subrange(0, i as int));
        }
        if i > 0 {
            r.append(sep);
        } else {
            proof {
                assert(all.subrange(0, 1)[0] == all[0]);
            }
        }
        r.append(parts[i]);
        i = i + 1;
    }
    proof {
        assert(all.subrange(0, parts@.len() as int) =~= all);
    }
    r
}

/// The pieces of `s` between occurrences of `c` (as `str::split(c)`):
/// one more piece than there are occurrences.
pub open spec fn split_spec(s: Seq<char>, c: char) -> Seq<Seq<char>>
    decreases s.len(),
{
    if s.len() == 0 {
        seq![Seq::empty()]
    } else {
        let init = split_spec(s.drop_last(), c);
        if s.last() == c {
            init.push(Seq::empty())
        } else {
            init.update(init.len() - 1, init.last().push(s.last()))
        }
    }
}

proof fn lemma_split_nonempty(s: Seq<char>, c: char)
    ensures
        split_spec(s, c).len() >= 1,
    decreases s.len(),
{
    if s.len() > 0 {
        lemma_split_nonempty(s.drop_last(), c);
    }
}

/// Splits `s` at every `c`.
pub fn split_at_char(s: &str, c: char) -> (r: Vec<String>)
    ensures
        r.deep_view() == split_spec(s@, c),
{
    let cs = chars_of(s);
    let mut pieces: Vec<String> = Vec::new();
    let mut cur = String::new();
    let mut i: usize = 0;
    proof {
        assert(s@.subrange(0, 0) =~= Seq::<char>::empty());
        assert(pieces.deep_view().push(cur@) =~= split_spec(Seq::empty(), c));
    }
    while i < cs.len()
        invariant
            cs@ == s@,
            i <= cs.len(),
            pieces.deep_view().push(cur@) == split_spec(s@.subrange(0, i as int), c),
        decreases cs.len() - i,
    {
        proof {
            assert(s@.subrange(0, i + 1).drop_last() =~= s@.subrange(0, i as int));
            lemma_split_nonempty(s@.subrange(0, i as int), c);
        }
        let ghost before = pieces.deep_view();
        if cs[i] == c {
            let done = cur;
            pieces.push(done);
            cur = String::new();
            proof {
                assert(pieces.deep_view() =~= before.push(done@));
                assert(pieces.deep_view().push(cur@) =~= split_spec(s@.subrange(0, i + 1), c));
            }
        } else {
            let ghost old_cur = cur@;
            push_char(&mut cur, cs[i]);
            proof {
                assert(pieces.deep_view().push(cur@) =~= before.push(old_cur).update(before.len() as int, old_cur.push(cs@[i as int])));
            }
        }
        i = i + 1;
    }
    proof {
        assert(s@.subrange(0, cs.len() as int) =~= s@);
    }
    let ghost before = pieces.deep_view();
    pieces.push(cur);
    proof {
        assert(pieces.deep_view() =~= before.push(cur@));
    }
    pieces
}

/// `s` without leading and trailing whitespace (as `str::trim`).
pub open spec fn trim_spec(s: Seq<char>) -> Seq<char> {
    trim_start_spec(trim_end_spec(s))
}

/// `s` without leading whitespace.
pub open spec fn trim_start_spec(s: Seq<char>) -> Seq<char>
    decreases s.len(),
{
    if s.len() > 0 && white_space(s[0]) {
        trim_start_spec(s.drop_first())
    } else {
        s
    }
}

/// Removes leading and trailing whitespace.
pub fn trim(s: &str) -> (r: String)
    ensures
        r@ == trim_spec(s@),
{
    let t = trim_end(s);
    let cs = chars_of(t.as_str());
    let mut k: usize = 0;
    proof {
        assert(t@.skip(0) =~= t@);
    }
    while k < cs.len() && is_white(cs[k])
        invariant
            cs@ == t@,
            k <= cs.len(),
            trim_start_spec(t@) == trim_start_spec(t@.skip(k as int)),
        decreases cs.len() - k,
    {
        proof {
            assert(t@.skip(k as int).drop_first() =~= t@.skip(k + 1));
        }
        k = k + 1;
    }
    let mut r = String::new();
    let mut i: usize = k;
    while i < cs.len()
        invariant
            cs@ == t@,
            k <= i <= cs.len(),
            r@ =~= t@.subrange(k as int, i as int),
        decreases cs.len() - i,
    {
        push_char(&mut r, cs[i]);
        i = i + 1;
    }
    proof {
        assert(r@ =~= t@.skip(k as int));
    }
    r
}

/// Right-aligning keeps the text whole at the right end of a field that is
/// `width` characters wide, or exactly as wide as the text when it is
/// longer, and fills the rest with spaces.
pub proof fn law_pad_left_right_aligns(s: Seq<char>, width: nat)
    ensures
        pad_left_spec(s, width).len() == (if s.len() < width { width } else { s.len() }),
        pad_left_spec(s, width).subrange(pad_left_spec(s, width).len() - s.len(), pad_left_spec(s, width).len() as int) == s,
        forall|i: int| 0 <= i < pad_left_spec(s, width).len() - s.len() ==> #[trigger] pad_left_spec(s, width)[i] == ' ',
{
    let p = pad_left_spec(s, width);
    assert(p.subrange(p.len() - s.len(), p.len() as int) =~= s);
}

} // verus!
