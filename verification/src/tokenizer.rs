//! Splitting a command line into words.
//!
//! Words are separated by whitespace; a single or double quote opens a
//! quoted word that runs to the next occurrence of the same quote.  Word
//! boundaries are found by character position, and the text of a word is
//! cut out of the line by using those positions as byte offsets into its
//! UTF-8 encoding (so on non-ASCII lines the cut can fall inside a
//! character, in which case there is no answer).  A line that ends inside
//! a quote is not finished: it yields a [`QuoteContinuation`] that more
//! lines are fed into until the quote is closed or input ends.

use vstd::prelude::*;
use vstd::string::*;
use vstd::utf8::*;
use crate::text::{
    chars_of, concat_all, count_char, count_occurrences, drop_char, is_white, push_char,
    remove_char, same_text, white_space,
};

verus! {

broadcast use vstd::utf8::encode_utf8_valid_utf8;

/// `to` and `from`, taken as byte offsets into the UTF-8 encoding of
/// `input`, are in order, in range and on character boundaries.
pub open spec fn cut_ok(input: Seq<char>, from: int, to: int) -> bool {
    &&& 0 <= from <= to <= encode_utf8(input).len()
    &&& is_char_boundary(encode_utf8(input), from)
    &&& is_char_boundary(encode_utf8(input), to)
}

/// The text between byte offsets `from` and `to` of `input`.
pub open spec fn slice_at(input: Seq<char>, from: int, to: int) -> Seq<char> {
    decode_utf8(encode_utf8(input).subrange(from, to))
}

/// Byte length of the UTF-8 encoding of `input`.
pub open spec fn byte_len(input: Seq<char>) -> int {
    encode_utf8(input).len() as int
}

/// Calls `str::index` with the byte range `from..to` and copies the slice
/// into a new `String`; the range must lie on character boundaries.
#[verifier::external_body]
fn slice_owned(s: &str, from: usize, to: usize) -> (r: String)
    requires
        cut_ok(s@, from as int, to as int),
    ensures
        r@ == slice_at(s@, from as int, to as int),
{
    s[from..to].to_string()
}

/// Byte length of the UTF-8 encoding of `input`.
pub fn byte_length(input: &str) -> (n: usize)
    ensures
        n == byte_len(input@),
{
    input.as_bytes().len()
}

/// Decides `cut_ok` at run time.
pub fn cut_allowed(input: &str, from: usize, to: usize) -> (r: bool)
    ensures
        r == cut_ok(input@, from as int, to as int),
{
    from <= to && input.is_char_boundary(from) && input.is_char_boundary(to)
}

/// The scanner's state after some prefix of the line.
pub struct ScanState {
    pub tokens: Seq<Seq<char>>,
    pub start: int,
    pub in_token: bool,
    pub quote: char,
    pub quoted: bool,
}

pub open spec fn is_quote_char(c: char) -> bool {
    c == '"' || c == '\''
}

pub open spec fn scan_init() -> ScanState {
    ScanState { tokens: Seq::empty(), start: 0, in_token: false, quote: '\0', quoted: false }
}

/// The effect of the character at position `i` on the scanner state.
pub open spec fn scan_step(input: Seq<char>, s: ScanState, i: int) -> ScanState {
    let c = input[i];
    if s.quoted {
        if c == s.quote {
            ScanState {
                tokens: s.tokens.push(slice_at(input, s.start, i)),
                start: s.start,
                in_token: false,
                quote: s.quote,
                quoted: false,
            }
        } else {
            s
        }
    } else if is_quote_char(c) {
        ScanState { tokens: s.tokens, start: i + 1, in_token: true, quote: c, quoted: true }
    } else if white_space(c) {
        if s.in_token {
            ScanState {
                tokens: s.tokens.push(slice_at(input, s.start, i)),
                start: s.start,
                in_token: false,
                quote: s.quote,
                quoted: s.quoted,
            }
        } else {
            s
        }
    } else if !s.in_token {
        ScanState { tokens: s.tokens, start: i, in_token: true, quote: s.quote, quoted: s.quoted }
    } else {
        s
    }
}

/// The cut that the character at position `i` makes, if any, is allowed.
pub open spec fn step_cut_ok(input: Seq<char>, s: ScanState, i: int) -> bool {
    let c = input[i];
    if s.quoted {
        c == s.quote ==> cut_ok(input, s.start, i)
    } else if is_quote_char(c) {
        true
    } else if white_space(c) {
        s.in_token ==> cut_ok(input, s.start, i)
    } else {
        true
    }
}

/// Scanner state after the first `k` characters.
pub open spec fn scan(input: Seq<char>, k: nat) -> ScanState
    decreases k,
{
    if k == 0 {
        scan_init()
    } else {
        scan_step(input, scan(input, (k - 1) as nat), k - 1)
    }
}

/// Every cut made within the first `k` characters is allowed.
pub open spec fn scan_cuts_ok(input: Seq<char>, k: nat) -> bool
    decreases k,
{
    if k == 0 {
        true
    } else {
        scan_cuts_ok(input, (k - 1) as nat) && step_cut_ok(input, scan(input, (k - 1) as nat), k - 1)
    }
}

/// Scanner state after the whole line.
pub open spec fn scan_all(input: Seq<char>) -> ScanState {
    scan(input, input.len())
}

/// Every cut that tokenising `input` makes is allowed (otherwise cutting panics).
pub open spec fn command_cuts_ok(input: Seq<char>) -> bool {
    let s = scan_all(input);
    &&& scan_cuts_ok(input, input.len())
    &&& (s.in_token && !s.quoted) ==> cut_ok(input, s.start, byte_len(input))
}

/// The words of a line that does not end inside a quote.
pub open spec fn scanned_tokens(input: Seq<char>) -> Seq<Seq<char>> {
    let s = scan_all(input);
    if s.in_token && !s.quoted {
        s.tokens.push(slice_at(input, s.start, byte_len(input)))
    } else {
        s.tokens
    }
}

/// A line that ended inside a quote, waiting for more lines.
pub struct QuoteContinuation {
    /// Words completed so far.
    pub tokens: Vec<String>,
    /// The quote that is still open.
    pub quote: char,
    /// Offset just after the opening quote.
    pub start: usize,
    /// The first line.
    pub input: String,
    /// Further lines received while the quote stayed open.
    pub pending: Vec<String>,
}

/// The result of tokenising one line.
pub enum ParseOutcome {
    /// All quotes were closed: the words of the line.
    Complete(Vec<String>),
    /// The line ended inside a quote.
    Unterminated(QuoteContinuation),
}

/// `r` is what tokenising `input` gives.
pub open spec fn parse_outcome_spec(input: Seq<char>, r: ParseOutcome) -> bool {
    let s = scan_all(input);
    match r {
        ParseOutcome::Complete(t) => !s.quoted && t.deep_view() == scanned_tokens(input),
        ParseOutcome::Unterminated(c) => {
            &&& s.quoted
            &&& c.tokens.deep_view() == s.tokens
            &&& c.quote == s.quote
            &&& c.start == s.start
            &&& c.input@ == input
            &&& c.pending@.len() == 0
        },
    }
}

/// Tokenises `input`, or answers `None` where a cut would fall inside a
/// character (a cut there is fatal to the caller).
pub fn try_parse_command(input: &str) -> (r: Option<ParseOutcome>)
    ensures
        r is None <==> !command_cuts_ok(input@),
        r matches Some(o) ==> parse_outcome_spec(input@, o),
{
    let chars = chars_of(input);
    let n = chars.len();
    let mut tokens: Vec<String> = Vec::new();
    let mut start: usize = 0;
    let mut in_token = false;
    let mut quote: char = '\0';
    let mut quoted = false;
    let mut i: usize = 0;
    while i < n
        invariant
            n == chars@.len(),
            chars@ == input@,
            i <= n,
            start <= n,
            scan_cuts_ok(input@, i as nat),
            ({
                let s = scan(input@, i as nat);
                &&& tokens.deep_view() == s.tokens
                &&& start == s.start
                &&& in_token == s.in_token
                &&& quote == s.quote
                &&& quoted == s.quoted
            }),
        decreases n - i,
    {
        let c = chars[i];
        let ghost s = scan(input@, i as nat);
        if quoted {
            if c == quote {
                if !cut_allowed(input, start, i) {
                    proof { lemma_cuts_fail_extends(input@, (i + 1) as nat); }
                    return None;
                }
                let t = slice_owned(input, start, i);
                tokens.push(t);
                quoted = false;
                in_token = false;
            }
        } else if c == '"' || c == '\'' {
            quote = c;
            quoted = true;
            start = i + 1;
            in_token = true;
        } else if is_white(c) {
            if in_token {
                if !cut_allowed(input, start, i) {
                    proof { lemma_cuts_fail_extends(input@, (i + 1) as nat); }
                    return None;
                }
                let t = slice_owned(input, start, i);
                tokens.push(t);
                in_token = false;
            }
        } else if !in_token {
            start = i;
            in_token = true;
        }
        proof {
            assert(tokens.deep_view() =~= scan(input@, (i + 1) as nat).tokens);
        }
        i = i + 1;
    }
    if quoted {
        let cont = QuoteContinuation { tokens, quote, start, input: input.to_owned(), pending: Vec::new() };
        return Some(ParseOutcome::Unterminated(cont));
    }
    if in_token {
        let end = byte_length(input);
        if !cut_allowed(input, start, end) {
            return None;
        }
        let t = slice_owned(input, start, end);
        tokens.push(t);
        proof {
            assert(tokens.deep_view() =~= scanned_tokens(input@));
        }
    }
    Some(ParseOutcome::Complete(tokens))
}

/// Once a cut within the first `k` characters has failed, it stays failed.
proof fn lemma_cuts_fail_extends(input: Seq<char>, k: nat)
    requires
        k <= input.len(),
        !scan_cuts_ok(input, k),
    ensures
        !scan_cuts_ok(input, input.len()),
    decreases input.len() - k,
{
    if k < input.len() {
        lemma_cuts_fail_extends(input, k + 1);
    }
}

/// Tokenises `input` (see the module documentation).
pub fn parse_command(input: &str) -> (r: ParseOutcome)
    requires
        command_cuts_ok(input@),
    ensures
        parse_outcome_spec(input@, r),
{
    match try_parse_command(input) {
        Some(o) => o,
        None => {
            proof { assert(false); }
            ParseOutcome::Complete(Vec::new())
        },
    }
}

/// Whether a further line closes a quote opened with `quote`: the quote
/// character occurs in it exactly once.
pub fn ckeck_quote(quote: char, input: String) -> (r: bool)
    ensures
        r == (count_char(input@, quote) == 1),
{
    count_occurrences(input.as_str(), quote) == 1
}

/// A line read while a quote is open, or the end of input.
pub enum LineEvent {
    Line(String),
    EndOfInput,
}

/// What becomes of an open quote after one more line.
pub enum QuoteStep {
    /// The quote is still open.
    Pending(QuoteContinuation),
    /// The command is complete: its words.
    Finished(Vec<String>),
    /// The command was `echo`: `lines` are printed one per line, then `raw`
    /// is printed as it stands, and the command itself is empty.
    EchoOutput { lines: Vec<String>, raw: Vec<String> },
}

/// The text appended to the second word when the quote is given up or
/// closed: a newline, then the extra lines in order, with double quotes
/// removed.
pub open spec fn closing_text(pending: Seq<Seq<char>>) -> Seq<char> {
    drop_char(seq!['\n'] + concat_all(pending), '"')
}

/// Words of a command once extra lines have been folded in.
pub open spec fn finish_tokens(tokens: Seq<Seq<char>>, pending: Seq<Seq<char>>) -> Seq<Seq<char>> {
    if tokens.len() > 1 {
        tokens.update(1, tokens[1] + closing_text(pending))
    } else {
        tokens
    }
}

/// Words once the open quote is closed: the rest of the first line, from
/// the opening quote on, becomes one more word.
pub open spec fn closed_tokens(c: QuoteContinuation) -> Seq<Seq<char>> {
    c.tokens.deep_view().push(slice_at(c.input@, c.start as int, byte_len(c.input@)))
}

/// Extra lines once `line` closes the quote; its single quotes are dropped.
pub open spec fn closed_pending(c: QuoteContinuation, line: Seq<char>) -> Seq<Seq<char>> {
    c.pending.deep_view().push(drop_char(line, '\''))
}

/// `r` is the step that follows `c` on event `e`.
pub open spec fn quote_step_spec(c: QuoteContinuation, e: LineEvent, r: QuoteStep) -> bool {
    match e {
        LineEvent::EndOfInput => r matches QuoteStep::Finished(t)
            && t.deep_view() == finish_tokens(c.tokens.deep_view(), c.pending.deep_view()),
        LineEvent::Line(l) => if count_char(l@, c.quote) == 1 {
            let toks = closed_tokens(c);
            let pend = closed_pending(c, l@);
            if toks[0] == "echo"@ {
                r matches QuoteStep::EchoOutput { lines, raw }
                    && lines.deep_view() == toks.drop_first()
                    && raw.deep_view() == pend
            } else {
                r matches QuoteStep::Finished(t) && t.deep_view() == finish_tokens(toks, pend)
            }
        } else {
            r matches QuoteStep::Pending(n)
                && n.tokens.deep_view() == c.tokens.deep_view()
                && n.quote == c.quote
                && n.start == c.start
                && n.input@ == c.input@
                && n.pending.deep_view() == c.pending.deep_view().push(l@)
        },
    }
}

/// Concatenates `parts` in order.
fn concat_strings(parts: &Vec<String>) -> (r: String)
    ensures
        r@ == concat_all(parts.deep_view()),
{
    let mut r = String::new();
    let mut i: usize = 0;
    while i < parts.len()
        invariant
            i <= parts.len(),
            r@ == concat_all(parts.deep_view().subrange(0, i as int)),
        decreases parts.len() - i,
    {
        proof {
            assert(parts.deep_view().subrange(0, i + 1).drop_last()
                =~= parts.deep_view().subrange(0, i as int));
        }
        r.append(parts[i].as_str());
        i = i + 1;
    }
    proof {
        assert(parts.deep_view().subrange(0, parts.len() as int) =~= parts.deep_view());
    }
    r
}

/// Folds the extra lines into the second word (see `finish_tokens`).
fn finish(tokens: Vec<String>, pending: &Vec<String>) -> (r: Vec<String>)
    ensures
        r.deep_view() == finish_tokens(tokens.deep_view(), pending.deep_view()),
{
    let mut joined = String::new();
    push_char(&mut joined, '\n');
    let rest = concat_strings(pending);
    joined.append(rest.as_str());
    let escaped = remove_char(joined.as_str(), '"');
    let mut tokens = tokens;
    if tokens.len() > 1 {
        let mut second = tokens[1].clone();
        second.append(escaped.as_str());
        let ghost before = tokens.deep_view();
        tokens.set(1, second);
        proof {
            assert(tokens.deep_view() =~= before.update(1, before[1] + closing_text(pending.deep_view())));
        }
    }
    tokens
}

impl QuoteContinuation {
    /// Whether the cut that closing the quote makes (from `start` to the end
    /// of the first line) is allowed.
    pub fn tail_cut_ok(&self) -> (r: bool)
        ensures
            r == cut_ok(self.input@, self.start as int, byte_len(self.input@)),
    {
        let end = byte_length(self.input.as_str());
        cut_allowed(self.input.as_str(), self.start, end)
    }
}

/// Feeds one more line (or the end of input) into an open quote.
pub fn continue_quote(c: QuoteContinuation, e: LineEvent) -> (r: QuoteStep)
    requires
        e matches LineEvent::Line(l) && count_char(l@, c.quote) == 1
            ==> cut_ok(c.input@, c.start as int, byte_len(c.input@)),
    ensures
        quote_step_spec(c, e, r),
{
    let ghost c0 = c;
    match e {
        LineEvent::EndOfInput => {
            let QuoteContinuation { tokens, quote, start, input, pending } = c;
            QuoteStep::Finished(finish(tokens, &pending))
        },
        LineEvent::Line(l) => {
            let QuoteContinuation { tokens, quote, start, input, pending } = c;
            if ckeck_quote(quote, l.clone()) {
                let end = byte_length(input.as_str());
                let tail = slice_owned(input.as_str(), start, end);
                let mut tokens = tokens;
                tokens.push(tail);
                let word = remove_char(l.as_str(), '\'');
                let mut pending = pending;
                pending.push(word);
                proof {
                    assert(tokens.deep_view() =~= closed_tokens(c0));
                    assert(pending.deep_view() =~= closed_pending(c0, l@));
                }
                if same_text(tokens[0].as_str(), "echo") {
                    let mut lines: Vec<String> = Vec::new();
                    let mut i: usize = 1;
                    while i < tokens.len()
                        invariant
                            1 <= i <= tokens.len(),
                            lines.deep_view() =~= tokens.deep_view().subrange(1, i as int),
                        decreases tokens.len() - i,
                    {
                        let w = tokens[i].clone();
                        let ghost before = lines.deep_view();
                        lines.push(w);
                        proof {
                            assert(lines.deep_view() =~= before.push(tokens.deep_view()[i as int]));
                            assert(tokens.deep_view().subrange(1, i + 1)
                                =~= tokens.deep_view().subrange(1, i as int).push(tokens.deep_view()[i as int]));
                        }
                        i = i + 1;
                    }
                    QuoteStep::EchoOutput { lines, raw: pending }
                } else {
                    QuoteStep::Finished(finish(tokens, &pending))
                }
            } else {
                let mut pending = pending;
                pending.push(l);
                proof {
                    assert(pending.deep_view() =~= c0.pending.deep_view().push(l@));
                }
                QuoteStep::Pending(QuoteContinuation { tokens, quote, start, input, pending })
            }
        },
    }
}

/// Words of `s` split at whitespace, built left to right: the completed
/// words and the word in progress.
pub open spec fn ws_fold(s: Seq<char>) -> (Seq<Seq<char>>, Seq<char>)
    decreases s.len(),
{
    if s.len() == 0 {
        (Seq::empty(), Seq::empty())
    } else {
        let (w, cur) = ws_fold(s.drop_last());
        if white_space(s.last()) {
            if cur.len() > 0 {
                (w.push(cur), Seq::empty())
            } else {
                (w, Seq::empty())
            }
        } else {
            (w, cur.push(s.last()))
        }
    }
}

/// The maximal runs of non-whitespace characters of `s`, in order.
pub open spec fn whitespace_words(s: Seq<char>) -> Seq<Seq<char>> {
    let (w, cur) = ws_fold(s);
    if cur.len() > 0 {
        w.push(cur)
    } else {
        w
    }
}

/// `s` holds neither a single nor a double quote.
pub open spec fn quote_free(s: Seq<char>) -> bool {
    forall|i: int| 0 <= i < s.len() ==> !is_quote_char(#[trigger] s[i])
}

/// On an ASCII line every offset up to its length is a permitted cut, and
/// the cut text is the corresponding run of characters.
pub proof fn lemma_ascii_cut(input: Seq<char>, a: int, b: int)
    requires
        is_ascii_chars(input),
        0 <= a <= b <= input.len(),
    ensures
        cut_ok(input, a, b),
        slice_at(input, a, b) == input.subrange(a, b),
        byte_len(input) == input.len(),
{
    broadcast use is_ascii_chars_encode_utf8, is_ascii_chars_nat_bound;
    let bytes = encode_utf8(input);
    is_ascii_chars_encode_utf8(input);
    assert(valid_utf8(bytes));
    is_char_boundary_start_end_of_seq(bytes);
    if a < input.len() {
        assert('\0' <= input[a] <= '\u{7f}');
        is_char_boundary_iff_is_leading_byte(bytes, a);
    }
    if b < input.len() {
        assert('\0' <= input[b] <= '\u{7f}');
        is_char_boundary_iff_is_leading_byte(bytes, b);
    }
    let sub = input.subrange(a, b);
    assert(is_ascii_chars(sub)) by {
        assert forall|i: int| 0 <= i < sub.len() implies '\0' <= #[trigger] sub[i] <= '\u{7f}' by {
            assert(sub[i] == input[a + i]);
        }
    }
    is_ascii_chars_encode_utf8(sub);
    assert(encode_utf8(sub) =~= bytes.subrange(a, b)) by {
        assert forall|i: int| 0 <= i < b - a implies encode_utf8(sub)[i] == #[trigger] bytes.subrange(a, b)[i] by {
            assert(sub[i] == input[a + i]);
            assert(encode_utf8(sub)[i] == sub[i] as u8);
            assert(bytes[a + i] == input[a + i] as u8);
        }
    }
    encode_utf8_decode_utf8(sub);
}

proof fn lemma_scan_quote_free(input: Seq<char>, k: nat)
    requires
        is_ascii_chars(input),
        quote_free(input),
        k <= input.len(),
    ensures
        ({
            let s = scan(input, k);
            let (w, cur) = ws_fold(input.take(k as int));
            &&& !s.quoted
            &&& s.tokens == w
            &&& s.in_token == (cur.len() > 0)
            &&& (s.in_token ==> 0 <= s.start <= k && cur == input.subrange(s.start, k as int))
            &&& scan_cuts_ok(input, k)
        }),
    decreases k,
{
    if k > 0 {
        let i = k - 1;
        lemma_scan_quote_free(input, (k - 1) as nat);
        assert(input.take(k as int).drop_last() =~= input.take(i));
        assert(input.take(k as int).last() == input[i]);
        let s = scan(input, (k - 1) as nat);
        let (w, cur) = ws_fold(input.take(i));
        assert(!is_quote_char(input[i]));
        if s.in_token {
            lemma_ascii_cut(input, s.start, i);
            assert(input.subrange(s.start, k as int) =~= cur.push(input[i]));
        } else {
            assert(input.subrange(i, k as int) =~= seq![input[i]]);
            assert(Seq::<char>::empty().push(input[i]) =~= seq![input[i]]);
        }
    }
}

/// On an ASCII line without quote characters, tokenising cannot fail, ends
/// outside any quote, and gives exactly the maximal runs of non-whitespace
/// characters, in order.
pub proof fn law_unquoted_line_splits_at_whitespace(input: Seq<char>)
    requires
        is_ascii_chars(input),
        quote_free(input),
    ensures
        command_cuts_ok(input),
        !scan_all(input).quoted,
        scanned_tokens(input) == whitespace_words(input),
{
    lemma_scan_quote_free(input, input.len());
    assert(input.take(input.len() as int) =~= input);
    let s = scan_all(input);
    if s.in_token {
        lemma_ascii_cut(input, s.start, input.len() as int);
    }
}

proof fn lemma_scan_inside_quote(input: Seq<char>, q: char, k: nat)
    requires
        is_quote_char(q),
        input.len() >= 2,
        input[0] == q,
        forall|i: int| 1 <= i < input.len() - 1 ==> input[i] != q,
        1 <= k <= input.len() - 1,
    ensures
        scan(input, k) == (ScanState { tokens: Seq::empty(), start: 1, in_token: true, quote: q, quoted: true }),
        scan_cuts_ok(input, k),
    decreases k,
{
    assert(scan(input, 0) == scan_init());
    if k > 1 {
        lemma_scan_inside_quote(input, q, (k - 1) as nat);
        assert(input[k - 1] != q);
    }
    assert(scan(input, k) == scan_step(input, scan(input, (k - 1) as nat), k - 1));
    assert(scan_cuts_ok(input, 0));
    assert(step_cut_ok(input, scan(input, (k - 1) as nat), k - 1));
    assert(scan_cuts_ok(input, k) == (scan_cuts_ok(input, (k - 1) as nat)
        && step_cut_ok(input, scan(input, (k - 1) as nat), k - 1)));
}

/// An ASCII line that is one quoted text, without that quote inside,
/// gives exactly that text as its only word, whitespace included.
pub proof fn law_quoted_text_is_one_word(q: char, body: Seq<char>)
    requires
        is_quote_char(q),
        is_ascii_chars(body),
        !body.contains(q),
    ensures
        ({
            let input = seq![q] + body + seq![q];
            &&& command_cuts_ok(input)
            &&& !scan_all(input).quoted
            &&& scanned_tokens(input) == seq![body]
        }),
{
    let input = seq![q] + body + seq![q];
    let n = input.len();
    assert(input[0] == q);
    assert forall|i: int| 1 <= i < n - 1 implies input[i] != q by {
        assert(input[i] == body[i - 1]);
    }
    lemma_scan_inside_quote(input, q, (n - 1) as nat);
    assert(is_ascii_chars(input)) by {
        assert forall|i: int| 0 <= i < input.len() implies '\0' <= #[trigger] input[i] <= '\u{7f}' by {
            if 1 <= i < n - 1 {
                assert(input[i] == body[i - 1]);
            }
        }
    }
    lemma_ascii_cut(input, 1, n - 1);
    assert(input.subrange(1, n - 1) =~= body);
    assert(input[n - 1] == q);
    let s = scan_all(input);
    assert(s == scan_step(input, scan(input, (n - 1) as nat), n - 1));
    assert(Seq::<Seq<char>>::empty().push(body) =~= seq![body]);
}

/// On an ASCII line every cut the scanner makes is allowed, and the start
/// of the current word never lies beyond the characters read.
proof fn lemma_ascii_scan_cuts(x: Seq<char>, k: nat)
    requires
        is_ascii_chars(x),
        k <= x.len(),
    ensures
        scan_cuts_ok(x, k),
        0 <= scan(x, k).start <= k,
    decreases k,
{
    if k > 0 {
        lemma_ascii_scan_cuts(x, (k - 1) as nat);
        let s = scan(x, (k - 1) as nat);
        lemma_ascii_cut(x, s.start, k - 1);
    }
}

/// Reading the first line of `a + " " + b` is reading `a`.
proof fn lemma_scan_joined_prefix(a: Seq<char>, b: Seq<char>, k: nat)
    requires
        is_ascii_chars(a + seq![' '] + b),
        is_ascii_chars(a),
        k <= a.len(),
    ensures
        ({
            let sc = scan(a + seq![' '] + b, k);
            let sa = scan(a, k);
            &&& sc.tokens == sa.tokens
            &&& sc.start == sa.start
            &&& sc.in_token == sa.in_token
            &&& sc.quote == sa.quote
            &&& sc.quoted == sa.quoted
        }),
    decreases k,
{
    let c = a + seq![' '] + b;
    if k > 0 {
        let i = k - 1;
        lemma_scan_joined_prefix(a, b, (k - 1) as nat);
        lemma_ascii_scan_cuts(a, (k - 1) as nat);
        let sa = scan(a, (k - 1) as nat);
        assert(c[i] == a[i]);
        lemma_ascii_cut(a, sa.start, i);
        lemma_ascii_cut(c, sa.start, i);
        assert(c.subrange(sa.start, i) =~= a.subrange(sa.start, i));
    }
}

/// Reading the second line of `a + " " + b` is reading `b` after the
/// words of `a`, with every offset shifted past `a` and the space.
proof fn lemma_scan_joined_suffix(a: Seq<char>, b: Seq<char>, k: nat)
    requires
        is_ascii_chars(a + seq![' '] + b),
        is_ascii_chars(a),
        is_ascii_chars(b),
        !scan_all(a).quoted,
        k <= b.len(),
    ensures
        ({
            let off = a.len() + 1;
            let sc = scan(a + seq![' '] + b, (off + k) as nat);
            let sb = scan(b, k);
            &&& sc.tokens == scanned_tokens(a) + sb.tokens
            &&& sc.in_token == sb.in_token
            &&& sc.quoted == sb.quoted
            &&& (sc.quoted ==> sc.quote == sb.quote)
            &&& (sc.in_token || sc.quoted ==> sc.start == sb.start + off)
        }),
    decreases k,
{
    let c = a + seq![' '] + b;
    let off = a.len() + 1;
    if k == 0 {
        lemma_scan_joined_prefix(a, b, a.len());
        lemma_ascii_scan_cuts(a, a.len());
        let sa = scan(a, a.len());
        assert(c[a.len() as int] == ' ');
        if sa.in_token {
            lemma_ascii_cut(a, sa.start, a.len() as int);
            lemma_ascii_cut(c, sa.start, a.len() as int);
            assert(c.subrange(sa.start, a.len() as int) =~= a.subrange(sa.start, a.len() as int));
        }
        assert(scanned_tokens(a) + Seq::<Seq<char>>::empty() =~= scanned_tokens(a));
    } else {
        let i = k - 1;
        lemma_scan_joined_suffix(a, b, (k - 1) as nat);
        lemma_ascii_scan_cuts(b, (k - 1) as nat);
        let sb = scan(b, (k - 1) as nat);
        let sc = scan(c, (off + i) as nat);
        assert(c[off + i] == b[i]);
        assert(scan(c, (off + k) as nat) == scan_step(c, sc, off + i));
        lemma_ascii_cut(b, sb.start, i);
        lemma_ascii_cut(c, sb.start + off, off + i);
        assert(c.subrange(sb.start + off, off + i) =~= b.subrange(sb.start, i));
        let t = slice_at(b, sb.start, i);
        assert(scanned_tokens(a) + sb.tokens.push(t) =~= (scanned_tokens(a) + sb.tokens).push(t));
    }
}

/// Two ASCII lines that each end outside any quote, joined by a space,
/// tokenise to the words of the first followed by the words of the second.
pub proof fn law_joined_lines_give_joined_words(a: Seq<char>, b: Seq<char>)
    requires
        is_ascii_chars(a),
        is_ascii_chars(b),
        !scan_all(a).quoted,
        !scan_all(b).quoted,
    ensures
        ({
            let c = a + seq![' '] + b;
            &&& command_cuts_ok(c)
            &&& !scan_all(c).quoted
            &&& scanned_tokens(c) == scanned_tokens(a) + scanned_tokens(b)
        }),
{
    let c = a + seq![' '] + b;
    let off = a.len() + 1;
    assert(is_ascii_chars(c)) by {
        assert forall|i: int| 0 <= i < c.len() implies '\0' <= #[trigger] c[i] <= '\u{7f}' by {
            if i < a.len() {
                assert(c[i] == a[i]);
            } else if i > a.len() {
                assert(c[i] == b[i - off]);
            }
        }
    }
    lemma_ascii_scan_cuts(c, c.len());
    lemma_scan_joined_suffix(a, b, b.len());
    assert(off + b.len() == c.len());
    lemma_ascii_scan_cuts(b, b.len());
    let sb = scan_all(b);
    if sb.in_token {
        lemma_ascii_cut(b, sb.start, b.len() as int);
        lemma_ascii_cut(c, sb.start + off, c.len() as int);
        assert(c.subrange(sb.start + off, c.len() as int) =~= b.subrange(sb.start, b.len() as int));
        let t = slice_at(b, sb.start, byte_len(b));
        assert(scanned_tokens(a) + sb.tokens.push(t) =~= (scanned_tokens(a) + sb.tokens).push(t));
    }
}

/// When a line closes the quote of an `echo` command, the lines printed are
/// the words after `echo`, in the order they were typed: the words
/// completed before the quote, then the text from the quote to the end of
/// the first line; what the closing lines hold is printed after them.
pub proof fn law_echo_prints_words_in_typed_order(c: QuoteContinuation, l: String, r: QuoteStep)
    requires
        quote_step_spec(c, LineEvent::Line(l), r),
        r is EchoOutput,
    ensures
        ({
            let words = c.tokens.deep_view();
            let rest = slice_at(c.input@, c.start as int, byte_len(c.input@));
            let lines = r->EchoOutput_lines.deep_view();
            &&& count_char(l@, c.quote) == 1
            &&& (words.len() == 0 ==> rest == "echo"@ && lines.len() == 0)
            &&& (words.len() > 0 ==> {
                &&& words[0] == "echo"@
                &&& lines.len() == words.len()
                &&& forall|i: int| 0 <= i < words.len() - 1 ==> #[trigger] lines[i] == words[i + 1]
                &&& lines[words.len() - 1] == rest
            })
            &&& r->EchoOutput_raw.deep_view() == c.pending.deep_view().push(drop_char(l@, '\''))
        }),
{
    let toks = closed_tokens(c);
    assert(count_char(l@, c.quote) == 1);
    assert(toks[0] == "echo"@);
    let words = c.tokens.deep_view();
    if words.len() > 0 {
        assert(toks[0] == words[0]);
    }
}

} // verus!
