//! Engine output turned into diagnostics.
//!
//! A line yields a diagnostic when it holds `error: <path>:<digits>: <message>`,
//! with a non-empty path, the digits any Unicode decimal digits and the
//! message running to the end of the line. Where several `:<digits>: ` could
//! close the path, the last one does, so the path is as long as it can be.
//! The digits must then read as a `usize` (ASCII digits whose value fits);
//! otherwise the line is dropped.
use crate::text::{
    chars_of, find_chars, find_from, lines_of, parse_usize,
    parse_usize_spec, slice_chars, split_lines, string_of,
};
use vstd::prelude::*;

verus! {

/// One error that the engine reported, located in a source file.
#[derive(Debug)]
pub struct Diagnostic {
    /// The 1-based line number that the engine gave.
    pub line: usize,
    pub message: String,
    /// The document that was compiled.
    pub file: String,
}

/// A diagnostic as plain values.
pub struct DiagnosticView {
    pub line: usize,
    pub message: Seq<char>,
    pub file: Seq<char>,
}

impl View for Diagnostic {
    type V = DiagnosticView;

    open spec fn view(&self) -> DiagnosticView {
        DiagnosticView { line: self.line, message: self.message@, file: self.file@ }
    }
}

/// The values of a list of diagnostics.
pub open spec fn diagnostic_views(s: Seq<Diagnostic>) -> Seq<DiagnosticView> {
    s.map_values(|d: Diagnostic| d@)
}

/// The text that opens an error line.
pub open spec fn error_marker() -> Seq<char> {
    seq!['e', 'r', 'r', 'o', 'r', ':', ' ']
}

/// The character is a Unicode decimal digit (general category Nd), as the
/// regex crate's `\d` class decides.
pub uninterp spec fn unicode_decimal_digit(c: char) -> bool;

/// Relies on the regex crate's `\d` class, which is Unicode's decimal digits
/// (`regex_syntax::unicode::perl_digit`): whether `c` is one. The pattern is
/// valid, so `Regex::new` does not fail on it.
#[verifier::external_body]
fn is_decimal_digit(c: char) -> (r: bool)
    ensures
        r == unicode_decimal_digit(c),
{
    match regex::Regex::new(r"\A\d\z") {
        Ok(re) => re.is_match(&c.to_string()),
        Err(_) => false,
    }
}

/// How many decimal digits follow one another in `l` from position `i` on.
pub open spec fn digit_run(l: Seq<char>, i: int) -> nat
    decreases l.len() - i,
{
    if 0 <= i < l.len() && unicode_decimal_digit(l[i]) {
        1 + digit_run(l, i + 1)
    } else {
        0
    }
}

/// Position `c` of `l` holds the `:` that opens `:<digits>: `.
pub open spec fn line_colon_at(l: Seq<char>, c: int) -> bool {
    let d = digit_run(l, c + 1);
    &&& 0 <= c
    &&& c + d + 2 < l.len()
    &&& l[c] == ':'
    &&& d >= 1
    &&& l[c + 1 + d] == ':'
    &&& l[c + 2 + d] == ' '
}

/// The last position in `[lo, hi)` that opens `:<digits>: `.
pub open spec fn last_line_colon(l: Seq<char>, lo: int, hi: int) -> Option<int>
    decreases hi - lo,
{
    if hi <= lo {
        None
    } else if line_colon_at(l, hi - 1) {
        Some(hi - 1)
    } else {
        last_line_colon(l, lo, hi - 1)
    }
}

/// The line number digits and the message of an error line, if `l` is one.
pub open spec fn error_fields(l: Seq<char>) -> Option<(Seq<char>, Seq<char>)> {
    match find_from(l, error_marker(), 0) {
        None => None,
        Some(s) => match last_line_colon(l, s + 8, l.len() as int) {
            None => None,
            Some(c) => {
                let d = digit_run(l, c + 1);
                Some((l.subrange(c + 1, c + 1 + d), l.subrange(c + 3 + d, l.len() as int)))
            },
        },
    }
}

/// The diagnostic that line `l` yields for the document `file`, if any.
pub open spec fn diagnostic_of_line(l: Seq<char>, file: Seq<char>) -> Option<DiagnosticView> {
    match error_fields(l) {
        Some((digits, message)) => match parse_usize_spec(digits) {
            Some(n) => Some(DiagnosticView { line: n, message, file }),
            None => None,
        },
        None => None,
    }
}

/// The diagnostics of a list of lines, in order.
pub open spec fn diagnostics_of_lines(ls: Seq<Seq<char>>, file: Seq<char>) -> Seq<DiagnosticView>
    decreases ls.len(),
{
    if ls.len() == 0 {
        seq![]
    } else {
        diagnostics_of_lines(ls.drop_last(), file) + match diagnostic_of_line(ls.last(), file) {
            Some(d) => seq![d],
            None => seq![],
        }
    }
}

/// The diagnostics of an engine output text, line by line.
pub open spec fn diagnostics_of(text: Seq<char>, file: Seq<char>) -> Seq<DiagnosticView> {
    diagnostics_of_lines(lines_of(text), file)
}

proof fn lemma_digit_run_bound(l: Seq<char>, i: int)
    requires
        0 <= i <= l.len(),
    ensures
        i + digit_run(l, i) <= l.len(),
        forall|k: int| i <= k < i + digit_run(l, i) ==> unicode_decimal_digit(#[trigger] l[k]),
    decreases l.len() - i,
{
    if i < l.len() && unicode_decimal_digit(l[i]) {
        lemma_digit_run_bound(l, i + 1);
    }
}

fn digit_run_exec(l: &Vec<char>, i: usize) -> (r: usize)
    requires
        i <= l@.len(),
    ensures
        r == digit_run(l@, i as int),
        i + r <= l@.len(),
{
    proof {
        lemma_digit_run_bound(l@, i as int);
    }
    let mut j: usize = i;
    while j < l.len() && is_decimal_digit(l[j])
        invariant
            i <= j <= l@.len(),
            digit_run(l@, i as int) == (j - i) + digit_run(l@, j as int),
        decreases l@.len() - j,
    {
        j = j + 1;
    }
    j - i
}

fn line_colon_at_exec(l: &Vec<char>, c: usize) -> (r: bool)
    requires
        c < l@.len(),
    ensures
        r == line_colon_at(l@, c as int),
{
    let n = l.len();
    if l[c] != ':' {
        return false;
    }
    let d = digit_run_exec(l, c + 1);
    let p = c + 1 + d;
    if d == 0 || p >= n || n - p < 2 {
        return false;
    }
    l[p] == ':' && l[p + 1] == ' '
}

fn last_line_colon_exec(l: &Vec<char>, lo: usize, hi: usize) -> (r: Option<usize>)
    requires
        hi <= l@.len(),
    ensures
        match r {
            Some(c) => last_line_colon(l@, lo as int, hi as int) == Some(c as int) && lo <= c < hi
                && line_colon_at(l@, c as int),
            None => last_line_colon(l@, lo as int, hi as int) is None,
        },
{
    let mut c: usize = hi;
    while c > lo
        invariant
            c <= hi <= l@.len(),
            last_line_colon(l@, lo as int, hi as int) == last_line_colon(l@, lo as int, c as int),
        decreases c,
    {
        if line_colon_at_exec(l, c - 1) {
            return Some(c - 1);
        }
        c = c - 1;
    }
    None
}

/// The diagnostic that line `l` yields for the document `file`, if any.
fn diagnostic_of_line_exec(l: &Vec<char>, marker: &Vec<char>, file: &String) -> (r: Option<
    Diagnostic,
>)
    requires
        marker@ == error_marker(),
    ensures
        match diagnostic_of_line(l@, file@) {
            Some(d) => r matches Some(x) && x@ == d,
            None => r is None,
        },
{
    let n = l.len();
    let s = match find_chars(l, marker, 0) {
        Some(s) => s,
        None => return None,
    };
    if s + 7 >= n {
        return None;
    }
    let c = match last_line_colon_exec(l, s + 8, n) {
        Some(c) => c,
        None => return None,
    };
    let d = digit_run_exec(l, c + 1);
    match parse_usize(l, c + 1, c + 1 + d) {
        Some(n) => {
            let text = slice_chars(l, c + 3 + d, l.len());
            let message = string_of(&text);
            Some(Diagnostic { line: n, message, file: file.clone() })
        },
        None => None,
    }
}

/// The diagnostics in one engine output text, line by line, each located
/// in the document `file`. Lines that do not match yield nothing.
pub fn parse_diagnostics(output: &str, file: &str) -> (r: Vec<Diagnostic>)
    ensures
        diagnostic_views(r@) == diagnostics_of(output@, file@),
{
    let text = chars_of(output);
    let lines = split_lines(&text);
    let marker = chars_of("error: ");
    proof {
        reveal_strlit("error: ");
        assert(marker@ =~= error_marker());
    }
    let file_owned = file.to_owned();
    let mut out: Vec<Diagnostic> = Vec::new();
    let mut i: usize = 0;
    while i < lines.len()
        invariant
            i <= lines@.len(),
            marker@ == error_marker(),
            file_owned@ == file@,
            crate::text::views(lines@) == lines_of(text@),
            text@ == output@,
            diagnostic_views(out@) == diagnostics_of_lines(
                crate::text::views(lines@).take(i as int),
                file@,
            ),
        decreases lines@.len() - i,
    {
        let ghost ls = crate::text::views(lines@);
        let ghost before = out@;
        proof {
            assert(ls.take(i + 1).drop_last() =~= ls.take(i as int));
            assert(ls.take(i + 1).last() == lines@[i as int]@);
        }
        match diagnostic_of_line_exec(&lines[i], &marker, &file_owned) {
            Some(d) => {
                out.push(d);
                assert(diagnostic_views(out@) =~= diagnostic_views(before).push(d@));
            },
            None => {
            },
        }
        assert(diagnostic_views(out@) =~= diagnostics_of_lines(ls.take(i + 1), file@));
        i = i + 1;
    }
    assert(crate::text::views(lines@).take(lines@.len() as int) =~= crate::text::views(lines@));
    out
}

} // verus!
