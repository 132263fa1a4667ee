//! Turning raw log text into lines, and lines into their probe and display forms.
use vstd::prelude::*;

use crate::text::{
    chars_of, in_class_exec, is_ascii_letter, is_digit, is_digit_exec, is_space, lemma_run_end_bounds,
    run_end, run_end_exec, skip_chars, skip_chars_exec, subrange_exec, CharClass,
};

verus! {

pub open spec fn esc() -> char {
    '\x1b'
}

// ---------------------------------------------------------------------------
// Lines
// ---------------------------------------------------------------------------

/// The end of the line that starts at `i`: the next `'\n'`, or the end of the text.
pub open spec fn line_end(s: Seq<char>, i: int) -> int
    decreases s.len() - i,
{
    if 0 <= i < s.len() && s[i] != '\n' {
        line_end(s, i + 1)
    } else {
        i
    }
}

pub proof fn lemma_line_end_bounds(s: Seq<char>, i: int)
    requires
        0 <= i <= s.len(),
    ensures
        i <= line_end(s, i) <= s.len(),
        line_end(s, i) < s.len() ==> s[line_end(s, i)] == '\n',
    decreases s.len() - i,
{
    if i < s.len() && s[i] != '\n' {
        lemma_line_end_bounds(s, i + 1);
    }
}

/// A line without the `'\r'` that ends it, if any.
pub open spec fn drop_cr(l: Seq<char>) -> Seq<char> {
    if l.len() > 0 && l.last() == '\r' {
        l.drop_last()
    } else {
        l
    }
}

/// The lines of `s` from position `i` on: split at `'\n'`, each without a final `'\r'`,
/// and no empty line after a final `'\n'`.
pub open spec fn lines_from(s: Seq<char>, i: int) -> Seq<Seq<char>>
    decreases s.len() + 1 - i,
    via lines_from_decreases
{
    if i < 0 || i >= s.len() {
        Seq::empty()
    } else {
        let e = line_end(s, i);
        seq![drop_cr(s.subrange(i, e))] + lines_from(s, e + 1)
    }
}

#[via_fn]
proof fn lines_from_decreases(s: Seq<char>, i: int) {
    if 0 <= i < s.len() {
        lemma_line_end_bounds(s, i);
    }
}

pub open spec fn log_lines(s: Seq<char>) -> Seq<Seq<char>> {
    lines_from(s, 0)
}

/// Splits a log into its lines, as `str::lines` does.
pub fn split_lines(log: &Vec<char>) -> (r: Vec<Vec<char>>)
    ensures
        r@.map_values(|l: Vec<char>| l@) == log_lines(log@),
{
    let mut out: Vec<Vec<char>> = Vec::new();
    let mut start: usize = 0;
    while start < log.len()
        invariant
            start <= log.len(),
            out@.map_values(|l: Vec<char>| l@) + lines_from(log@, start as int) == log_lines(
                log@,
            ),
        decreases log.len() - start,
    {
        let mut e = start;
        while e < log.len() && log[e] != '\n'
            invariant
                start <= e <= log.len(),
                line_end(log@, e as int) == line_end(log@, start as int),
            decreases log.len() - e,
        {
            e += 1;
        }
        let mut line = subrange_exec(log, start, e);
        if line.len() > 0 && line[line.len() - 1] == '\r' {
            line.pop();
        }
        let ghost prev = out@.map_values(|l: Vec<char>| l@);
        out.push(line);
        proof {
            assert(out@.map_values(|l: Vec<char>| l@) =~= prev.push(line@));
            assert(lines_from(log@, start as int) == seq![line@] + lines_from(log@, e + 1));
            assert(prev.push(line@) + lines_from(log@, e + 1) =~= prev + (seq![line@]
                + lines_from(log@, e + 1)));
        }
        if e < log.len() {
            start = e + 1;
        } else {
            start = e;
        }
    }
    proof {
        assert(out@.map_values(|l: Vec<char>| l@) + lines_from(log@, start as int) =~= out@.map_values(
            |l: Vec<char>| l@,
        ));
    }
    out
}

// ---------------------------------------------------------------------------
// Timestamps
// ---------------------------------------------------------------------------

/// The length of the CI timestamp token (`2023-06-14T20:22:39.1727281Z`) that starts the
/// line, if it starts with one.
pub open spec fn timestamp_len(s: Seq<char>) -> Option<int> {
    if s.len() > 21 && run_end(s, 0, CharClass::Digit) == 4 && s[4] == '-' && run_end(
        s,
        5,
        CharClass::Digit,
    ) == 7 && s[7] == '-' && run_end(s, 8, CharClass::Digit) == 10 && s[10] == 'T' && run_end(
        s,
        11,
        CharClass::Digit,
    ) == 13 && s[13] == ':' && run_end(s, 14, CharClass::Digit) == 16 && s[16] == ':'
        && run_end(s, 17, CharClass::Digit) == 19 && s[19] == '.' && run_end(
        s,
        20,
        CharClass::Digit,
    ) > 20 && run_end(s, 20, CharClass::Digit) < s.len() && s[run_end(
        s,
        20,
        CharClass::Digit,
    )] == 'Z' {
        Some(run_end(s, 20, CharClass::Digit) + 1)
    } else {
        None
    }
}

/// The line without its leading timestamp token and the one white-space character after it.
pub open spec fn strip_timestamp(s: Seq<char>) -> Seq<char> {
    match timestamp_len(s) {
        Some(n) => if n < s.len() && is_space(s[n]) {
            skip_chars(s, n + 1)
        } else {
            skip_chars(s, n)
        },
        None => s,
    }
}

fn digits_to(s: &Vec<char>, i: usize, end: usize, sep: char) -> (r: bool)
    requires
        i <= s.len(),
        i < end,
    ensures
        r == (run_end(s@, i as int, CharClass::Digit) == end && end < s.len() && s@[end as int]
            == sep),
{
    let e = run_end_exec(s, i, CharClass::Digit);
    e == end && end < s.len() && s[end] == sep
}

pub fn timestamp_len_exec(s: &Vec<char>) -> (r: Option<usize>)
    ensures
        r is Some <==> timestamp_len(s@) is Some,
        r is Some ==> timestamp_len(s@) == Some(r->0 as int) && r->0 <= s.len(),
{
    if s.len() <= 21 {
        return None;
    }
    proof {
        lemma_run_end_bounds(s@, 20, CharClass::Digit);
    }
    if !(digits_to(s, 0, 4, '-') && digits_to(s, 5, 7, '-') && digits_to(s, 8, 10, 'T')
        && digits_to(s, 11, 13, ':') && digits_to(s, 14, 16, ':') && digits_to(s, 17, 19, '.')) {
        return None;
    }
    let e = run_end_exec(s, 20, CharClass::Digit);
    if e > 20 && e < s.len() && s[e] == 'Z' {
        Some(e + 1)
    } else {
        None
    }
}

pub fn strip_timestamp_exec(s: &Vec<char>) -> (r: Vec<char>)
    ensures
        r@ == strip_timestamp(s@),
{
    match timestamp_len_exec(s) {
        Some(n) => {
            if n < s.len() && in_class_exec(CharClass::Space, s[n]) {
                skip_chars_exec(s, n + 1)
            } else {
                skip_chars_exec(s, n)
            }
        },
        None => s.clone(),
    }
}

// ---------------------------------------------------------------------------
// ANSI escape sequences
// ---------------------------------------------------------------------------

/// The name of what `strip_ansi_escapes` makes of a text: the text without its escape
/// sequences.
pub uninterp spec fn ansi_stripped(s: Seq<char>) -> Seq<char>;

/// Relies on `strip_ansi_escapes::strip_str`: the text with ANSI escape sequences removed,
/// which depends on the text alone.
#[verifier::external_body]
pub(crate) fn strip_ansi(s: &Vec<char>) -> (r: Vec<char>)
    ensures
        r@ == ansi_stripped(s@),
{
    strip_ansi_escapes::strip_str(s.iter().collect::<String>()).chars().collect()
}

/// What follows a digit of a select-graphic-rendition sequence at `j`: more digits, `;`
/// and digits, then `m`. The end of the sequence, if it is one.
pub open spec fn sgr_tail(s: Seq<char>, j: int) -> Option<int>
    decreases s.len() - j,
{
    if j < 0 || j >= s.len() {
        None
    } else if is_digit(s[j]) {
        sgr_tail(s, j + 1)
    } else if s[j] == 'm' {
        Some(j + 1)
    } else if s[j] == ';' && j + 1 < s.len() && is_digit(s[j + 1]) {
        sgr_tail(s, j + 2)
    } else {
        None
    }
}

/// The end of the escape sequence `ESC [ digits (; digits)* m` that starts at `i`, if one
/// does.
pub open spec fn sgr_end(s: Seq<char>, i: int) -> Option<int> {
    if 0 <= i && i + 2 < s.len() && s[i] == esc() && s[i + 1] == '[' && is_digit(s[i + 2]) {
        sgr_tail(s, i + 3)
    } else {
        None
    }
}

pub proof fn lemma_sgr_tail_bounds(s: Seq<char>, j: int)
    ensures
        sgr_tail(s, j) is Some ==> j < sgr_tail(s, j)->0 <= s.len(),
    decreases s.len() - j,
{
    if 0 <= j < s.len() {
        if is_digit(s[j]) {
            lemma_sgr_tail_bounds(s, j + 1);
        } else if s[j] == ';' && j + 1 < s.len() && is_digit(s[j + 1]) {
            lemma_sgr_tail_bounds(s, j + 2);
        }
    }
}

pub fn sgr_end_exec(s: &Vec<char>, i: usize) -> (r: Option<usize>)
    ensures
        r is Some <==> sgr_end(s@, i as int) is Some,
        r is Some ==> sgr_end(s@, i as int) == Some(r->0 as int) && i < r->0 <= s.len(),
{
    proof {
        lemma_sgr_tail_bounds(s@, i + 3);
    }
    if !(i < s.len() && s.len() - i > 2 && s[i] == '\x1b' && s[i + 1] == '[' && is_digit_exec(
        s[i + 2],
    )) {
        return None;
    }
    assert(s@[i as int] == esc());
    assert(s@[i + 1] == '[');
    assert(is_digit(s@[i + 2]));
    let mut j = i + 3;
    while j < s.len()
        invariant
            i + 3 <= j <= s.len(),
            sgr_tail(s@, j as int) == sgr_tail(s@, i + 3),
            sgr_end(s@, i as int) == sgr_tail(s@, i + 3),
        decreases s.len() - j,
    {
        let c = s[j];
        if is_digit_exec(c) {
            j += 1;
        } else if c == 'm' {
            return Some(j + 1);
        } else if c == ';' && j + 1 < s.len() && is_digit_exec(s[j + 1]) {
            j += 2;
        } else {
            return None;
        }
    }
    None
}

/// There is such an escape sequence at `s[i..]`.
pub open spec fn is_sgr_at(s: Seq<char>, i: int) -> bool {
    sgr_end(s, i) is Some
}

/// The first visible character at or after column `i`, skipping over escape sequences: an
/// `ESC [` opens one that runs to the next ASCII letter, and any other `ESC` takes the
/// character after it along.
pub open spec fn next_visible_from(s: Seq<char>, i: int, in_escape: bool) -> Option<char>
    decreases s.len() - i,
{
    if i < 0 || i >= s.len() {
        None
    } else if in_escape {
        next_visible_from(s, i + 1, !is_ascii_letter(s[i]))
    } else if s[i] == esc() {
        if i + 1 >= s.len() {
            None
        } else if s[i + 1] == '[' {
            next_visible_from(s, i + 2, true)
        } else {
            next_visible_from(s, i + 2, false)
        }
    } else {
        Some(s[i])
    }
}

pub open spec fn next_visible(s: Seq<char>, i: int) -> Option<char> {
    next_visible_from(s, i, false)
}

pub fn next_visible_exec(s: &Vec<char>, start: usize) -> (r: Option<char>)
    ensures
        r == next_visible(s@, start as int),
{
    let mut i = start;
    let mut in_escape = false;
    while i < s.len()
        invariant
            next_visible_from(s@, i as int, in_escape) == next_visible(s@, start as int),
        decreases s.len() - i,
    {
        let c = s[i];
        if in_escape {
            in_escape = !(('a' <= c && c <= 'z') || ('A' <= c && c <= 'Z'));
            i += 1;
        } else if c == '\x1b' {
            if i + 1 < s.len() && s[i + 1] == '[' {
                in_escape = true;
            }
            if s.len() - i >= 2 {
                i += 2;
            } else {
                return None;
            }
        } else {
            return Some(c);
        }
    }
    None
}

/// The first visible character of `s` at or after character column `start_col`, skipping
/// escape sequences.
pub fn find_next_non_ansi_char(s: &str, start_col: usize) -> (r: Option<char>)
    ensures
        r == next_visible(s@, start_col as int),
{
    let chars = chars_of(s);
    next_visible_exec(&chars, start_col)
}

/// The text holds an escape sequence `ESC [ digits (; digits)* m` somewhere.
pub open spec fn has_sgr_from(s: Seq<char>, i: int) -> bool
    decreases s.len() - i,
{
    if i < 0 || i >= s.len() {
        false
    } else {
        is_sgr_at(s, i) || has_sgr_from(s, i + 1)
    }
}

pub fn has_escape_sequence(s: &str) -> (r: bool)
    ensures
        r == has_sgr_from(s@, 0),
{
    let chars = chars_of(s);
    let mut i: usize = 0;
    while i < chars.len()
        invariant
            has_sgr_from(chars@, i as int) == has_sgr_from(chars@, 0),
            chars@ == s@,
        decreases chars.len() - i,
    {
        if let Some(_) = sgr_end_exec(&chars, i) {
            return true;
        }
        i += 1;
    }
    false
}

} // verus!
