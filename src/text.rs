//! Character-level scanning over the text of a log line.
use vstd::prelude::*;

verus! {

/// Relies on `str::chars` collected into a `Vec`: the characters of `s`, in order.
#[verifier::external_body]
pub(crate) fn chars_of(s: &str) -> (r: Vec<char>)
    ensures
        r@ == s@,
{
    s.chars().collect()
}

/// Relies on `String: FromIterator<&char>`: the string made of exactly these characters.
#[verifier::external_body]
pub(crate) fn string_of(v: &Vec<char>) -> (r: String)
    ensures
        r@ == v@,
{
    v.iter().collect()
}

/// The classes of characters that the log grammars are written with.
#[derive(Clone, Copy, PartialEq, Eq, Structural)]
pub enum CharClass {
    Digit,
    Space,
    /// `[a-zA-Z0-9._-]`: a path component, without a slash.
    PathPart,
    /// `[a-zA-Z0-9./_-]`: a path component or a slash.
    PathOrSlash,
}

pub open spec fn is_digit(c: char) -> bool {
    '0' <= c && c <= '9'
}

pub open spec fn is_ascii_letter(c: char) -> bool {
    ('a' <= c && c <= 'z') || ('A' <= c && c <= 'Z')
}

/// Unicode white space, as the `White_Space` property lists it.
pub open spec fn is_space(c: char) -> bool {
    c == ' ' || c == '\t' || c == '\n' || c == '\x0b' || c == '\x0c' || c == '\r'
        || c == '\u{85}' || c == '\u{a0}' || c == '\u{1680}' || ('\u{2000}' <= c && c
        <= '\u{200a}') || c == '\u{2028}' || c == '\u{2029}' || c == '\u{202f}' || c
        == '\u{205f}' || c == '\u{3000}'
}

pub open spec fn is_word_char(c: char) -> bool {
    is_ascii_letter(c) || is_digit(c) || c == '_'
}

pub open spec fn in_class(k: CharClass, c: char) -> bool {
    match k {
        CharClass::Digit => is_digit(c),
        CharClass::Space => is_space(c),
        CharClass::PathPart => is_ascii_letter(c) || is_digit(c) || c == '.' || c == '_'
            || c == '-',
        CharClass::PathOrSlash => is_ascii_letter(c) || is_digit(c) || c == '.' || c == '_'
            || c == '-' || c == '/',
    }
}

pub fn is_digit_exec(c: char) -> (r: bool)
    ensures
        r == is_digit(c),
{
    '0' <= c && c <= '9'
}

pub fn is_word_char_exec(c: char) -> (r: bool)
    ensures
        r == is_word_char(c),
{
    ('a' <= c && c <= 'z') || ('A' <= c && c <= 'Z') || ('0' <= c && c <= '9') || c == '_'
}

pub fn in_class_exec(k: CharClass, c: char) -> (r: bool)
    ensures
        r == in_class(k, c),
{
    let letter_or_digit = ('a' <= c && c <= 'z') || ('A' <= c && c <= 'Z') || ('0' <= c && c
        <= '9');
    match k {
        CharClass::Digit => '0' <= c && c <= '9',
        CharClass::Space => c == ' ' || c == '\t' || c == '\n' || c == '\x0b' || c == '\x0c'
            || c == '\r' || c == '\u{85}' || c == '\u{a0}' || c == '\u{1680}' || ('\u{2000}'
            <= c && c <= '\u{200a}') || c == '\u{2028}' || c == '\u{2029}' || c == '\u{202f}'
            || c == '\u{205f}' || c == '\u{3000}',
        CharClass::PathPart => letter_or_digit || c == '.' || c == '_' || c == '-',
        CharClass::PathOrSlash => letter_or_digit || c == '.' || c == '_' || c == '-' || c
            == '/',
    }
}

/// The end of the longest run of characters of class `k` that starts at `i`.
pub open spec fn run_end(s: Seq<char>, i: int, k: CharClass) -> int
    decreases s.len() - i,
{
    if 0 <= i < s.len() && in_class(k, s[i]) {
        run_end(s, i + 1, k)
    } else {
        i
    }
}

pub proof fn lemma_run_end_bounds(s: Seq<char>, i: int, k: CharClass)
    requires
        0 <= i <= s.len(),
    ensures
        i <= run_end(s, i, k) <= s.len(),
        forall|j: int| i <= j < run_end(s, i, k) ==> in_class(k, #[trigger] s[j]),
        run_end(s, i, k) < s.len() ==> !in_class(k, s[run_end(s, i, k)]),
    decreases s.len() - i,
{
    if i < s.len() && in_class(k, s[i]) {
        lemma_run_end_bounds(s, i + 1, k);
    }
}

pub fn run_end_exec(s: &Vec<char>, i: usize, k: CharClass) -> (r: usize)
    requires
        i <= s.len(),
    ensures
        r == run_end(s@, i as int, k),
        i <= r <= s.len(),
{
    proof {
        lemma_run_end_bounds(s@, i as int, k);
    }
    let mut j = i;
    while j < s.len() && in_class_exec(k, s[j])
        invariant
            i <= j <= s.len(),
            run_end(s@, j as int, k) == run_end(s@, i as int, k),
        decreases s.len() - j,
    {
        j += 1;
    }
    j
}

/// `pat` stands in `s` at position `i`.
pub open spec fn has_at(s: Seq<char>, i: int, pat: Seq<char>) -> bool {
    0 <= i && i + pat.len() <= s.len() && s.subrange(i, i + pat.len()) == pat
}

pub fn has_at_exec(s: &Vec<char>, i: usize, pat: &Vec<char>) -> (r: bool)
    ensures
        r == has_at(s@, i as int, pat@),
{
    if i > s.len() || pat.len() > s.len() - i {
        return false;
    }
    let mut k: usize = 0;
    while k < pat.len()
        invariant
            k <= pat.len(),
            i + pat.len() <= s.len(),
            forall|m: int| 0 <= m < k ==> s@[i + m] == pat@[m],
        decreases pat.len() - k,
    {
        if s[i + k] != pat[k] {
            proof {
                assert(s@.subrange(i as int, i + pat.len())[k as int] != pat@[k as int]);
            }
            return false;
        }
        k += 1;
    }
    proof {
        assert(s@.subrange(i as int, i + pat.len()) =~= pat@);
    }
    true
}

/// The first position at or after `i` where `pat` stands in `s`.
pub open spec fn find_from(s: Seq<char>, pat: Seq<char>, i: int) -> Option<int>
    decreases s.len() - i,
{
    if i < 0 || i >= s.len() || i + pat.len() > s.len() {
        None
    } else if has_at(s, i, pat) {
        Some(i)
    } else {
        find_from(s, pat, i + 1)
    }
}

pub proof fn lemma_find_from_bounds(s: Seq<char>, pat: Seq<char>, i: int)
    requires
        0 <= i,
    ensures
        find_from(s, pat, i) is Some ==> {
            let p = find_from(s, pat, i)->0;
            i <= p && p + pat.len() <= s.len() && has_at(s, p, pat)
        },
    decreases s.len() - i,
{
    if i < s.len() && i + pat.len() <= s.len() && !has_at(s, i, pat) {
        lemma_find_from_bounds(s, pat, i + 1);
    }
}

pub fn find_from_exec(s: &Vec<char>, pat: &Vec<char>, i: usize) -> (r: Option<usize>)
    ensures
        r is Some <==> find_from(s@, pat@, i as int) is Some,
        r is Some ==> find_from(s@, pat@, i as int) == Some(r->0 as int),
        r is Some ==> i <= r->0 && r->0 + pat.len() <= s.len() && has_at(s@, r->0 as int, pat@),
{
    proof {
        lemma_find_from_bounds(s@, pat@, i as int);
    }
    if pat.len() > s.len() {
        return None;
    }
    let mut j = i;
    while j < s.len() && j <= s.len() - pat.len()
        invariant
            i <= j,
            pat.len() <= s.len(),
            find_from(s@, pat@, j as int) == find_from(s@, pat@, i as int),
        decreases s.len() + 1 - j,
    {
        if has_at_exec(s, j, pat) {
            return Some(j);
        }
        j += 1;
    }
    None
}

/// The characters of `s` from position `i` on; nothing when `i` is past the end.
pub open spec fn skip_chars(s: Seq<char>, i: int) -> Seq<char> {
    if i <= s.len() {
        s.subrange(i, s.len() as int)
    } else {
        Seq::empty()
    }
}

pub fn skip_chars_exec(s: &Vec<char>, i: usize) -> (r: Vec<char>)
    ensures
        r@ == skip_chars(s@, i as int),
{
    let mut out: Vec<char> = Vec::new();
    if i > s.len() {
        return out;
    }
    let mut j = i;
    while j < s.len()
        invariant
            i <= j <= s.len(),
            out@ == s@.subrange(i as int, j as int),
        decreases s.len() - j,
    {
        out.push(s[j]);
        j += 1;
        proof {
            assert(out@ =~= s@.subrange(i as int, j as int));
        }
    }
    out
}

pub fn subrange_exec(s: &Vec<char>, i: usize, j: usize) -> (r: Vec<char>)
    requires
        i <= j <= s.len(),
    ensures
        r@ == s@.subrange(i as int, j as int),
{
    let mut out: Vec<char> = Vec::new();
    let mut k = i;
    while k < j
        invariant
            i <= k <= j <= s.len(),
            out@ == s@.subrange(i as int, k as int),
        decreases j - k,
    {
        out.push(s[k]);
        k += 1;
        proof {
            assert(out@ =~= s@.subrange(i as int, k as int));
        }
    }
    out
}

} // verus!
