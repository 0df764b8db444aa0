//! The text of a document held in a `ropey::Rope`, and the line structure
//! that ropey gives that text.
use vstd::prelude::*;

use ropey::Rope;

verus! {

#[verifier::external_type_specification]
#[verifier::external_body]
pub struct ExRope(Rope);

/// The chars that a rope holds, in order.
pub uninterp spec fn rope_text(r: Rope) -> Seq<char>;

/// A char that ropey treats as (part of) a line break: LF, VT, FF, CR, NEL,
/// LINE SEPARATOR and PARAGRAPH SEPARATOR (the default `unicode_lines`
/// feature).
pub open spec fn is_break_char(c: char) -> bool {
    ||| c == '\n'
    ||| c == '\u{b}'
    ||| c == '\u{c}'
    ||| c == '\r'
    ||| c == '\u{85}'
    ||| c == '\u{2028}'
    ||| c == '\u{2029}'
}

/// A line break ends right before index `i` of `s`; a CR directly followed
/// by LF is not a break by itself, the pair counts as one.
pub open spec fn is_line_end(s: Seq<char>, i: int) -> bool {
    &&& 0 < i <= s.len()
    &&& is_break_char(s[i - 1])
    &&& !(s[i - 1] == '\r' && i < s.len() && s[i] == '\n')
}

/// Number of line breaks that end at or before index `c` of `s`: the index
/// of the line that holds char `c`.
pub open spec fn line_of(s: Seq<char>, c: int) -> nat
    decreases c,
{
    if c <= 0 {
        0
    } else {
        line_of(s, c - 1) + if is_line_end(s, c) {
            1nat
        } else {
            0nat
        }
    }
}

/// Number of lines of `s`: one more than its line breaks.
pub open spec fn line_count(s: Seq<char>) -> nat {
    line_of(s, s.len() as int) + 1
}

/// The first index from `c` on whose preceding breaks number at least `k`,
/// or `s.len()` when there is none.
pub open spec fn line_start_from(s: Seq<char>, k: nat, c: int) -> int
    decreases s.len() - c,
{
    if c >= s.len() {
        s.len() as int
    } else if line_of(s, c) >= k {
        c
    } else {
        line_start_from(s, k, c + 1)
    }
}

/// Char index where line `k` starts; `s.len()` for one past the last line.
pub open spec fn line_start(s: Seq<char>, k: nat) -> int {
    line_start_from(s, k, 0)
}

/// `Rope::from_str`: a rope holding the chars of `text`.
#[verifier::external_body]
pub(crate) fn rope_from_str(text: &str) -> (r: Rope)
    ensures
        rope_text(r) == text@,
{
    Rope::from_str(text)
}

/// `Rope::len_chars`: the number of chars held.
#[verifier::external_body]
pub(crate) fn rope_len_chars(r: &Rope) -> (n: usize)
    ensures
        n == rope_text(*r).len(),
{
    r.len_chars()
}

/// `Rope::len_lines`: the number of lines, one more than the line breaks.
#[verifier::external_body]
pub(crate) fn rope_len_lines(r: &Rope) -> (n: usize)
    ensures
        n == line_count(rope_text(*r)),
{
    r.len_lines()
}

/// `Rope::line_to_char`: the char index where line `line` starts (one past
/// the end for `line == len_lines`).
#[verifier::external_body]
pub(crate) fn rope_line_to_char(r: &Rope, line: usize) -> (c: usize)
    requires
        line <= line_count(rope_text(*r)),
    ensures
        c == line_start(rope_text(*r), line as nat),
{
    r.line_to_char(line)
}

/// `Rope::char_to_line`: the index of the line that holds char `c`.
#[verifier::external_body]
pub(crate) fn rope_char_to_line(r: &Rope, c: usize) -> (line: usize)
    requires
        c <= rope_text(*r).len(),
    ensures
        line == line_of(rope_text(*r), c as int),
{
    r.char_to_line(c)
}

/// `Rope::char`: the char at index `i`.
#[verifier::external_body]
pub(crate) fn rope_char(r: &Rope, i: usize) -> (c: char)
    requires
        i < rope_text(*r).len(),
    ensures
        c == rope_text(*r)[i as int],
{
    r.char(i)
}

/// `Rope::remove`: drops the chars in `start..end`.
#[verifier::external_body]
pub(crate) fn rope_remove(r: &mut Rope, start: usize, end: usize)
    requires
        start <= end <= rope_text(*old(r)).len(),
    ensures
        rope_text(*final(r)) == rope_text(*old(r)).take(start as int) + rope_text(*old(r)).skip(
            end as int,
        ),
{
    r.remove(start..end)
}

/// `Rope::insert`: puts the chars of `text` at index `at`.
#[verifier::external_body]
pub(crate) fn rope_insert(r: &mut Rope, at: usize, text: &str)
    requires
        at <= rope_text(*old(r)).len(),
    ensures
        rope_text(*final(r)) == rope_text(*old(r)).take(at as int) + text@ + rope_text(
            *old(r),
        ).skip(at as int),
{
    r.insert(at, text)
}

/// `String::from(&Rope)`: the text as a `String`.
#[verifier::external_body]
pub(crate) fn rope_to_string(r: &Rope) -> (s: String)
    ensures
        s@ == rope_text(*r),
{
    String::from(r)
}

/// `Rope::slice(start..end)`, as a `String`.
#[verifier::external_body]
pub(crate) fn rope_slice_string(r: &Rope, start: usize, end: usize) -> (s: String)
    requires
        start <= end <= rope_text(*r).len(),
    ensures
        s@ == rope_text(*r).subrange(start as int, end as int),
{
    r.slice(start..end).to_string()
}

// ── Facts about the line structure ───────────────────────────────────────────

pub proof fn lemma_line_of_mono(s: Seq<char>, a: int, b: int)
    requires
        a <= b,
    ensures
        line_of(s, a) <= line_of(s, b),
    decreases b - a,
{
    if a < b {
        lemma_line_of_mono(s, a, b - 1);
    }
}

pub proof fn lemma_line_start_from_bounds(s: Seq<char>, k: nat, c: int)
    requires
        0 <= c <= s.len(),
    ensures
        c <= line_start_from(s, k, c) <= s.len(),
    decreases s.len() - c,
{
    if c < s.len() && line_of(s, c) < k {
        lemma_line_start_from_bounds(s, k, c + 1);
    }
}

proof fn lemma_line_start_from_mono(s: Seq<char>, k: nat, c: int)
    requires
        0 <= c <= s.len(),
    ensures
        line_start_from(s, k, c) <= line_start_from(s, k + 1, c),
    decreases s.len() - c,
{
    if c < s.len() {
        if line_of(s, c) >= k + 1 {
        } else if line_of(s, c) >= k {
            lemma_line_start_from_bounds(s, k + 1, c + 1);
        } else {
            lemma_line_start_from_mono(s, k, c + 1);
        }
    }
}

proof fn lemma_line_start_from_le(s: Seq<char>, k: nat, x: int, c: int)
    requires
        0 <= x <= c <= s.len(),
        line_of(s, c) >= k,
    ensures
        line_start_from(s, k, x) <= c,
    decreases s.len() - x,
{
    if x < s.len() && line_of(s, x) < k {
        lemma_line_start_from_le(s, k, x + 1, c);
    }
}

/// Line starts lie within the text and grow with the line index.
pub proof fn lemma_line_start_bounds(s: Seq<char>, k: nat)
    ensures
        0 <= line_start(s, k) <= line_start(s, k + 1) <= s.len(),
{
    lemma_line_start_from_bounds(s, k, 0);
    lemma_line_start_from_bounds(s, k + 1, 0);
    lemma_line_start_from_mono(s, k, 0);
}

/// The line that holds char `c` starts at or before `c`.
pub proof fn lemma_line_start_of_line(s: Seq<char>, c: int)
    requires
        0 <= c <= s.len(),
    ensures
        line_start(s, line_of(s, c)) <= c,
{
    lemma_line_start_from_le(s, line_of(s, c), 0, c);
}

} // verus!
