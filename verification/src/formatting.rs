//! Formatting of Robot Framework source text.
//!
//! - Normalizes section header spacing (`***Settings***` becomes `*** Settings ***`)
//! - Normalizes the separator between tokens to exactly four spaces, and
//!   writes each indented line with exactly four leading spaces
//! - Keeps a blank line between blocks and collapses runs of blank lines
//! - Trims trailing whitespace from each line
//! - Ends the file with exactly one newline
use vstd::prelude::*;

use crate::lsp::{Position, Range, TextEdit};
use crate::text::{
    chars_of, contains_chars, contains_seq, char_utf16_len, ends_with, ends_with_chars,
    extend_chars, is_ws, join, join_chars, starts_with, starts_with_chars, string_of, strip_end_char,
    strip_start_char, sub_chars,
    trim, trim_char, trim_char_chars, trim_chars, trim_end, trim_end_chars, trim_start,
    trim_start_chars, utf16_len,
};

verus! {

// ── Separators ───────────────────────────────────────────────────────────────

/// A char that may form part of a token separator.
pub open spec fn is_sep_char(c: char) -> bool {
    c == ' ' || c == '\t'
}

/// A separator begins at `i`: a tab, or the first of two spaces.
pub open spec fn sep_start(s: Seq<char>, i: int) -> bool {
    s[i] == '\t' || (s[i] == ' ' && i + 1 < s.len() && s[i + 1] == ' ')
}

/// The tokens of `s[start..]` scanned from `i`: a separator starts at a tab or
/// at two spaces and swallows every following space and tab; the text
/// between separators forms the tokens, and empty pieces are dropped.
/// `skipping` means the scan is inside a separator.
pub open spec fn split_from(s: Seq<char>, start: int, i: int, skipping: bool) -> Seq<Seq<char>>
    decreases s.len() - i, if skipping { 1int } else { 0int },
{
    if skipping {
        if 0 <= i < s.len() && is_sep_char(s[i]) {
            split_from(s, start, i + 1, true)
        } else {
            split_from(s, i, i, false)
        }
    } else if i >= s.len() {
        if 0 <= start < s.len() {
            seq![s.subrange(start, s.len() as int)]
        } else {
            Seq::empty()
        }
    } else if i >= 0 && sep_start(s, i) {
        let head: Seq<Seq<char>> = if i > start {
            seq![s.subrange(start, i)]
        } else {
            Seq::empty()
        };
        head + split_from(s, start, i + 1, true)
    } else {
        split_from(s, start, i + 1, false)
    }
}

/// The tokens of a Robot Framework line.
pub open spec fn split_tokens(s: Seq<char>) -> Seq<Seq<char>> {
    split_from(s, 0, 0, false)
}

/// The four-space separator.
pub open spec fn four_spaces() -> Seq<char> {
    seq![' ', ' ', ' ', ' ']
}

/// A line's tokens rejoined with the four-space separator.
pub open spec fn normalize_separators_spec(s: Seq<char>) -> Seq<char> {
    join(split_tokens(s), four_spaces())
}

/// A token as the splitter yields it: non-empty, holding no tab and no two
/// adjacent spaces.
pub open spec fn is_clean_token(p: Seq<char>) -> bool {
    &&& p.len() > 0
    &&& forall|j: int| 0 <= j < p.len() ==> p[j] != '\t'
    &&& forall|j: int| 0 <= j < p.len() - 1 ==> !(p[j] == ' ' && #[trigger] p[j + 1] == ' ')
}

/// Split a line on Robot Framework separators (a tab, or two or more spaces).
pub fn split_rf_separators(s: &str) -> (parts: Vec<String>)
    ensures
        parts@.map_values(|p: String| p@) == split_tokens(s@),
{
    let cs = chars_of(s);
    let parts = split_rf_chars(&cs);
    let mut out: Vec<String> = Vec::new();
    let mut k: usize = 0;
    while k < parts.len()
        invariant
            k <= parts.len(),
            out.len() == k,
            forall|j: int| 0 <= j < k ==> #[trigger] out@[j]@ == parts@[j]@,
        decreases parts.len() - k,
    {
        out.push(string_of(&parts[k]));
        k += 1;
    }
    assert(out@.map_values(|p: String| p@) =~= parts@.map_values(|p: Vec<char>| p@));
    out
}

/// Split a line, given as chars, on Robot Framework separators.
pub fn split_rf_chars(s: &[char]) -> (parts: Vec<Vec<char>>)
    ensures
        parts@.map_values(|p: Vec<char>| p@) == split_tokens(s@),
{
    let mut parts: Vec<Vec<char>> = Vec::new();
    let mut start: usize = 0;
    let mut i: usize = 0;
    while i < s.len()
        invariant
            start <= i <= s.len(),
            parts@.map_values(|p: Vec<char>| p@) + split_from(s@, start as int, i as int, false)
                == split_tokens(s@),
        decreases s.len() - i,
    {
        if s[i] == '\t' || (s[i] == ' ' && i + 1 < s.len() && s[i + 1] == ' ') {
            let ghost i0 = i;
            let ghost before = parts@.map_values(|p: Vec<char>| p@);
            if i > start {
                parts.push(sub_chars(s, start, i));
            }
            assert(parts@.map_values(|p: Vec<char>| p@) =~= before + (if i > start {
                seq![s@.subrange(start as int, i as int)]
            } else {
                Seq::<Seq<char>>::empty()
            }));
            i += 1;
            while i < s.len() && (s[i] == ' ' || s[i] == '\t')
                invariant
                    start <= i0 < i <= s.len(),
                    parts@.map_values(|p: Vec<char>| p@) + split_from(
                        s@,
                        start as int,
                        i as int,
                        true,
                    ) == split_tokens(s@),
                decreases s.len() - i,
            {
                i += 1;
            }
            start = i;
        } else {
            i += 1;
        }
    }
    let ghost before = parts@.map_values(|p: Vec<char>| p@);
    if start < s.len() {
        parts.push(sub_chars(s, start, s.len()));
    }
    assert(parts@.map_values(|p: Vec<char>| p@) =~= before + split_from(
        s@,
        start as int,
        i as int,
        false,
    ));
    parts
}

/// Collapse each separator into exactly four spaces.
pub fn normalize_separators(s: &[char]) -> (r: Vec<char>)
    ensures
        r@ == normalize_separators_spec(s@),
{
    let parts = split_rf_chars(s);
    let sep = vec![' ', ' ', ' ', ' '];
    assert(sep@ == four_spaces());
    join_chars(&parts, &sep)
}

// ── Section headers ───────────────────────────────────────────────────────────

pub open spec fn three_stars() -> Seq<char> {
    seq!['*', '*', '*']
}

/// A line reads as a section header such as `*** Settings ***`.
pub open spec fn is_section_header_spec(line: Seq<char>) -> bool {
    let s = trim(line);
    ||| (starts_with(s, three_stars()) && ends_with(s, three_stars()))
    ||| starts_with(s, three_stars().push(' '))
    ||| (starts_with(s, seq!['*']) && contains_seq(s, three_stars()))
}

/// The canonical form `*** Name ***` of a header line.
pub open spec fn normalize_header_spec(line: Seq<char>) -> Seq<char> {
    three_stars().push(' ') + trim(trim_char(trim(line), '*')) + seq![' '] + three_stars()
}

/// Whether `line` is a section header.
pub fn is_section_header(line: &[char]) -> (r: bool)
    ensures
        r == is_section_header_spec(line@),
{
    let s = trim_chars(line);
    let stars = vec!['*', '*', '*'];
    let stars_sp = vec!['*', '*', '*', ' '];
    let star = vec!['*'];
    assert(stars@ == three_stars());
    assert(stars_sp@ == three_stars().push(' '));
    assert(star@ == seq!['*']);
    (starts_with_chars(&s, &stars) && ends_with_chars(&s, &stars)) || starts_with_chars(
        &s,
        &stars_sp,
    ) || (starts_with_chars(&s, &star) && contains_chars(&s, &stars))
}

/// Rewrite a header line into the canonical `*** Name ***` form.
pub fn normalize_header(line: &str) -> (r: String)
    ensures
        r@ == normalize_header_spec(line@),
{
    let cs = chars_of(line);
    let h = normalize_header_chars(&cs);
    string_of(&h)
}

fn normalize_header_chars(line: &[char]) -> (r: Vec<char>)
    ensures
        r@ == normalize_header_spec(line@),
{
    let trimmed = trim_chars(line);
    let unstarred = trim_char_chars(&trimmed, '*');
    let inner = trim_chars(&unstarred);
    let mut r = vec!['*', '*', '*', ' '];
    extend_chars(&mut r, &inner);
    let tail = vec![' ', '*', '*', '*'];
    extend_chars(&mut r, &tail);
    assert(r@ =~= normalize_header_spec(line@));
    r
}

// ── Indentation ───────────────────────────────────────────────────────────────

/// Number of whitespace chars at the start of `s`.
pub open spec fn leading_ws(s: Seq<char>) -> nat {
    (s.len() - trim_start(s).len()) as nat
}

/// Number of leading whitespace chars of `line`.
pub fn leading_spaces(line: &[char]) -> (n: usize)
    ensures
        n == leading_ws(line@),
{
    let rest = trim_start_chars(line);
    proof {
        lemma_trim_start_is_suffix(line@);
    }
    line.len() - rest.len()
}

// ── Lines ─────────────────────────────────────────────────────────────────────

/// Index of the first `'\n'` in `s`, or `s.len()` when there is none.
pub open spec fn first_nl(s: Seq<char>) -> nat
    decreases s.len(),
{
    if s.len() == 0 || s[0] == '\n' {
        0
    } else {
        1 + first_nl(s.drop_first())
    }
}

/// `l` without one trailing carriage return.
pub open spec fn strip_cr(l: Seq<char>) -> Seq<char> {
    if l.len() > 0 && l.last() == '\r' {
        l.drop_last()
    } else {
        l
    }
}

/// The lines of `s` as `str::lines` yields them: split at `'\n'`, a `'\r'`
/// right before it dropped, and no empty line after a final newline.
pub open spec fn lines(s: Seq<char>) -> Seq<Seq<char>>
    decreases s.len(),
{
    if s.len() == 0 {
        Seq::empty()
    } else if first_nl(s) >= s.len() {
        seq![s]
    } else {
        seq![strip_cr(s.take(first_nl(s) as int))] + lines(s.skip(first_nl(s) as int + 1))
    }
}

/// Split `s` into lines like `str::lines`.
pub fn split_lines(s: &[char]) -> (ls: Vec<Vec<char>>)
    ensures
        ls@.map_values(|l: Vec<char>| l@) == lines(s@),
{
    let mut ls: Vec<Vec<char>> = Vec::new();
    let mut start: usize = 0;
    let mut i: usize = 0;
    assert(s@.skip(0) == s@);
    while i < s.len()
        invariant
            start <= i <= s.len(),
            forall|j: int| start <= j < i ==> s@[j] != '\n',
            ls@.map_values(|l: Vec<char>| l@) + lines(s@.skip(start as int)) == lines(s@),
        decreases s.len() - i,
    {
        if s[i] == '\n' {
            proof {
                lemma_first_nl_at(s@.skip(start as int), (i - start) as int);
                assert(s@.skip(start as int).take(i - start) =~= s@.subrange(
                    start as int,
                    i as int,
                ));
                assert(s@.skip(start as int).skip(i - start + 1) =~= s@.skip(i + 1));
            }
            let ghost before = ls@.map_values(|l: Vec<char>| l@);
            let mut end = i;
            if end > start && s[end - 1] == '\r' {
                end = end - 1;
            }
            proof {
                if end < i {
                    assert(s@.subrange(start as int, end as int) =~= s@.subrange(
                        start as int,
                        i as int,
                    ).drop_last());
                }
            }
            ls.push(sub_chars(s, start, end));
            assert(ls@.map_values(|l: Vec<char>| l@) =~= before + seq![
                strip_cr(s@.subrange(start as int, i as int)),
            ]);
            i += 1;
            start = i;
        } else {
            i += 1;
        }
    }
    proof {
        if start < s.len() {
            lemma_first_nl_none(s@.skip(start as int));
        }
    }
    let ghost before = ls@.map_values(|l: Vec<char>| l@);
    if start < s.len() {
        ls.push(sub_chars(s, start, s.len()));
    }
    assert(ls@.map_values(|l: Vec<char>| l@) =~= before + lines(s@.skip(start as int)));
    ls
}

// ── Whole-text formatting ────────────────────────────────────────────────────

/// `out` ends with a newline.
pub open spec fn ends_nl(out: Seq<char>) -> bool {
    out.len() >= 1 && out[out.len() - 1] == '\n'
}

/// `out` ends with two newlines, i.e. with a blank line.
pub open spec fn ends_nl2(out: Seq<char>) -> bool {
    out.len() >= 2 && out[out.len() - 1] == '\n' && out[out.len() - 2] == '\n'
}

/// One line's contribution to the formatted output.  The state is the output
/// so far and whether the previous line was an indented block body line.
pub open spec fn format_step(out: Seq<char>, prev_block: bool, line: Seq<char>) -> (
    Seq<char>,
    bool,
) {
    let trimmed = trim_end(line);
    if is_section_header_spec(trimmed) {
        let out1 = if out.len() > 0 && !ends_nl2(out) {
            if !ends_nl(out) {
                out.push('\n').push('\n')
            } else {
                out.push('\n')
            }
        } else {
            out
        };
        (out1 + normalize_header_spec(trimmed) + seq!['\n'], false)
    } else if trimmed.len() == 0 {
        (
            if !ends_nl2(out) && out.len() > 0 {
                out.push('\n')
            } else {
                out
            },
            false,
        )
    } else if leading_ws(line) == 0 {
        let out1 = if prev_block && !ends_nl2(out) {
            out.push('\n')
        } else {
            out
        };
        (out1 + normalize_separators_spec(trimmed) + seq!['\n'], false)
    } else {
        (out + four_spaces() + normalize_separators_spec(trim(line)) + seq!['\n'], true)
    }
}

/// The output after formatting all of `ls`.
pub open spec fn format_lines(ls: Seq<Seq<char>>) -> (Seq<char>, bool)
    decreases ls.len(),
{
    if ls.len() == 0 {
        (Seq::empty(), false)
    } else {
        let prev = format_lines(ls.drop_last());
        format_step(prev.0, prev.1, ls.last())
    }
}

/// `out` with trailing blank lines removed.
pub open spec fn drop_blank_tail(out: Seq<char>) -> Seq<char>
    decreases out.len(),
{
    if ends_nl2(out) {
        drop_blank_tail(out.drop_last())
    } else {
        out
    }
}

/// `out` ending in exactly one newline.
pub open spec fn finish_output(out: Seq<char>) -> Seq<char> {
    let o = drop_blank_tail(out);
    if ends_nl(o) {
        o
    } else {
        o.push('\n')
    }
}

/// The formatted form of `text`.
pub open spec fn format_rf_spec(text: Seq<char>) -> Seq<char> {
    finish_output(format_lines(lines(text)).0)
}

/// Append the formatted form of one line to `out`.
fn format_line(out: &mut Vec<char>, prev_block: bool, line: &[char]) -> (block: bool)
    ensures
        (final(out)@, block) == format_step(old(out)@, prev_block, line@),
{
    let trimmed = trim_end_chars(line);
    if is_section_header(&trimmed) {
        if out.len() > 0 && !ends_with_blank_line(out) {
            if !ends_with_newline(out) {
                out.push('\n');
            }
            out.push('\n');
        }
        let h = normalize_header_chars(&trimmed);
        extend_chars(out, &h);
        out.push('\n');
        false
    } else if trimmed.len() == 0 {
        if !ends_with_blank_line(out) && out.len() > 0 {
            out.push('\n');
        }
        false
    } else {
        let indent = leading_spaces(line);
        if indent == 0 {
            let normalized = normalize_separators(&trimmed);
            if prev_block && !ends_with_blank_line(out) {
                out.push('\n');
            }
            extend_chars(out, &normalized);
            out.push('\n');
            false
        } else {
            let body = trim_start_chars(&trimmed);
            let normalized = normalize_separators(&body);
            let sp = vec![' ', ' ', ' ', ' '];
            assert(sp@ == four_spaces());
            extend_chars(out, &sp);
            extend_chars(out, &normalized);
            out.push('\n');
            true
        }
    }
}

fn ends_with_newline(out: &Vec<char>) -> (r: bool)
    ensures
        r == ends_nl(out@),
{
    out.len() >= 1 && out[out.len() - 1] == '\n'
}

fn ends_with_blank_line(out: &Vec<char>) -> (r: bool)
    ensures
        r == ends_nl2(out@),
{
    out.len() >= 2 && out[out.len() - 1] == '\n' && out[out.len() - 2] == '\n'
}

/// Core formatting logic: return the formatted source text.
pub fn format_rf(text: &str) -> (r: String)
    ensures
        r@ == format_rf_spec(text@),
{
    let cs = chars_of(text);
    let out = format_chars(&cs);
    string_of(&out)
}

fn format_chars(text: &[char]) -> (r: Vec<char>)
    ensures
        r@ == format_rf_spec(text@),
{
    let ls = split_lines(text);
    let ghost lss = ls@.map_values(|l: Vec<char>| l@);
    let mut out: Vec<char> = Vec::new();
    let mut prev = false;
    let mut k: usize = 0;
    while k < ls.len()
        invariant
            k <= ls.len(),
            lss == ls@.map_values(|l: Vec<char>| l@),
            (out@, prev) == format_lines(lss.take(k as int)),
        decreases ls.len() - k,
    {
        prev = format_line(&mut out, prev, &ls[k]);
        k += 1;
        assert(lss.take(k as int).drop_last() == lss.take(k - 1));
    }
    assert(lss.take(ls.len() as int) == lss);
    let ghost folded = out@;
    assert(drop_blank_tail(out@) == drop_blank_tail(folded));
    while ends_with_blank_line(&out)
        invariant
            drop_blank_tail(out@) == drop_blank_tail(folded),
        decreases out.len(),
    {
        out.pop();
    }
    if !ends_with_newline(&out) {
        out.push('\n');
    }
    out
}

/// Count of `'\n'` in `s`.
pub open spec fn count_nl(s: Seq<char>) -> nat
    decreases s.len(),
{
    if s.len() == 0 {
        0
    } else {
        count_nl(s.drop_last()) + if s.last() == '\n' {
            1nat
        } else {
            0nat
        }
    }
}

/// The text after the last `'\n'` of `s` (all of `s` when it has none).
pub open spec fn after_last_nl(s: Seq<char>) -> Seq<char>
    decreases s.len(),
{
    if s.len() == 0 {
        s
    } else if s.last() == '\n' {
        Seq::empty()
    } else {
        after_last_nl(s.drop_last()).push(s.last())
    }
}

/// Length of `s` in UTF-16 code units (the unit of LSP columns), wrapped to
/// 32 bits.
pub open spec fn utf16_len_wrapped(s: Seq<char>) -> u32
    decreases s.len(),
{
    if s.len() == 0 {
        0
    } else {
        vstd::wrapping::u32_specs::wrapping_add(utf16_len_wrapped(s.drop_last()), utf16_len(s.last()) as u32)
    }
}

/// The range that `format_document` replaces for `text`: from the start of
/// the document to the position one past its end in LSP units: the line
/// count and the length of the last line in UTF-16 code units, both as `u32`.
pub open spec fn whole_document_range(text: Seq<char>) -> Range {
    Range {
        start: Position { line: 0, character: 0 },
        end: Position {
            line: count_nl(text) as u32,
            character: utf16_len_wrapped(after_last_nl(text)),
        },
    }
}

/// Format `text` and return a single whole-document replacement edit, or
/// `None` when the text is already formatted.
pub fn format_document(text: &str) -> (r: Option<Vec<TextEdit>>)
    ensures
        r is None <==> format_rf_spec(text@) == text@,
        r matches Some(edits) ==> {
            &&& edits@.len() == 1
            &&& edits@[0].range == whole_document_range(text@)
            &&& edits@[0].new_text@ == format_rf_spec(text@)
        },
{
    let cs = chars_of(text);
    let formatted = format_chars(&cs);
    if chars_equal(&formatted, &cs) {
        return None;
    }
    let mut lines_count: usize = 0;
    let mut last_len: u32 = 0;
    let mut i: usize = 0;
    while i < cs.len()
        invariant
            i <= cs.len(),
            lines_count == count_nl(cs@.take(i as int)),
            last_len == utf16_len_wrapped(after_last_nl(cs@.take(i as int))),
        decreases cs.len() - i,
    {
        assert(cs@.take(i + 1).drop_last() == cs@.take(i as int));
        assert(cs@.take(i + 1).last() == cs@[i as int]);
        if cs[i] == '\n' {
            proof {
                lemma_count_nl_bound(cs@.take(i as int));
            }
            lines_count += 1;
            last_len = 0;
        } else {
            let n = char_utf16_len(cs[i]);
            assert(after_last_nl(cs@.take(i + 1)) == after_last_nl(cs@.take(i as int)).push(
                cs@[i as int],
            ));
            let ghost prev_seg = after_last_nl(cs@.take(i as int));
            assert(utf16_len_wrapped(prev_seg.push(cs@[i as int])) == vstd::wrapping::u32_specs::wrapping_add(
                utf16_len_wrapped(prev_seg),
                utf16_len(cs@[i as int]) as u32,
            )) by {
                assert(prev_seg.push(cs@[i as int]).drop_last() == prev_seg);
            }
            last_len = last_len.wrapping_add(n);
        }
        i += 1;
    }
    assert(cs@.take(cs.len() as int) == cs@);
    let edit = TextEdit {
        range: Range {
            start: Position { line: 0, character: 0 },
            end: Position { line: lines_count as u32, character: last_len },
        },
        new_text: string_of(&formatted),
    };
    Some(vec![edit])
}

/// Whether two char vectors hold the same chars.
fn chars_equal(a: &Vec<char>, b: &Vec<char>) -> (r: bool)
    ensures
        r == (a@ == b@),
{
    if a.len() != b.len() {
        return false;
    }
    let mut i: usize = 0;
    while i < a.len()
        invariant
            a.len() == b.len(),
            i <= a.len(),
            forall|j: int| 0 <= j < i ==> a@[j] == b@[j],
        decreases a.len() - i,
    {
        if a[i] != b[i] {
            return false;
        }
        i += 1;
    }
    assert(a@ =~= b@);
    true
}

// ── Laws ─────────────────────────────────────────────────────────────────────

/// `s` holds no newline.
pub open spec fn no_nl(s: Seq<char>) -> bool {
    forall|j: int| 0 <= j < s.len() ==> #[trigger] s[j] != '\n'
}

/// `s` holds no run of three newlines, i.e. never two blank lines in a row.
pub open spec fn no_nl3(s: Seq<char>) -> bool {
    forall|j: int|
        0 <= j && j + 2 < s.len() ==> !(#[trigger] s[j] == '\n' && s[j + 1] == '\n' && s[j
            + 2] == '\n')
}

/// Formatted text always ends with exactly one newline, and never holds two
/// consecutive blank lines.
pub proof fn lemma_format_rf_shape(text: Seq<char>)
    ensures
        ends_nl(format_rf_spec(text)),
        !ends_nl2(format_rf_spec(text)),
        no_nl3(format_rf_spec(text)),
{
    let ls = lines(text);
    lemma_lines_no_nl(text);
    lemma_format_lines_inv(ls);
    let out = format_lines(ls).0;
    lemma_drop_blank_tail(out);
    let o = drop_blank_tail(out);
    if !ends_nl(o) {
        lemma_push_nl(o);
    }
}

/// Every token that the separator splitting yields is non-empty and holds
/// neither a tab nor two adjacent spaces.
pub proof fn lemma_split_tokens_clean(s: Seq<char>)
    ensures
        forall|k: int|
            0 <= k < split_tokens(s).len() ==> is_clean_token(#[trigger] split_tokens(s)[k]),
{
    lemma_split_clean(s, 0, 0, false);
}

/// No line of `s` ends in whitespace: the char before each newline is a
/// newline or not whitespace.
pub open spec fn no_trailing_ws(s: Seq<char>) -> bool {
    forall|j: int| 0 < j < s.len() && #[trigger] s[j] == '\n' ==> (s[j - 1] == '\n' || !is_ws(s[j - 1]))
}

/// The formatter's line laws: no formatted line ends in whitespace, and the
/// output starts with a newline only when it is the single newline of an
/// empty document.
pub proof fn lemma_format_rf_lines(text: Seq<char>)
    ensures
        no_trailing_ws(format_rf_spec(text)),
        format_rf_spec(text) == seq!['\n'] || format_rf_spec(text)[0] != '\n',
{
    let ls = lines(text);
    lemma_lines_no_nl(text);
    lemma_format_lines_clean(ls);
    lemma_format_lines_inv(ls);
    let out = format_lines(ls).0;
    lemma_drop_blank_tail_clean(out);
    let o = drop_blank_tail(out);
    if !ends_nl(o) {
        assert(o.len() == 0);
        assert(o.push('\n') =~= seq!['\n']);
    }
}

proof fn lemma_drop_blank_tail_clean(out: Seq<char>)
    requires
        no_trailing_ws(out),
        out.len() > 0 ==> out[0] != '\n',
        out.len() == 0 || ends_nl(out),
    ensures
        no_trailing_ws(drop_blank_tail(out)),
        drop_blank_tail(out).len() > 0 ==> drop_blank_tail(out)[0] != '\n',
        drop_blank_tail(out).len() == 0 || ends_nl(drop_blank_tail(out)),
        out.len() > 0 ==> drop_blank_tail(out).len() > 0,
    decreases out.len(),
{
    if ends_nl2(out) {
        let d = out.drop_last();
        assert forall|j: int| 0 < j < d.len() && #[trigger] d[j] == '\n' implies (d[j - 1] == '\n' || !is_ws(
            d[j - 1],
        )) by {
            assert(d[j] == out[j] && d[j - 1] == out[j - 1]);
        }
        lemma_drop_blank_tail_clean(d);
    }
}

/// The text after trimming its end, when not empty, ends in a non-space.
proof fn lemma_trim_end_last(s: Seq<char>)
    ensures
        trim_end(s).len() > 0 ==> !is_ws(trim_end(s).last()),
    decreases s.len(),
{
    if s.len() > 0 && is_ws(s.last()) {
        lemma_trim_end_last(s.drop_last());
    }
}

/// Trimming the start of a text that ends in a non-space keeps that end.
proof fn lemma_trim_start_keeps_last(s: Seq<char>)
    requires
        s.len() > 0,
        !is_ws(s.last()),
    ensures
        trim_start(s).len() > 0,
        trim_start(s).last() == s.last(),
    decreases s.len(),
{
    if is_ws(s[0]) {
        assert(s.len() > 1);
        assert(s.drop_first().last() == s.last());
        lemma_trim_start_keeps_last(s.drop_first());
    }
}

/// The tokens of a text whose last char is not a separator char end with
/// that char.
proof fn lemma_split_last(s: Seq<char>, start: int, i: int, skipping: bool)
    requires
        s.len() > 0,
        !is_sep_char(s.last()),
        skipping ==> 0 <= i < s.len(),
        !skipping ==> 0 <= start <= i && start < s.len(),
    ensures
        split_from(s, start, i, skipping).len() > 0,
        split_from(s, start, i, skipping).last().len() > 0,
        split_from(s, start, i, skipping).last().last() == s.last(),
    decreases s.len() - i, if skipping { 1int } else { 0int },
{
    if skipping {
        if 0 <= i < s.len() && is_sep_char(s[i]) {
            assert(i + 1 < s.len());
            lemma_split_last(s, start, i + 1, true);
        } else {
            lemma_split_last(s, i, i, false);
        }
    } else if i >= s.len() {
    } else if sep_start(s, i) {
        assert(i + 1 < s.len());
        lemma_split_last(s, start, i + 1, true);
        let head: Seq<Seq<char>> = if i > start {
            seq![s.subrange(start, i)]
        } else {
            Seq::empty()
        };
        let rest = split_from(s, start, i + 1, true);
        assert((head + rest).last() == rest.last());
    } else {
        lemma_split_last(s, start, i + 1, false);
    }
}

/// Rejoined tokens of a text ending in a non-space end in that char.
proof fn lemma_normalized_last(s: Seq<char>)
    requires
        s.len() > 0,
        !is_ws(s.last()),
    ensures
        normalize_separators_spec(s).len() > 0,
        normalize_separators_spec(s).last() == s.last(),
{
    lemma_split_last(s, 0, 0, false);
    let ps = split_tokens(s);
    if ps.len() > 1 {
        assert(join(ps, four_spaces()) == join(ps.drop_last(), four_spaces()) + four_spaces() + ps.last());
    }
}

proof fn lemma_append_clean(out: Seq<char>, x: Seq<char>)
    requires
        no_trailing_ws(out),
        out.len() == 0 || ends_nl(out),
        no_nl(x),
        x.len() > 0,
        !is_ws(x.last()),
    ensures
        no_trailing_ws(out + x + seq!['\n']),
        (out + x + seq!['\n'])[0] == (if out.len() > 0 { out[0] } else { x[0] }),
{
    let r = out + x + seq!['\n'];
    assert forall|j: int| 0 < j < r.len() && #[trigger] r[j] == '\n' implies (r[j - 1] == '\n' || !is_ws(r[j - 1])) by {
        if j < out.len() {
            assert(r[j] == out[j] && r[j - 1] == out[j - 1]);
        } else if j == out.len() {
            assert(r[j] == x[0]);
        } else if j < out.len() + x.len() {
            assert(r[j] == x[j - out.len()]);
        } else {
            assert(r[j - 1] == x[x.len() - 1]);
        }
    }
}

proof fn lemma_push_nl_clean(out: Seq<char>)
    requires
        no_trailing_ws(out),
        ends_nl(out),
    ensures
        no_trailing_ws(out.push('\n')),
{
    let r = out.push('\n');
    assert forall|j: int| 0 < j < r.len() && #[trigger] r[j] == '\n' implies (r[j - 1] == '\n' || !is_ws(r[j - 1])) by {
        if j < out.len() {
            assert(r[j] == out[j] && r[j - 1] == out[j - 1]);
        }
    }
}

/// The state of the formatter between lines is clean: no trailing spaces,
/// no leading newline, and a block line behind it when `prev` says so.
pub open spec fn step_clean(out: Seq<char>, prev: bool) -> bool {
    &&& no_trailing_ws(out)
    &&& out.len() > 0 ==> out[0] != '\n'
    &&& prev ==> out.len() > 0
}

proof fn lemma_step_clean(out: Seq<char>, prev: bool, line: Seq<char>)
    requires
        step_clean(out, prev),
        out.len() == 0 || ends_nl(out),
        no_nl(line),
    ensures
        step_clean(format_step(out, prev, line).0, format_step(out, prev, line).1),
{
    let trimmed = trim_end(line);
    lemma_trim_no_nl(line);
    lemma_trim_end_last(line);
    if is_section_header_spec(trimmed) {
        let out1 = if out.len() > 0 && !ends_nl2(out) {
            out.push('\n')
        } else {
            out
        };
        if out.len() > 0 && !ends_nl2(out) {
            lemma_push_nl_clean(out);
            assert(out1[0] == out[0]);
        }
        lemma_trim_no_nl(trimmed);
        lemma_trim_no_nl(trim(trimmed));
        lemma_trim_no_nl(trim_char(trim(trimmed), '*'));
        let h = normalize_header_spec(trimmed);
        let inner = trim(trim_char(trim(trimmed), '*'));
        assert forall|j: int| 0 <= j < h.len() implies #[trigger] h[j] != '\n' by {
            if 4 <= j < 4 + inner.len() {
                assert(h[j] == inner[j - 4]);
            }
        }
        assert(h.last() == '*');
        assert(h[0] == '*');
        assert(out1.len() == 0 || ends_nl(out1));
        lemma_append_clean(out1, h);
    } else if trimmed.len() == 0 {
        if !ends_nl2(out) && out.len() > 0 {
            lemma_push_nl_clean(out);
        }
    } else {
        if leading_ws(line) == 0 {
            let y = normalize_separators_spec(trimmed);
            lemma_split_no_nl(trimmed, 0, 0, false);
            lemma_join_no_nl(split_tokens(trimmed), four_spaces());
            lemma_normalized_last(trimmed);
            if prev && !ends_nl2(out) {
                lemma_push_nl_clean(out);
                lemma_append_clean(out.push('\n'), y);
            } else {
                lemma_append_clean(out, y);
            }
        } else {
            let t = trim(line);
            lemma_trim_start_keeps_last(trimmed);
            let y = normalize_separators_spec(t);
            lemma_split_no_nl(t, 0, 0, false);
            lemma_join_no_nl(split_tokens(t), four_spaces());
            lemma_normalized_last(t);
            let x = four_spaces() + y;
            assert forall|j: int| 0 <= j < x.len() implies #[trigger] x[j] != '\n' by {
                if j >= 4 {
                    assert(x[j] == y[j - 4]);
                }
            }
            assert(x.last() == y.last());
            lemma_append_clean(out, x);
            assert(out + four_spaces() + y + seq!['\n'] == out + x + seq!['\n']);
        }
    }
}

proof fn lemma_format_lines_clean(ls: Seq<Seq<char>>)
    requires
        forall|k: int| 0 <= k < ls.len() ==> no_nl(#[trigger] ls[k]),
    ensures
        step_clean(format_lines(ls).0, format_lines(ls).1),
    decreases ls.len(),
{
    if ls.len() > 0 {
        assert forall|k: int| 0 <= k < ls.drop_last().len() implies no_nl(#[trigger] ls.drop_last()[k]) by {
            assert(ls.drop_last()[k] == ls[k]);
        }
        lemma_format_lines_clean(ls.drop_last());
        lemma_format_lines_inv(ls.drop_last());
        let prev = format_lines(ls.drop_last());
        assert(no_nl(ls[ls.len() - 1]));
        lemma_step_clean(prev.0, prev.1, ls.last());
    }
}

/// The name a header line is written with: the text between its stars,
/// without surrounding whitespace.
pub open spec fn header_name(line: Seq<char>) -> Seq<char> {
    trim(trim_char(trim(trim_end(line)), '*'))
}

/// Each section header is written as `*** Name ***` on a line of its own,
/// its name without surrounding whitespace: the output after a header line
/// ends with that line.
pub proof fn lemma_header_form(out: Seq<char>, prev: bool, line: Seq<char>)
    requires
        is_section_header_spec(trim_end(line)),
    ensures
        ({
            let o = format_step(out, prev, line).0;
            let h = "*** "@ + header_name(line) + " ***\n"@;
            &&& o.len() >= h.len()
            &&& o.skip(o.len() - h.len()) == h
            &&& !format_step(out, prev, line).1
        }),
        header_name(line).len() > 0 ==> !is_ws(header_name(line)[0]) && !is_ws(header_name(line).last()),
{
    reveal_strlit("*** ");
    reveal_strlit(" ***\n");
    let trimmed = trim_end(line);
    let n = header_name(line);
    assert(normalize_header_spec(trimmed) + seq!['\n'] =~= "*** "@ + n + " ***\n"@);
    let o = format_step(out, prev, line).0;
    let h = "*** "@ + n + " ***\n"@;
    let out1 = if out.len() > 0 && !ends_nl2(out) {
        if !ends_nl(out) {
            out.push('\n').push('\n')
        } else {
            out.push('\n')
        }
    } else {
        out
    };
    assert(o == out1 + h);
    assert(o.skip(o.len() - h.len()) =~= h);
    let inner = trim_char(trim(trimmed), '*');
    lemma_trim_end_last(inner);
    if n.len() > 0 {
        lemma_trim_start_keeps_last(trim_end(inner));
        lemma_trim_start_first(trim_end(inner));
    }
}

/// Trimming the start of a text leaves no whitespace in front.
proof fn lemma_trim_start_first(s: Seq<char>)
    ensures
        trim_start(s).len() > 0 ==> !is_ws(trim_start(s)[0]),
    decreases s.len(),
{
    if s.len() > 0 && is_ws(s[0]) {
        lemma_trim_start_first(s.drop_first());
    }
}

// ── Lemmas ────────────────────────────────────────────────────────────────────

proof fn lemma_split_clean(s: Seq<char>, start: int, i: int, skipping: bool)
    requires
        0 <= start,
        0 <= i,
        !skipping ==> start <= i,
        !skipping ==> forall|j: int| start <= j < i ==> !sep_start(s, j),
    ensures
        forall|k: int|
            0 <= k < split_from(s, start, i, skipping).len() ==> is_clean_token(
                #[trigger] split_from(s, start, i, skipping)[k],
            ),
    decreases s.len() - i, if skipping { 1int } else { 0int },
{
    if skipping {
        if 0 <= i < s.len() && is_sep_char(s[i]) {
            lemma_split_clean(s, start, i + 1, true);
            assert(split_from(s, start, i, skipping) == split_from(s, start, i + 1, true));
        } else {
            lemma_split_clean(s, i, i, false);
            assert(split_from(s, start, i, skipping) == split_from(s, i, i, false));
        }
    } else if i >= s.len() {
        if start < s.len() {
            assert(split_from(s, start, i, skipping) == seq![s.subrange(start, s.len() as int)]);
            let p = s.subrange(start, s.len() as int);
            assert forall|j: int| 0 <= j < p.len() implies p[j] != '\t' by {
                assert(!sep_start(s, start + j));
            }
            assert forall|j: int| 0 <= j < p.len() - 1 implies !(p[j] == ' ' && #[trigger] p[j
                + 1] == ' ') by {
                assert(!sep_start(s, start + j));
            }
        }
    } else if sep_start(s, i) {
        let head: Seq<Seq<char>> = if i > start {
            seq![s.subrange(start, i)]
        } else {
            Seq::empty()
        };
        if i > start {
            let p = s.subrange(start, i);
            assert forall|j: int| 0 <= j < p.len() implies p[j] != '\t' by {
                assert(!sep_start(s, start + j));
            }
            assert forall|j: int| 0 <= j < p.len() - 1 implies !(p[j] == ' ' && #[trigger] p[j
                + 1] == ' ') by {
                assert(!sep_start(s, start + j));
            }
        }
        lemma_split_clean(s, start, i + 1, true);
        let rest = split_from(s, start, i + 1, true);
        assert(split_from(s, start, i, false) == head + rest);
        assert forall|k: int| 0 <= k < (head + rest).len() implies is_clean_token(
            #[trigger] (head + rest)[k],
        ) by {
            if k >= head.len() {
                assert((head + rest)[k] == rest[k - head.len()]);
            }
        }
    } else {
        lemma_split_clean(s, start, i + 1, false);
        assert(split_from(s, start, i, skipping) == split_from(s, start, i + 1, false));
    }
}

proof fn lemma_split_no_nl(s: Seq<char>, start: int, i: int, skipping: bool)
    requires
        0 <= start,
        0 <= i,
        no_nl(s),
    ensures
        forall|k: int|
            0 <= k < split_from(s, start, i, skipping).len() ==> no_nl(
                #[trigger] split_from(s, start, i, skipping)[k],
            ),
    decreases s.len() - i, if skipping { 1int } else { 0int },
{
    if skipping {
        if 0 <= i < s.len() && is_sep_char(s[i]) {
            lemma_split_no_nl(s, start, i + 1, true);
            assert(split_from(s, start, i, skipping) == split_from(s, start, i + 1, true));
        } else {
            lemma_split_no_nl(s, i, i, false);
            assert(split_from(s, start, i, skipping) == split_from(s, i, i, false));
        }
    } else if i >= s.len() {
        if start < s.len() {
            assert(split_from(s, start, i, skipping) == seq![s.subrange(start, s.len() as int)]);
            let p = s.subrange(start, s.len() as int);
            assert forall|j: int| 0 <= j < p.len() implies #[trigger] p[j] != '\n' by {
                assert(s[start + j] != '\n');
            }
        }
    } else if sep_start(s, i) {
        let head: Seq<Seq<char>> = if i > start {
            seq![s.subrange(start, i)]
        } else {
            Seq::empty()
        };
        if i > start {
            let p = s.subrange(start, i);
            assert forall|j: int| 0 <= j < p.len() implies #[trigger] p[j] != '\n' by {
                assert(s[start + j] != '\n');
            }
        }
        lemma_split_no_nl(s, start, i + 1, true);
        let rest = split_from(s, start, i + 1, true);
        assert(split_from(s, start, i, false) == head + rest);
        assert forall|k: int| 0 <= k < (head + rest).len() implies no_nl(
            #[trigger] (head + rest)[k],
        ) by {
            if k >= head.len() {
                assert((head + rest)[k] == rest[k - head.len()]);
            }
        }
    } else {
        lemma_split_no_nl(s, start, i + 1, false);
        assert(split_from(s, start, i, skipping) == split_from(s, start, i + 1, false));
    }
}

proof fn lemma_split_nonempty(s: Seq<char>, start: int, i: int)
    requires
        0 <= start <= i,
        start < s.len(),
        !is_sep_char(s[start]),
        forall|j: int| start <= j < i ==> !sep_start(s, j),
    ensures
        split_from(s, start, i, false).len() > 0,
        split_from(s, start, i, false)[0].len() > 0,
    decreases s.len() - i,
{
    if i >= s.len() {
    } else if sep_start(s, i) {
        assert(i > start);
        let head: Seq<Seq<char>> = seq![s.subrange(start, i)];
        assert(split_from(s, start, i, false) == head + split_from(s, start, i + 1, true));
    } else {
        lemma_split_nonempty(s, start, i + 1);
    }
}

proof fn lemma_join_no_nl(ps: Seq<Seq<char>>, sep: Seq<char>)
    requires
        no_nl(sep),
        forall|k: int| 0 <= k < ps.len() ==> no_nl(#[trigger] ps[k]),
    ensures
        no_nl(join(ps, sep)),
    decreases ps.len(),
{
    if ps.len() > 1 {
        lemma_join_no_nl(ps.drop_last(), sep);
        let a = join(ps.drop_last(), sep);
        let b = ps.last();
        assert(no_nl(b));
        let r = a + sep + b;
        assert forall|j: int| 0 <= j < r.len() implies #[trigger] r[j] != '\n' by {
            if j < a.len() {
                assert(r[j] == a[j]);
            } else if j < a.len() + sep.len() {
                assert(r[j] == sep[j - a.len()]);
            } else {
                assert(r[j] == b[j - a.len() - sep.len()]);
            }
        }
    } else if ps.len() == 1 {
        assert(no_nl(ps[0]));
    }
}

proof fn lemma_join_first(ps: Seq<Seq<char>>, sep: Seq<char>)
    requires
        ps.len() > 0,
    ensures
        join(ps, sep).len() >= ps[0].len(),
    decreases ps.len(),
{
    if ps.len() > 1 {
        lemma_join_first(ps.drop_last(), sep);
    }
}

proof fn lemma_trim_end_prefix(s: Seq<char>)
    ensures
        trim_end(s).len() <= s.len(),
        forall|j: int| 0 <= j < trim_end(s).len() ==> #[trigger] trim_end(s)[j] == s[j],
    decreases s.len(),
{
    if s.len() > 0 && is_ws(s.last()) {
        lemma_trim_end_prefix(s.drop_last());
    }
}

proof fn lemma_trim_start_suffix(s: Seq<char>)
    ensures
        trim_start(s).len() <= s.len(),
        forall|j: int|
            0 <= j < trim_start(s).len() ==> #[trigger] trim_start(s)[j] == s[j + s.len()
                - trim_start(s).len()],
    decreases s.len(),
{
    if s.len() > 0 && is_ws(s[0]) {
        lemma_trim_start_suffix(s.drop_first());
    }
}

proof fn lemma_strip_end_prefix(s: Seq<char>, c: char)
    ensures
        strip_end_char(s, c).len() <= s.len(),
        forall|j: int|
            0 <= j < strip_end_char(s, c).len() ==> #[trigger] strip_end_char(s, c)[j] == s[j],
    decreases s.len(),
{
    if s.len() > 0 && s.last() == c {
        lemma_strip_end_prefix(s.drop_last(), c);
    }
}

proof fn lemma_strip_start_suffix(s: Seq<char>, c: char)
    ensures
        strip_start_char(s, c).len() <= s.len(),
        forall|j: int|
            0 <= j < strip_start_char(s, c).len() ==> #[trigger] strip_start_char(s, c)[j]
                == s[j + s.len() - strip_start_char(s, c).len()],
    decreases s.len(),
{
    if s.len() > 0 && s[0] == c {
        lemma_strip_start_suffix(s.drop_first(), c);
    }
}

proof fn lemma_trim_no_nl(s: Seq<char>)
    requires
        no_nl(s),
    ensures
        no_nl(trim_end(s)),
        no_nl(trim(s)),
        no_nl(trim_char(s, '*')),
{
    lemma_trim_end_prefix(s);
    let e = trim_end(s);
    assert forall|j: int| 0 <= j < e.len() implies #[trigger] e[j] != '\n' by {
        assert(e[j] == s[j]);
    }
    lemma_trim_start_suffix(e);
    let t = trim_start(e);
    assert forall|j: int| 0 <= j < t.len() implies #[trigger] t[j] != '\n' by {
        assert(t[j] == e[j + e.len() - t.len()]);
    }
    lemma_strip_end_prefix(s, '*');
    let se = strip_end_char(s, '*');
    assert forall|j: int| 0 <= j < se.len() implies #[trigger] se[j] != '\n' by {
        assert(se[j] == s[j]);
    }
    lemma_strip_start_suffix(se, '*');
    let ss = strip_start_char(se, '*');
    assert forall|j: int| 0 <= j < ss.len() implies #[trigger] ss[j] != '\n' by {
        assert(ss[j] == se[j + se.len() - ss.len()]);
    }
}

proof fn lemma_first_nl_props(s: Seq<char>)
    ensures
        first_nl(s) <= s.len(),
        forall|j: int| 0 <= j < first_nl(s) ==> #[trigger] s[j] != '\n',
        first_nl(s) < s.len() ==> s[first_nl(s) as int] == '\n',
    decreases s.len(),
{
    if s.len() > 0 && s[0] != '\n' {
        lemma_first_nl_props(s.drop_first());
        assert forall|j: int| 0 <= j < first_nl(s) implies #[trigger] s[j] != '\n' by {
            if j > 0 {
                assert(s[j] == s.drop_first()[j - 1]);
            }
        }
    }
}

proof fn lemma_lines_no_nl(s: Seq<char>)
    ensures
        forall|k: int| 0 <= k < lines(s).len() ==> no_nl(#[trigger] lines(s)[k]),
    decreases s.len(),
{
    lemma_first_nl_props(s);
    if s.len() == 0 {
    } else if first_nl(s) >= s.len() {
        assert forall|j: int| 0 <= j < s.len() implies #[trigger] s[j] != '\n' by {}
    } else {
        let k = first_nl(s) as int;
        lemma_lines_no_nl(s.skip(k + 1));
        let l = strip_cr(s.take(k));
        assert forall|j: int| 0 <= j < l.len() implies #[trigger] l[j] != '\n' by {
            assert(l[j] == s[j]);
        }
        assert forall|m: int| 0 <= m < lines(s).len() implies no_nl(#[trigger] lines(s)[m]) by {
            if m > 0 {
                assert(lines(s)[m] == lines(s.skip(k + 1))[m - 1]);
            }
        }
    }
}

proof fn lemma_push_nl(out: Seq<char>)
    requires
        no_nl3(out),
        !ends_nl2(out),
    ensures
        no_nl3(out.push('\n')),
        ends_nl(out.push('\n')),
{
    let r = out.push('\n');
    assert forall|j: int| 0 <= j && j + 2 < r.len() implies !(#[trigger] r[j] == '\n' && r[j
        + 1] == '\n' && r[j + 2] == '\n') by {
        if j + 2 < out.len() {
            assert(r[j] == out[j] && r[j + 1] == out[j + 1] && r[j + 2] == out[j + 2]);
        } else {
            assert(r[j] == out[out.len() - 2] && r[j + 1] == out[out.len() - 1]);
        }
    }
}

proof fn lemma_append_line(out: Seq<char>, x: Seq<char>)
    requires
        no_nl3(out),
        no_nl(x),
        x.len() > 0,
    ensures
        no_nl3(out + x + seq!['\n']),
        ends_nl(out + x + seq!['\n']),
        !ends_nl2(out + x + seq!['\n']),
{
    let r = out + x + seq!['\n'];
    assert(r[r.len() - 2] == x[x.len() - 1]);
    assert forall|j: int| 0 <= j && j + 2 < r.len() implies !(#[trigger] r[j] == '\n' && r[j
        + 1] == '\n' && r[j + 2] == '\n') by {
        if j + 2 < out.len() {
            assert(r[j] == out[j] && r[j + 1] == out[j + 1] && r[j + 2] == out[j + 2]);
        } else if j + 2 < out.len() + x.len() {
            assert(r[j + 2] == x[j + 2 - out.len()]);
        } else {
            assert(r[j + 1] == x[x.len() - 1]);
        }
    }
}

proof fn lemma_step_inv(out: Seq<char>, prev: bool, line: Seq<char>)
    requires
        no_nl3(out),
        out.len() == 0 || ends_nl(out),
        no_nl(line),
    ensures
        no_nl3(format_step(out, prev, line).0),
        format_step(out, prev, line).0.len() == 0 || ends_nl(format_step(out, prev, line).0),
{
    let trimmed = trim_end(line);
    lemma_trim_no_nl(line);
    if is_section_header_spec(trimmed) {
        let out1 = if out.len() > 0 && !ends_nl2(out) {
            if !ends_nl(out) {
                out.push('\n').push('\n')
            } else {
                out.push('\n')
            }
        } else {
            out
        };
        if out.len() > 0 && !ends_nl2(out) {
            lemma_push_nl(out);
            if !ends_nl(out) {
                lemma_push_nl(out.push('\n'));
            }
        }
        lemma_trim_no_nl(trimmed);
        lemma_trim_no_nl(trim(trimmed));
        lemma_trim_no_nl(trim_char(trim(trimmed), '*'));
        let h = normalize_header_spec(trimmed);
        let inner = trim(trim_char(trim(trimmed), '*'));
        assert forall|j: int| 0 <= j < h.len() implies #[trigger] h[j] != '\n' by {
            if 4 <= j < 4 + inner.len() {
                assert(h[j] == inner[j - 4]);
            }
        }
        lemma_append_line(out1, h);
    } else if trimmed.len() == 0 {
        if !ends_nl2(out) && out.len() > 0 {
            lemma_push_nl(out);
        }
    } else {
        let parts = split_tokens(trimmed);
        lemma_split_no_nl(trimmed, 0, 0, false);
        lemma_join_no_nl(parts, four_spaces());
        let y = normalize_separators_spec(trimmed);
        if leading_ws(line) == 0 {
            lemma_trim_end_prefix(line);
            lemma_trim_start_is_suffix(line.drop_first());
            assert(trimmed[0] == line[0]);
            assert(!is_ws(line[0]));
            lemma_split_nonempty(trimmed, 0, 0);
            lemma_join_first(parts, four_spaces());
            if prev && !ends_nl2(out) {
                lemma_push_nl(out);
                lemma_append_line(out.push('\n'), y);
            } else {
                lemma_append_line(out, y);
            }
        } else {
            let y = normalize_separators_spec(trim(line));
            lemma_trim_no_nl(line);
            lemma_split_no_nl(trim(line), 0, 0, false);
            lemma_join_no_nl(split_tokens(trim(line)), four_spaces());
            let x = four_spaces() + y;
            assert forall|j: int| 0 <= j < x.len() implies #[trigger] x[j] != '\n' by {
                if j >= 4 {
                    assert(x[j] == y[j - 4]);
                }
            }
            lemma_append_line(out, x);
            assert(out + four_spaces() + y + seq!['\n'] == out + x + seq!['\n']);
        }
    }
}

proof fn lemma_format_lines_inv(ls: Seq<Seq<char>>)
    requires
        forall|k: int| 0 <= k < ls.len() ==> no_nl(#[trigger] ls[k]),
    ensures
        no_nl3(format_lines(ls).0),
        format_lines(ls).0.len() == 0 || ends_nl(format_lines(ls).0),
    decreases ls.len(),
{
    if ls.len() > 0 {
        assert forall|k: int| 0 <= k < ls.drop_last().len() implies no_nl(
            #[trigger] ls.drop_last()[k],
        ) by {
            assert(ls.drop_last()[k] == ls[k]);
        }
        lemma_format_lines_inv(ls.drop_last());
        let prev = format_lines(ls.drop_last());
        assert(no_nl(ls[ls.len() - 1]));
        lemma_step_inv(prev.0, prev.1, ls.last());
    }
}

proof fn lemma_drop_blank_tail(out: Seq<char>)
    requires
        no_nl3(out),
    ensures
        no_nl3(drop_blank_tail(out)),
        !ends_nl2(drop_blank_tail(out)),
    decreases out.len(),
{
    if ends_nl2(out) {
        let d = out.drop_last();
        assert forall|j: int| 0 <= j && j + 2 < d.len() implies !(#[trigger] d[j] == '\n' && d[j
            + 1] == '\n' && d[j + 2] == '\n') by {
            assert(d[j] == out[j] && d[j + 1] == out[j + 1] && d[j + 2] == out[j + 2]);
        }
        lemma_drop_blank_tail(d);
    }
}

proof fn lemma_count_nl_bound(s: Seq<char>)
    ensures
        count_nl(s) <= s.len(),
    decreases s.len(),
{
    if s.len() > 0 {
        lemma_count_nl_bound(s.drop_last());
    }
}

proof fn lemma_trim_start_is_suffix(s: Seq<char>)
    ensures
        trim_start(s).len() <= s.len(),
    decreases s.len(),
{
    if s.len() > 0 && is_ws(s[0]) {
        lemma_trim_start_is_suffix(s.drop_first());
    }
}

/// With no newline before `k` and one at `k`, the first newline is at `k`.
proof fn lemma_first_nl_at(s: Seq<char>, k: int)
    requires
        0 <= k < s.len(),
        s[k] == '\n',
        forall|j: int| 0 <= j < k ==> s[j] != '\n',
    ensures
        first_nl(s) == k,
    decreases k,
{
    if k > 0 {
        lemma_first_nl_at(s.drop_first(), k - 1);
    }
}

/// With no newline at all, `first_nl` is the length.
proof fn lemma_first_nl_none(s: Seq<char>)
    requires
        forall|j: int| 0 <= j < s.len() ==> s[j] != '\n',
    ensures
        first_nl(s) == s.len(),
    decreases s.len(),
{
    if s.len() > 0 {
        lemma_first_nl_none(s.drop_first());
    }
}

// ── Header lines of the output ───────────────────────────────────────────────

/// `o[i..j]` is a whole line of `o`: it starts the text or follows a
/// newline, and the newline at `j` is the first after `i`.
pub open spec fn is_line(o: Seq<char>, i: int, j: int) -> bool {
    &&& 0 <= i <= j < o.len()
    &&& (i == 0 || o[i - 1] == '\n')
    &&& o[j] == '\n'
    &&& forall|k: int| i <= k < j ==> o[k] != '\n'
}

/// Every line of `o` that reads as a section header is written in the
/// canonical form `*** Name ***`.
pub open spec fn canonical_headers(o: Seq<char>) -> bool {
    forall|i: int, j: int|
        #[trigger] is_line(o, i, j) && is_section_header_spec(o.subrange(i, j)) ==> o.subrange(i, j)
            == normalize_header_spec(o.subrange(i, j))
}

proof fn lemma_canon_prefix(o: Seq<char>, n: int)
    requires
        canonical_headers(o),
        0 <= n <= o.len(),
    ensures
        canonical_headers(o.take(n)),
{
    let p = o.take(n);
    assert forall|i: int, j: int| #[trigger] is_line(p, i, j) && is_section_header_spec(p.subrange(i, j)) implies p.subrange(
        i,
        j,
    ) == normalize_header_spec(p.subrange(i, j)) by {
        assert forall|k: int| i <= k < j implies o[k] != '\n' by {
            assert(p[k] == o[k]);
        }
        if i > 0 {
            assert(p[i - 1] == o[i - 1]);
        }
        assert(p[j] == o[j]);
        assert(is_line(o, i, j));
        assert(p.subrange(i, j) =~= o.subrange(i, j));
    }
}

proof fn lemma_canon_append(out: Seq<char>, x: Seq<char>)
    requires
        canonical_headers(out),
        out.len() == 0 || ends_nl(out),
        no_nl(x),
        is_section_header_spec(x) ==> x == normalize_header_spec(x),
    ensures
        canonical_headers(out + x + seq!['\n']),
{
    let o = out + x + seq!['\n'];
    let m = out.len() as int;
    assert forall|i: int, j: int| #[trigger] is_line(o, i, j) && is_section_header_spec(o.subrange(i, j)) implies o.subrange(
        i,
        j,
    ) == normalize_header_spec(o.subrange(i, j)) by {
        if j < m {
            assert forall|k: int| i <= k < j implies out[k] != '\n' by {
                assert(o[k] == out[k]);
                assert(o[k] != '\n');
            }
            if i > 0 {
                assert(o[i - 1] == out[i - 1]);
            }
            assert(o[j] == out[j]);
            assert(is_line(out, i, j));
            assert(o.subrange(i, j) =~= out.subrange(i, j));
        } else {
            if j < m + x.len() {
                assert(o[j] == x[j - m]);
            }
            assert(j == m + x.len());
            if i < m {
                assert(o[m - 1] == out[m - 1]);
                assert(o[m - 1] != '\n');
            } else if i > m {
                assert(o[i - 1] == x[i - 1 - m]);
            }
            assert(i == m);
            assert(o.subrange(i, j) =~= x);
        }
    }
}

proof fn lemma_not_header_empty()
    ensures
        !is_section_header_spec(Seq::<char>::empty()),
{
    assert(trim(Seq::<char>::empty()) =~= Seq::<char>::empty());
}

proof fn lemma_trim_around(n: Seq<char>)
    requires
        n.len() > 0 ==> !is_ws(n[0]) && !is_ws(n.last()),
    ensures
        trim(seq![' '] + n + seq![' ']) == n,
{
    let a = seq![' '] + n + seq![' '];
    let b = seq![' '] + n;
    assert(a.drop_last() =~= b);
    assert(is_ws(' '));
    assert(a.last() == ' ');
    assert(trim_end(a) == trim_end(b));
    if n.len() > 0 {
        assert(b.last() == n.last());
        assert(trim_end(b) == b);
        assert(b[0] == ' ');
        assert(b.drop_first() =~= n);
        assert(trim_start(b) == trim_start(n));
        assert(trim_start(n) == n);
    } else {
        assert(b =~= seq![' ']);
        assert(b.last() == ' ');
        assert(b.drop_last() =~= Seq::<char>::empty());
        assert(trim_end(b) == trim_end(Seq::<char>::empty()));
        assert(trim_end(Seq::<char>::empty()) =~= Seq::<char>::empty());
        assert(trim_start(Seq::<char>::empty()) =~= n);
    }
}

/// A header written in the canonical form is its own canonical form.
proof fn lemma_canonical_fixpoint(line: Seq<char>)
    requires
        is_section_header_spec(trim_end(line)),
    ensures
        normalize_header_spec(trim_end(line)) == normalize_header_spec(normalize_header_spec(trim_end(line))),
{
    lemma_header_form(Seq::empty(), false, line);
    let n = header_name(line);
    let h = normalize_header_spec(trim_end(line));
    assert(h == three_stars().push(' ') + n + seq![' '] + three_stars());
    assert(!is_ws('*'));
    assert(h[0] == '*');
    assert(h.last() == '*');
    assert(trim_end(h) == h);
    assert(trim_start(h) == h);
    assert(trim(h) == h);
    let p = three_stars().push(' ') + n;
    let h1 = p + seq![' ', '*', '*'];
    let h2 = p + seq![' ', '*'];
    let q = p + seq![' '];
    assert(h.drop_last() =~= h1);
    assert(h1.drop_last() =~= h2);
    assert(h2.drop_last() =~= q);
    assert(h1.last() == '*' && h2.last() == '*' && q.last() == ' ');
    assert(strip_end_char(h, '*') == strip_end_char(h1, '*'));
    assert(strip_end_char(h1, '*') == strip_end_char(h2, '*'));
    assert(strip_end_char(h2, '*') == strip_end_char(q, '*'));
    assert(strip_end_char(q, '*') == q);
    let q1 = seq!['*', '*', ' '] + n + seq![' '];
    let q2 = seq!['*', ' '] + n + seq![' '];
    let q3 = seq![' '] + n + seq![' '];
    assert(q =~= seq!['*', '*', '*', ' '] + n + seq![' ']);
    assert(q.drop_first() =~= q1);
    assert(q1.drop_first() =~= q2);
    assert(q2.drop_first() =~= q3);
    assert(q[0] == '*' && q1[0] == '*' && q2[0] == '*' && q3[0] == ' ');
    assert(strip_start_char(q, '*') == strip_start_char(q1, '*'));
    assert(strip_start_char(q1, '*') == strip_start_char(q2, '*'));
    assert(strip_start_char(q2, '*') == strip_start_char(q3, '*'));
    assert(strip_start_char(q3, '*') == q3);
    assert(trim_char(h, '*') == q3);
    lemma_trim_around(n);
    assert(trim(trim_char(trim(h), '*')) == n);
}

proof fn lemma_sub_contains(s: Seq<char>, a: int, b: int, p: Seq<char>)
    requires
        0 <= a <= b <= s.len(),
        contains_seq(s.subrange(a, b), p),
    ensures
        contains_seq(s, p),
{
    let t = s.subrange(a, b);
    let m = choose|m: int| 0 <= m <= t.len() - p.len() && #[trigger] t.subrange(m, m + p.len()) == p;
    assert(s.subrange(a + m, a + m + p.len()) =~= t.subrange(m, m + p.len()));
}

proof fn lemma_split_contains(s: Seq<char>, start: int, i: int, skipping: bool)
    requires
        0 <= start,
        0 <= i,
        !skipping ==> start <= i,
    ensures
        forall|k: int|
            0 <= k < split_from(s, start, i, skipping).len() && contains_seq(
                #[trigger] split_from(s, start, i, skipping)[k],
                three_stars(),
            ) ==> contains_seq(s, three_stars()),
    decreases s.len() - i, if skipping { 1int } else { 0int },
{
    if skipping {
        if 0 <= i < s.len() && is_sep_char(s[i]) {
            lemma_split_contains(s, start, i + 1, true);
            assert(split_from(s, start, i, skipping) == split_from(s, start, i + 1, true));
        } else {
            lemma_split_contains(s, i, i, false);
            assert(split_from(s, start, i, skipping) == split_from(s, i, i, false));
        }
    } else if i >= s.len() {
        if start < s.len() {
            assert(split_from(s, start, i, skipping) == seq![s.subrange(start, s.len() as int)]);
            assert forall|k: int|
                0 <= k < split_from(s, start, i, skipping).len() && contains_seq(
                    #[trigger] split_from(s, start, i, skipping)[k],
                    three_stars(),
                ) implies contains_seq(s, three_stars()) by {
                lemma_sub_contains(s, start, s.len() as int, three_stars());
            }
        }
    } else if sep_start(s, i) {
        let head: Seq<Seq<char>> = if i > start {
            seq![s.subrange(start, i)]
        } else {
            Seq::empty()
        };
        lemma_split_contains(s, start, i + 1, true);
        let rest = split_from(s, start, i + 1, true);
        assert(split_from(s, start, i, false) == head + rest);
        assert forall|k: int|
            0 <= k < (head + rest).len() && contains_seq(#[trigger] (head + rest)[k], three_stars()) implies contains_seq(
            s,
            three_stars(),
        ) by {
            if k >= head.len() {
                assert((head + rest)[k] == rest[k - head.len()]);
            } else {
                lemma_sub_contains(s, start, i, three_stars());
            }
        }
    } else {
        lemma_split_contains(s, start, i + 1, false);
        assert(split_from(s, start, i, skipping) == split_from(s, start, i + 1, false));
    }
}

proof fn lemma_join_contains(ps: Seq<Seq<char>>)
    requires
        contains_seq(join(ps, four_spaces()), three_stars()),
    ensures
        exists|k: int| 0 <= k < ps.len() && contains_seq(#[trigger] ps[k], three_stars()),
    decreases ps.len(),
{
    let r = join(ps, four_spaces());
    let m = choose|m: int| 0 <= m <= r.len() - 3 && #[trigger] r.subrange(m, m + 3) == three_stars();
    assert(r.subrange(m, m + 3)[0] == '*' && r.subrange(m, m + 3)[1] == '*' && r.subrange(m, m + 3)[2] == '*');
    if ps.len() == 0 {
        assert(r.len() == 0);
    } else if ps.len() == 1 {
        assert(contains_seq(ps[0], three_stars()));
    } else {
        let a = join(ps.drop_last(), four_spaces());
        let b = ps.last();
        assert(r == a + four_spaces() + b);
        if m + 3 <= a.len() {
            assert(a.subrange(m, m + 3) =~= r.subrange(m, m + 3));
            lemma_join_contains(ps.drop_last());
            let k = choose|k: int| 0 <= k < ps.drop_last().len() && contains_seq(#[trigger] ps.drop_last()[k], three_stars());
            assert(ps.drop_last()[k] == ps[k]);
        } else if m >= a.len() + 4 {
            let m2 = m - a.len() - 4;
            assert(b.subrange(m2, m2 + 3) =~= r.subrange(m, m + 3));
            assert(contains_seq(ps[ps.len() - 1], three_stars()));
        } else if m < a.len() {
            assert(r[a.len() as int] == ' ');
            assert(r.subrange(m, m + 3)[a.len() - m] == r[a.len() as int]);
        } else {
            assert(r[m] == ' ');
            assert(r.subrange(m, m + 3)[0] == r[m]);
        }
    }
}

proof fn lemma_split_first_char(s: Seq<char>, start: int, i: int)
    requires
        0 <= start <= i,
        start < s.len(),
        !is_sep_char(s[start]),
        forall|j: int| start <= j < i ==> !sep_start(s, j),
    ensures
        split_from(s, start, i, false).len() > 0,
        split_from(s, start, i, false)[0].len() > 0,
        split_from(s, start, i, false)[0][0] == s[start],
    decreases s.len() - i,
{
    if i >= s.len() {
    } else if sep_start(s, i) {
        assert(i > start);
        let head: Seq<Seq<char>> = seq![s.subrange(start, i)];
        assert(split_from(s, start, i, false) == head + split_from(s, start, i + 1, true));
    } else {
        lemma_split_first_char(s, start, i + 1);
    }
}

proof fn lemma_join_first_char(ps: Seq<Seq<char>>, sep: Seq<char>)
    requires
        ps.len() > 0,
        ps[0].len() > 0,
    ensures
        join(ps, sep).len() > 0,
        join(ps, sep)[0] == ps[0][0],
    decreases ps.len(),
{
    if ps.len() > 1 {
        assert(ps.drop_last()[0] == ps[0]);
        lemma_join_first_char(ps.drop_last(), sep);
    }
}

proof fn lemma_trim_end_first(y: Seq<char>)
    requires
        y.len() > 0,
        !is_ws(y[0]),
    ensures
        trim_end(y).len() > 0,
        trim_end(y)[0] == y[0],
    decreases y.len(),
{
    if is_ws(y.last()) {
        assert(y.len() > 1);
        assert(y.drop_last()[0] == y[0]);
        lemma_trim_end_first(y.drop_last());
    }
}

/// Rejoining the tokens of a trimmed line never makes a section header of
/// a line that was not one.
proof fn lemma_separators_keep_non_header(s: Seq<char>)
    requires
        s.len() > 0,
        trim(s) == s,
    ensures
        is_section_header_spec(normalize_separators_spec(s)) ==> is_section_header_spec(s),
{
    if is_section_header_spec(normalize_separators_spec(s)) {
        let y = normalize_separators_spec(s);
        let ps = split_tokens(s);
        lemma_trim_start_first(trim_end(s));
        assert(!is_ws(s[0]));
        assert(is_ws(' ') && is_ws('\t'));
        assert(!is_sep_char(s[0]));
        lemma_split_first_char(s, 0, 0);
        lemma_join_first_char(ps, four_spaces());
        assert(y[0] == s[0]);
        lemma_trim_end_first(y);
        lemma_trim_end_prefix(y);
        let e = trim_end(y);
        assert(trim_start(e) == e);
        let t = trim(y);
        assert(t == e);
        assert(is_section_header_spec(y));
        assert(t[0] == '*' && contains_seq(t, three_stars())) by {
            if starts_with(t, three_stars()) {
                assert(t.take(3) == three_stars());
                assert(t.take(3)[0] == t[0]);
                assert(t.subrange(0, 0 + three_stars().len() as int) =~= t.take(3));
            } else if starts_with(t, three_stars().push(' ')) {
                assert(t.take(4) == three_stars().push(' '));
                assert(t.take(4)[0] == t[0]);
                assert(t.subrange(0, 0 + three_stars().len() as int) =~= three_stars()) by {
                    assert forall|q: int| 0 <= q < 3 implies t.subrange(0, 3)[q] == three_stars()[q] by {
                        assert(t.take(4)[q] == t[q]);
                        assert(three_stars().push(' ')[q] == three_stars()[q]);
                    }
                }
            } else {
                assert(starts_with(t, seq!['*']));
                assert(t.take(1) == seq!['*']);
                assert(t.take(1)[0] == t[0]);
            }
        }
        let m = choose|m: int| 0 <= m <= t.len() - 3 && #[trigger] t.subrange(m, m + 3) == three_stars();
        assert(y.subrange(m, m + 3) =~= t.subrange(m, m + 3));
        assert(contains_seq(y, three_stars()));
        lemma_join_contains(ps);
        let k = choose|k: int| 0 <= k < ps.len() && contains_seq(#[trigger] ps[k], three_stars());
        lemma_split_contains(s, 0, 0, false);
        assert(contains_seq(s, three_stars()));
        assert(s.take(1) =~= seq!['*']);
        assert(starts_with(s, seq!['*']));
    }
}

proof fn lemma_trim_end_idem(x: Seq<char>)
    ensures
        trim_end(trim_end(x)) == trim_end(x),
{
    lemma_trim_end_last(x);
}

proof fn lemma_trim_idem(x: Seq<char>)
    ensures
        trim(trim(x)) == trim(x),
{
    let e = trim_end(x);
    let y = trim(x);
    lemma_trim_end_last(x);
    lemma_trim_start_first(e);
    if y.len() > 0 {
        assert(e.len() > 0) by {
            lemma_trim_start_is_suffix(e);
        }
        lemma_trim_start_keeps_last(e);
        assert(trim_end(y) == y);
        assert(trim_start(y) == y);
    } else {
        assert(trim_end(y) =~= y);
    }
}

proof fn lemma_trim_end_concat(a: Seq<char>, b: Seq<char>)
    requires
        trim_end(b).len() > 0,
    ensures
        trim_end(a + b) == a + trim_end(b),
    decreases b.len(),
{
    if b.len() > 0 && is_ws(b.last()) {
        assert((a + b).last() == b.last());
        assert((a + b).drop_last() =~= a + b.drop_last());
        lemma_trim_end_concat(a, b.drop_last());
    } else {
        if b.len() > 0 {
            assert((a + b).last() == b.last());
        }
    }
}

proof fn lemma_trim_indent(y: Seq<char>)
    requires
        y.len() > 0,
        !is_ws(y[0]),
    ensures
        trim(four_spaces() + y) == trim(y),
{
    lemma_trim_end_first(y);
    let e = trim_end(y);
    lemma_trim_end_concat(four_spaces(), y);
    assert(trim_end(four_spaces() + y) == four_spaces() + e);
    assert(is_ws(' '));
    let z0 = four_spaces() + e;
    let z1 = seq![' ', ' ', ' '] + e;
    let z2 = seq![' ', ' '] + e;
    let z3 = seq![' '] + e;
    assert(z0.drop_first() =~= z1);
    assert(z1.drop_first() =~= z2);
    assert(z2.drop_first() =~= z3);
    assert(z3.drop_first() =~= e);
    assert(z0[0] == ' ' && z1[0] == ' ' && z2[0] == ' ' && z3[0] == ' ');
    assert(trim_start(z0) == trim_start(z1));
    assert(trim_start(z1) == trim_start(z2));
    assert(trim_start(z2) == trim_start(z3));
    assert(trim_start(z3) == trim_start(e));
    assert(trim_start(e) == e);
}

proof fn lemma_tokens_first(s: Seq<char>)
    requires
        s.len() > 0,
        !is_ws(s[0]),
    ensures
        normalize_separators_spec(s).len() > 0,
        normalize_separators_spec(s)[0] == s[0],
{
    assert(is_ws(' ') && is_ws('\t'));
    lemma_split_first_char(s, 0, 0);
    lemma_join_first_char(split_tokens(s), four_spaces());
}

proof fn lemma_step_canon(out: Seq<char>, prev: bool, line: Seq<char>)
    requires
        canonical_headers(out),
        out.len() == 0 || ends_nl(out),
        no_nl(line),
    ensures
        canonical_headers(format_step(out, prev, line).0),
{
    let trimmed = trim_end(line);
    let empty = Seq::<char>::empty();
    lemma_trim_no_nl(line);
    lemma_not_header_empty();
    assert(no_nl(empty));
    assert(out + empty + seq!['\n'] =~= out.push('\n'));
    if is_section_header_spec(trimmed) {
        let out1 = if out.len() > 0 && !ends_nl2(out) {
            out.push('\n')
        } else {
            out
        };
        if out.len() > 0 && !ends_nl2(out) {
            lemma_canon_append(out, empty);
        }
        lemma_trim_no_nl(trimmed);
        lemma_trim_no_nl(trim(trimmed));
        lemma_trim_no_nl(trim_char(trim(trimmed), '*'));
        let h = normalize_header_spec(trimmed);
        let inner = trim(trim_char(trim(trimmed), '*'));
        assert forall|j: int| 0 <= j < h.len() implies #[trigger] h[j] != '\n' by {
            if 4 <= j < 4 + inner.len() {
                assert(h[j] == inner[j - 4]);
            }
        }
        lemma_canonical_fixpoint(line);
        lemma_canon_append(out1, h);
    } else if trimmed.len() == 0 {
        if !ends_nl2(out) && out.len() > 0 {
            lemma_canon_append(out, empty);
        }
    } else {
        lemma_trim_end_last(line);
        if leading_ws(line) == 0 {
            let y = normalize_separators_spec(trimmed);
            lemma_split_no_nl(trimmed, 0, 0, false);
            lemma_join_no_nl(split_tokens(trimmed), four_spaces());
            lemma_trim_end_prefix(line);
            lemma_trim_start_is_suffix(line.drop_first());
            assert(trimmed[0] == line[0]);
            assert(!is_ws(line[0]));
            lemma_trim_end_idem(line);
            assert(trim_start(trimmed) == trimmed);
            assert(trim(trimmed) == trimmed);
            lemma_separators_keep_non_header(trimmed);
            let out1 = if prev && !ends_nl2(out) {
                out.push('\n')
            } else {
                out
            };
            if prev && !ends_nl2(out) {
                lemma_canon_append(out, empty);
            }
            lemma_canon_append(out1, y);
        } else {
            let s2 = trim(line);
            lemma_trim_start_keeps_last(trimmed);
            lemma_trim_start_first(trimmed);
            lemma_trim_idem(line);
            lemma_trim_end_idem(line);
            assert(trim(trimmed) == s2);
            lemma_separators_keep_non_header(s2);
            let y = normalize_separators_spec(s2);
            lemma_trim_no_nl(line);
            lemma_split_no_nl(s2, 0, 0, false);
            lemma_join_no_nl(split_tokens(s2), four_spaces());
            lemma_tokens_first(s2);
            lemma_trim_indent(y);
            let x = four_spaces() + y;
            assert(trim(x) == trim(y));
            assert(!is_section_header_spec(x));
            assert forall|j: int| 0 <= j < x.len() implies #[trigger] x[j] != '\n' by {
                if j >= 4 {
                    assert(x[j] == y[j - 4]);
                }
            }
            lemma_canon_append(out, x);
            assert(out + four_spaces() + y + seq!['\n'] == out + x + seq!['\n']);
        }
    }
}

proof fn lemma_format_lines_canon(ls: Seq<Seq<char>>)
    requires
        forall|k: int| 0 <= k < ls.len() ==> no_nl(#[trigger] ls[k]),
    ensures
        canonical_headers(format_lines(ls).0),
    decreases ls.len(),
{
    if ls.len() > 0 {
        assert forall|k: int| 0 <= k < ls.drop_last().len() implies no_nl(#[trigger] ls.drop_last()[k]) by {
            assert(ls.drop_last()[k] == ls[k]);
        }
        lemma_format_lines_canon(ls.drop_last());
        lemma_format_lines_inv(ls.drop_last());
        let prev = format_lines(ls.drop_last());
        assert(no_nl(ls[ls.len() - 1]));
        lemma_step_canon(prev.0, prev.1, ls.last());
    } else {
        assert forall|i: int, j: int| #[trigger] is_line(format_lines(ls).0, i, j) implies false by {}
    }
}

proof fn lemma_drop_blank_tail_prefix(out: Seq<char>)
    ensures
        drop_blank_tail(out).len() <= out.len(),
        drop_blank_tail(out) == out.take(drop_blank_tail(out).len() as int),
        ends_nl(out) ==> ends_nl(drop_blank_tail(out)),
    decreases out.len(),
{
    if ends_nl2(out) {
        lemma_drop_blank_tail_prefix(out.drop_last());
        let d = drop_blank_tail(out.drop_last());
        assert(out.drop_last().take(d.len() as int) =~= out.take(d.len() as int));
    } else {
        assert(out.take(out.len() as int) =~= out);
    }
}

/// Every line of the formatted text that reads as a section header is
/// written in the canonical form `*** Name ***`: `*** `, the name without
/// surrounding whitespace or stars, ` ***`.
pub proof fn lemma_format_rf_headers(text: Seq<char>)
    ensures
        canonical_headers(format_rf_spec(text)),
{
    let ls = lines(text);
    lemma_lines_no_nl(text);
    lemma_format_lines_canon(ls);
    lemma_format_lines_inv(ls);
    let out = format_lines(ls).0;
    lemma_drop_blank_tail_prefix(out);
    let o = drop_blank_tail(out);
    lemma_canon_prefix(out, o.len() as int);
    if !ends_nl(o) {
        if out.len() > 0 {
            assert(ends_nl(out));
        }
        assert(o.len() == 0);
        lemma_not_header_empty();
        assert(no_nl(Seq::<char>::empty()));
        lemma_canon_append(o, Seq::<char>::empty());
        assert(o + Seq::<char>::empty() + seq!['\n'] =~= o.push('\n'));
    }
}

} // verus!
