//! Text document with incremental edit support.
//!
//! The content lives in a `ropey::Rope`.  Positions follow the Language
//! Server Protocol: a line index and a column counted in UTF-16 code units;
//! offsets count chars.
use vstd::prelude::*;

use ropey::Rope;

use crate::lsp::{pos_lt, Position, PositionExt, Range, TextDocumentContentChangeEvent};
use crate::rope::{
    lemma_line_start_from_bounds, line_start_from, lemma_line_of_mono, lemma_line_start_bounds, lemma_line_start_of_line, line_count, line_of,
    line_start, rope_char, rope_char_to_line, rope_from_str, rope_insert, rope_len_chars,
    rope_len_lines, rope_line_to_char, rope_remove, rope_slice_string, rope_text,
    rope_to_string,
};
use crate::text::{char_utf16_len, utf16_len, utf16_len_seq};
use crate::uri::{normalized_text, url_parse, Uri, UriError};

verus! {

/// Error for invalid document operations.
#[derive(Debug)]
pub enum TextDocumentError {
    /// The range's start comes after its end.
    InvalidRange(Position, Position),
    /// The document's URI is invalid.
    Uri(UriError),
}

/// Error type for operations on the registry of open documents.
#[derive(Debug)]
pub enum DocumentsManagerError {
    /// No open document has this URI.
    NotFound(String),
    /// The URI is invalid.
    Uri(UriError),
    /// The document refused the operation.
    TextDocument(TextDocumentError),
}

/// How many chars of `line` fit in `col` UTF-16 code units: a column that
/// falls inside a char's encoding stops at the start of that char.
pub open spec fn utf16_prefix_chars(line: Seq<char>, col: nat) -> nat
    decreases line.len(),
{
    if line.len() == 0 {
        0
    } else if utf16_len(line[0]) > col {
        0
    } else {
        1 + utf16_prefix_chars(line.drop_first(), (col - utf16_len(line[0])) as nat)
    }
}

/// The chars of line `k`, with the break that ends it.
pub open spec fn line_text(s: Seq<char>, k: nat) -> Seq<char> {
    s.subrange(line_start(s, k), line_start(s, k + 1))
}

/// A line index moved onto the last line when it lies beyond it.
pub open spec fn clamp_line(s: Seq<char>, line: nat) -> nat {
    if line < line_count(s) {
        line
    } else {
        (line_count(s) - 1) as nat
    }
}

/// The char offset that a position denotes in `s`.
pub open spec fn offset_of(s: Seq<char>, p: Position) -> int {
    let k = clamp_line(s, p.line as nat);
    line_start(s, k) + utf16_prefix_chars(line_text(s, k), p.character as nat)
}

/// The line of the position that char offset `o` denotes.
pub open spec fn position_line(s: Seq<char>, o: nat) -> nat {
    line_of(s, if o <= s.len() {
        o as int
    } else {
        s.len() as int
    })
}

/// The UTF-16 column of the position that char offset `o` denotes.
pub open spec fn position_column(s: Seq<char>, o: nat) -> nat {
    let k = position_line(s, o);
    let end = if o <= line_start(s, k + 1) {
        o as int
    } else {
        line_start(s, k + 1)
    };
    utf16_len_seq(s.subrange(line_start(s, k), end))
}

/// The text after applying one change, or `None` when its range is
/// inverted.
pub open spec fn change_result(s: Seq<char>, ch: TextDocumentContentChangeEvent) -> Option<Seq<char>> {
    match ch.range {
        None => Some(ch.text@),
        Some(r) => if pos_lt(r.end, r.start) {
            None
        } else {
            let a = offset_of(s, r.start);
            let b = offset_of(s, r.end);
            Some(s.take(a) + ch.text@ + s.skip(b))
        },
    }
}

/// A change that can be applied to `s`: where its range is in order, the
/// offsets it denotes are in order too.
pub open spec fn change_fits(s: Seq<char>, ch: TextDocumentContentChangeEvent) -> bool {
    match ch.range {
        Some(r) => !pos_lt(r.end, r.start) ==> offset_of(s, r.start) <= offset_of(s, r.end),
        None => true,
    }
}

/// The text after applying the changes in order up to the first one with
/// an inverted range, and whether all of them applied.
pub open spec fn changes_result(s: Seq<char>, cs: Seq<TextDocumentContentChangeEvent>) -> (Seq<char>, bool)
    decreases cs.len(),
{
    if cs.len() == 0 {
        (s, true)
    } else {
        match change_result(s, cs[0]) {
            None => (s, false),
            Some(t) => changes_result(t, cs.drop_first()),
        }
    }
}

/// The range of the first change that is refused when the changes are
/// applied in order, or `None` when all of them apply.
pub open spec fn first_refused(s: Seq<char>, cs: Seq<TextDocumentContentChangeEvent>) -> Option<Range>
    decreases cs.len(),
{
    if cs.len() == 0 {
        None
    } else {
        match change_result(s, cs[0]) {
            None => cs[0].range,
            Some(t) => first_refused(t, cs.drop_first()),
        }
    }
}

/// Every change fits the text it is applied to.
pub open spec fn changes_fit(s: Seq<char>, cs: Seq<TextDocumentContentChangeEvent>) -> bool
    decreases cs.len(),
{
    cs.len() > 0 ==> change_fits(s, cs[0]) && match change_result(s, cs[0]) {
        None => true,
        Some(t) => changes_fit(t, cs.drop_first()),
    }
}

/// The char offset of an LSP position, clamped to the document's lines.
fn utf16_to_utf8_char_offset(rope: &Rope, line: u32, utf16_col: u32) -> (r: usize)
    ensures
        r == offset_of(rope_text(*rope), Position { line, character: utf16_col }),
        r <= rope_text(*rope).len(),
{
    let ghost s = rope_text(*rope);
    let n_lines = rope_len_lines(rope);
    let line_idx: usize = if (line as usize) < n_lines {
        line as usize
    } else {
        n_lines - 1
    };
    assert(line_idx == clamp_line(s, line as nat));
    proof {
        lemma_line_start_bounds(s, line_idx as nat);
    }
    let start = rope_line_to_char(rope, line_idx);
    let end = rope_line_to_char(rope, line_idx + 1);
    let ghost lt = line_text(s, line_idx as nat);
    let mut utf16_offset: u32 = 0;
    let mut i = start;
    let mut go = true;
    assert(lt.skip(0) == lt);
    while go && i < end
        invariant
            s == rope_text(*rope),
            start <= i <= end <= s.len(),
            lt == s.subrange(start as int, end as int),
            utf16_offset <= utf16_col,
            utf16_prefix_chars(lt, utf16_col as nat) == (i - start) + utf16_prefix_chars(
                lt.skip(i - start),
                (utf16_col - utf16_offset) as nat,
            ),
            !go ==> utf16_prefix_chars(lt.skip(i - start), (utf16_col - utf16_offset) as nat)
                == 0,
        decreases (end - i) + (if go { 1int } else { 0int }),
    {
        let ch = rope_char(rope, i);
        let l = char_utf16_len(ch);
        let ghost rest = lt.skip(i - start);
        assert(rest[0] == ch);
        if utf16_offset as u64 + l as u64 > utf16_col as u64 {
            go = false;
        } else {
            assert(rest.drop_first() == lt.skip(i + 1 - start));
            utf16_offset += l;
            i += 1;
        }
    }
    if go {
        assert(lt.skip(i - start).len() == 0);
    }
    i
}

/// A text document stored as a rope, with LSP-compatible incremental edits.
#[derive(Debug)]
pub struct TextDocument {
    /// The normalized document URI.
    pub uri: Uri,
    /// The language identifier (e.g. `"robotframework"`).
    pub language_id: Option<String>,
    version: Option<i32>,
    rope: Rope,
    /// Whether the document is currently open in an editor.
    pub opened_in_editor: bool,
}

impl TextDocument {
    /// The document's text.
    pub closed spec fn text_spec(&self) -> Seq<char> {
        rope_text(self.rope)
    }

    /// The document's URI.
    pub closed spec fn uri_spec(&self) -> Uri {
        self.uri
    }

    /// The document's language identifier.
    pub closed spec fn language_spec(&self) -> Option<String> {
        self.language_id
    }

    /// Whether the document is open in an editor.
    pub closed spec fn opened_spec(&self) -> bool {
        self.opened_in_editor
    }

    /// The document's version.
    pub closed spec fn version_spec(&self) -> Option<i32> {
        self.version
    }

    /// Create a new text document; its URI is parsed and normalized.
    pub fn new(document_uri: &str, text: &str, language_id: Option<String>, version: Option<i32>) -> (r:
        Result<Self, TextDocumentError>)
        ensures
            match url_parse(document_uri@) {
                Some(t) => r matches Ok(d) && d.uri_spec()@ == normalized_text(t) && d.language_spec()
                    == language_id && d.text_spec() == text@ && d.version_spec() == version
                    && !d.opened_spec(),
                None => r matches Err(TextDocumentError::Uri(UriError::Parse(_))),
            },
    {
        let uri = match Uri::parse(document_uri) {
            Ok(u) => u.normalized(),
            Err(e) => return Err(TextDocumentError::Uri(e)),
        };
        Ok(TextDocument { uri, language_id, version, rope: rope_from_str(text), opened_in_editor: false })
    }

    /// Return the current version number.
    pub fn version(&self) -> (v: Option<i32>)
        ensures
            v == self.version_spec(),
    {
        self.version
    }

    /// Set the version number.
    pub fn set_version(&mut self, v: Option<i32>)
        ensures
            final(self).version_spec() == v,
            final(self).text_spec() == old(self).text_spec(),
            final(self).uri_spec() == old(self).uri_spec(),
    {
        self.version = v;
    }

    /// Return the full document text as a `String`.
    pub fn text(&self) -> (t: String)
        ensures
            t@ == self.text_spec(),
    {
        rope_to_string(&self.rope)
    }

    /// Return the number of lines: one more than the line breaks.
    pub fn line_count(&self) -> (n: usize)
        ensures
            n == line_count(self.text_spec()),
    {
        rope_len_lines(&self.rope)
    }

    /// Apply a full-document content replacement.
    pub fn apply_full_change(&mut self, version: Option<i32>, new_text: &str)
        ensures
            final(self).text_spec() == new_text@,
            final(self).version_spec() == (if version is Some {
                version
            } else {
                old(self).version_spec()
            }),
            final(self).uri_spec() == old(self).uri_spec(),
    {
        if let Some(v) = version {
            self.version = Some(v);
        }
        self.rope = rope_from_str(new_text);
    }

    fn replace_range(&mut self, range: Range, text: &str)
        requires
            !pos_lt(range.end, range.start),
            offset_of(old(self).text_spec(), range.start) <= offset_of(
                old(self).text_spec(),
                range.end,
            ),
        ensures
            final(self).text_spec() == ({
                let s = old(self).text_spec();
                s.take(offset_of(s, range.start)) + text@ + s.skip(offset_of(s, range.end))
            }),
            final(self).version_spec() == old(self).version_spec(),
            final(self).uri_spec() == old(self).uri_spec(),
    {
        let ghost s = self.text_spec();
        let start = utf16_to_utf8_char_offset(&self.rope, range.start.line, range.start.character);
        let end = utf16_to_utf8_char_offset(&self.rope, range.end.line, range.end.character);
        rope_remove(&mut self.rope, start, end);
        let ghost mid = rope_text(self.rope);
        assert(mid.len() == s.len() - (end - start));
        rope_insert(&mut self.rope, start, text);
        assert(mid.take(start as int) == s.take(start as int));
        assert(mid.skip(start as int) == s.skip(end as int));
    }

    /// Apply a single incremental change; one without a range replaces the
    /// whole document.  A range whose start comes after its end is refused
    /// and leaves the text as it was.  The version is set first, either way.
    pub fn apply_change(&mut self, version: Option<i32>, change: &TextDocumentContentChangeEvent) -> (r:
        Result<(), TextDocumentError>)
        requires
            change_fits(old(self).text_spec(), *change),
        ensures
            final(self).version_spec() == (if version is Some {
                version
            } else {
                old(self).version_spec()
            }),
            final(self).uri_spec() == old(self).uri_spec(),
            match change_result(old(self).text_spec(), *change) {
                Some(t) => r is Ok && final(self).text_spec() == t,
                None => final(self).text_spec() == old(self).text_spec() && r == Err::<
                    (),
                    TextDocumentError,
                >(TextDocumentError::InvalidRange(change.range->0.start, change.range->0.end)),
            },
    {
        if let Some(v) = version {
            self.version = Some(v);
        }
        match change.range {
            None => {
                self.rope = rope_from_str(change.text.as_str());
            },
            Some(range) => {
                if range.start.is_after(&range.end) {
                    return Err(TextDocumentError::InvalidRange(range.start, range.end));
                }
                self.replace_range(range, change.text.as_str());
            },
        }
        Ok(())
    }

    /// Whether `change` can be applied to the document as it is now: where
    /// its range is in order, the offsets it denotes are in order too.
    pub fn change_fits_now(&self, change: &TextDocumentContentChangeEvent) -> (r: bool)
        ensures
            r == change_fits(self.text_spec(), *change),
    {
        match change.range {
            None => true,
            Some(range) => {
                if range.start.is_after(&range.end) {
                    true
                } else {
                    let a = utf16_to_utf8_char_offset(&self.rope, range.start.line, range.start.character);
                    let b = utf16_to_utf8_char_offset(&self.rope, range.end.line, range.end.character);
                    a <= b
                }
            },
        }
    }

    /// Apply a list of incremental changes in order.  The first refused
    /// change stops the list; the document version is only updated if all
    /// changes are applied.
    pub fn apply_changes(&mut self, version: Option<i32>, changes: &[TextDocumentContentChangeEvent]) -> (r:
        Result<(), TextDocumentError>)
        requires
            changes_fit(old(self).text_spec(), changes@),
        ensures
            final(self).text_spec() == changes_result(old(self).text_spec(), changes@).0,
            r is Ok <==> changes_result(old(self).text_spec(), changes@).1,
            match first_refused(old(self).text_spec(), changes@) {
                None => r is Ok,
                Some(rg) => r == Err::<(), TextDocumentError>(TextDocumentError::InvalidRange(rg.start, rg.end)),
            },
            final(self).version_spec() == (if r is Ok && version is Some {
                version
            } else {
                old(self).version_spec()
            }),
            final(self).uri_spec() == old(self).uri_spec(),
    {
        let ghost s0 = self.text_spec();
        let mut i: usize = 0;
        assert(changes@.skip(0) == changes@);
        while i < changes.len()
            invariant
                i <= changes.len(),
                s0 == old(self).text_spec(),
                changes_result(s0, changes@) == changes_result(self.text_spec(), changes@.skip(i as int)),
                first_refused(s0, changes@) == first_refused(self.text_spec(), changes@.skip(i as int)),
                changes_fit(self.text_spec(), changes@.skip(i as int)),
                self.version_spec() == old(self).version_spec(),
                self.uri_spec() == old(self).uri_spec(),
            decreases changes.len() - i,
        {
            let ghost rest = changes@.skip(i as int);
            assert(rest[0] == changes@[i as int]);
            assert(rest.drop_first() == changes@.skip(i + 1));
            let ghost before = self.text_spec();
            match self.apply_change(None, &changes[i]) {
                Ok(()) => {},
                Err(e) => {
                    assert(changes_result(before, rest) == (before, false));
                    assert(first_refused(before, rest) == changes@[i as int].range);
                    assert(self.text_spec() == before);
                    return Err(e);
                },
            }
            i += 1;
        }
        assert(changes@.skip(i as int).len() == 0);
        if let Some(v) = version {
            self.version = Some(v);
        }
        Ok(())
    }

    /// Convert an LSP UTF-16 position to a char offset.
    pub fn offset_at(&self, position: Position) -> (o: usize)
        ensures
            o == offset_of(self.text_spec(), position),
            o <= self.text_spec().len(),
    {
        utf16_to_utf8_char_offset(&self.rope, position.line, position.character)
    }

    /// Convert a char offset to an LSP UTF-16 position; an offset past the
    /// end denotes the end of the document.
    pub fn position_at(&self, offset: usize) -> (p: Position)
        requires
            self.text_spec().len() < u32::MAX,
            utf16_len_seq(self.text_spec()) <= u32::MAX,
        ensures
            p.line == position_line(self.text_spec(), offset as nat),
            p.character == position_column(self.text_spec(), offset as nat),
    {
        let ghost s = self.text_spec();
        let len = rope_len_chars(&self.rope);
        let c = if offset < len {
            offset
        } else {
            len
        };
        let line = rope_char_to_line(&self.rope, c);
        proof {
            lemma_line_of_mono(s, c as int, s.len() as int);
            lemma_line_start_bounds(s, line as nat);
            lemma_line_start_of_line(s, c as int);
            lemma_line_count_bound(s);
        }
        let line_start = rope_line_to_char(&self.rope, line);
        let next_start = rope_line_to_char(&self.rope, line + 1);
        let end = if offset <= next_start {
            offset
        } else {
            next_start
        };
        let mut col: u32 = 0;
        let mut i = line_start;
        while i < end
            invariant
                s == rope_text(self.rope),
                line_start <= i <= end <= s.len(),
                col == utf16_len_seq(s.subrange(line_start as int, i as int)),
                utf16_len_seq(s) <= u32::MAX,
            decreases end - i,
        {
            let ch = rope_char(&self.rope, i);
            proof {
                assert(s.subrange(line_start as int, i + 1).drop_last() == s.subrange(
                    line_start as int,
                    i as int,
                ));
                lemma_utf16_subrange_bound(s, line_start as int, i + 1);
            }
            col += char_utf16_len(ch);
            i += 1;
        }
        Position { line: line as u32, character: col }
    }

    /// Get the text in the given LSP range (using UTF-16 positions).
    pub fn get_text(&self, range: Range) -> (r: Result<String, TextDocumentError>)
        ensures
            pos_lt(range.end, range.start) ==> r == Err::<String, TextDocumentError>(
                TextDocumentError::InvalidRange(range.start, range.end),
            ),
            !pos_lt(range.end, range.start) ==> (r matches Ok(t) && t@ == ({
                let s = self.text_spec();
                let b = offset_of(s, range.end);
                let a = offset_of(s, range.start);
                let a2 = if a <= b {
                    a
                } else {
                    b
                };
                s.subrange(a2, b)
            })),
    {
        if range.start.is_after(&range.end) {
            return Err(TextDocumentError::InvalidRange(range.start, range.end));
        }
        let start = utf16_to_utf8_char_offset(&self.rope, range.start.line, range.start.character);
        let end = utf16_to_utf8_char_offset(&self.rope, range.end.line, range.end.character);
        let len = rope_len_chars(&self.rope);
        let end = if end < len {
            end
        } else {
            len
        };
        let start = if start < end {
            start
        } else {
            end
        };
        Ok(rope_slice_string(&self.rope, start, end))
    }
}

proof fn lemma_utf16_append(a: Seq<char>, b: Seq<char>)
    ensures
        utf16_len_seq(a + b) == utf16_len_seq(a) + utf16_len_seq(b),
    decreases b.len(),
{
    if b.len() > 0 {
        assert((a + b).drop_last() == a + b.drop_last());
        lemma_utf16_append(a, b.drop_last());
    } else {
        assert(a + b == a);
    }
}

proof fn lemma_utf16_subrange_bound(s: Seq<char>, i: int, j: int)
    requires
        0 <= i <= j <= s.len(),
    ensures
        utf16_len_seq(s.subrange(i, j)) <= utf16_len_seq(s),
{
    lemma_utf16_append(s.take(i), s.subrange(i, j));
    lemma_utf16_append(s.take(j), s.skip(j));
    assert(s.take(i) + s.subrange(i, j) == s.take(j));
    assert(s.take(j) + s.skip(j) == s);
}

proof fn lemma_line_count_bound(s: Seq<char>)
    ensures
        line_of(s, s.len() as int) <= s.len(),
{
    lemma_line_of_le(s, s.len() as int);
}

proof fn lemma_line_of_le(s: Seq<char>, c: int)
    requires
        c >= 0,
    ensures
        line_of(s, c) <= c,
    decreases c,
{
    if c > 0 {
        lemma_line_of_le(s, c - 1);
    }
}

proof fn lemma_line_start_from_ge(s: Seq<char>, k: nat, c: int, o: int)
    requires
        0 <= c <= s.len(),
        0 <= o <= s.len(),
        line_of(s, o) < k,
    ensures
        line_start_from(s, k, c) >= o,
    decreases s.len() - c,
{
    lemma_line_start_from_bounds(s, k, c);
    if c < s.len() && c <= o {
        lemma_line_of_mono(s, c, o);
        lemma_line_start_from_ge(s, k, c + 1, o);
    }
}

proof fn lemma_utf16_prefix_exact(t: Seq<char>, m: int)
    requires
        0 <= m <= t.len(),
    ensures
        utf16_prefix_chars(t, utf16_len_seq(t.take(m))) == m,
    decreases m,
{
    if m == 0 {
        assert(t.take(0).len() == 0);
        if t.len() > 0 {
            assert(utf16_len(t[0]) >= 1);
        }
    } else {
        let u = t.drop_first();
        assert(t.take(m) == seq![t[0]] + u.take(m - 1));
        lemma_utf16_append(seq![t[0]], u.take(m - 1));
        let one = seq![t[0]];
        assert(one.drop_last() =~= Seq::<char>::empty());
        assert(utf16_len_seq(Seq::<char>::empty()) == 0);
        assert(one.last() == t[0]);
        assert(utf16_len_seq(one) == utf16_len(t[0]));
        lemma_utf16_prefix_exact(u, m - 1);
    }
}

/// A char offset turned into a position and back gives the offset again:
/// `offset_at` undoes `position_at` on every offset within the text.
pub proof fn lemma_offset_position_roundtrip(s: Seq<char>, o: nat)
    requires
        o <= s.len(),
        s.len() < u32::MAX,
        utf16_len_seq(s) <= u32::MAX,
    ensures
        position_line(s, o) <= u32::MAX,
        position_column(s, o) <= u32::MAX,
        offset_of(
            s,
            Position {
                line: position_line(s, o) as u32,
                character: position_column(s, o) as u32,
            },
        ) == o,
{
    let k = line_of(s, o as int);
    lemma_line_of_mono(s, o as int, s.len() as int);
    lemma_line_count_bound(s);
    lemma_line_start_bounds(s, k);
    lemma_line_start_of_line(s, o as int);
    lemma_line_start_from_ge(s, k + 1, 0, o as int);
    let ls = line_start(s, k);
    let le = line_start(s, k + 1);
    assert(ls <= o <= le);
    lemma_utf16_subrange_bound(s, ls, o as int);
    assert(clamp_line(s, k) == k);
    let t = line_text(s, k);
    assert(t.take(o - ls) == s.subrange(ls, o as int));
    lemma_utf16_prefix_exact(t, o - ls);
}

} // verus!
