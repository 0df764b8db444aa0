//! Positions and ranges in a text document, as used by the Language Server
//! Protocol, with the ordering laws they obey.
use vstd::prelude::*;

verus! {

/// A zero-based line / UTF-16 column position in a document.
#[derive(Clone, Copy, Debug, PartialEq, Eq, Structural)]
pub struct Position {
    pub line: u32,
    pub character: u32,
}

/// A span between two positions.
#[derive(Clone, Copy, Debug, PartialEq, Eq, Structural)]
pub struct Range {
    pub start: Position,
    pub end: Position,
}

/// An edit to a document as a client reports it: the range it replaces (the
/// whole document when there is none) and the text put there.
#[derive(Clone, Debug)]
pub struct TextDocumentContentChangeEvent {
    pub range: Option<Range>,
    pub range_length: Option<u32>,
    pub text: String,
}

/// `a` comes strictly before `b` in document order.
pub open spec fn pos_lt(a: Position, b: Position) -> bool {
    a.line < b.line || (a.line == b.line && a.character < b.character)
}

/// `a` comes before `b` or equals it.
pub open spec fn pos_le(a: Position, b: Position) -> bool {
    pos_lt(a, b) || a == b
}

/// The half-open range `[r.start, r.end)` holds `p`.
pub open spec fn range_holds(r: Range, p: Position) -> bool {
    pos_le(r.start, p) && pos_lt(p, r.end)
}

/// The closed range `[r.start, r.end]` holds `p`.
pub open spec fn range_holds_closed(r: Range, p: Position) -> bool {
    pos_le(r.start, p) && pos_le(p, r.end)
}

/// Comparisons of positions in document order.
pub trait PositionExt: Sized {
    spec fn spec_before(&self, other: &Self) -> bool;

    /// Return `true` if `self` comes before `other` in document order.
    fn is_before(&self, other: &Self) -> (r: bool)
        ensures
            r == self.spec_before(other),
    ;

    /// Return `true` if `self` comes after `other` in document order.
    fn is_after(&self, other: &Self) -> (r: bool)
        ensures
            r == other.spec_before(self),
    ;
}

impl PositionExt for Position {
    open spec fn spec_before(&self, other: &Self) -> bool {
        pos_lt(*self, *other)
    }

    fn is_before(&self, other: &Self) -> (r: bool) {
        self.line < other.line || (self.line == other.line && self.character < other.character)
    }

    fn is_after(&self, other: &Self) -> (r: bool) {
        self.line > other.line || (self.line == other.line && self.character > other.character)
    }
}

/// Membership and overlap tests for ranges.
pub trait RangeExt: Sized {
    spec fn spec_contains(&self, pos: Position) -> bool;

    spec fn spec_overlaps(&self, other: &Self) -> bool;

    /// Return `true` if `self` contains the given position (end exclusive).
    fn contains(&self, pos: &Position) -> (r: bool)
        ensures
            r == self.spec_contains(*pos),
    ;

    /// Return `true` if `self` and `other` overlap.
    fn overlaps(&self, other: &Self) -> (r: bool)
        ensures
            r == self.spec_overlaps(other),
    ;
}

impl RangeExt for Range {
    open spec fn spec_contains(&self, pos: Position) -> bool {
        range_holds(*self, pos)
    }

    open spec fn spec_overlaps(&self, other: &Self) -> bool {
        pos_lt(self.start, other.end) && pos_lt(other.start, self.end)
    }

    fn contains(&self, pos: &Position) -> (r: bool) {
        (pos.line > self.start.line || (pos.line == self.start.line && pos.character
            >= self.start.character)) && (pos.line < self.end.line || (pos.line == self.end.line
            && pos.character < self.end.character))
    }

    fn overlaps(&self, other: &Self) -> (r: bool) {
        self.start.is_before(&other.end) && other.start.is_before(&self.end)
    }
}

/// Return `true` if `pos` falls within `range`, both ends included.
pub fn position_in_range(pos: Position, range: Range) -> (r: bool)
    ensures
        r == range_holds_closed(range, pos),
{
    if pos.line < range.start.line || pos.line > range.end.line {
        return false;
    }
    if pos.line == range.start.line && pos.character < range.start.character {
        return false;
    }
    if pos.line == range.end.line && pos.character > range.end.character {
        return false;
    }
    true
}

/// Document order is a strict total order: irreflexive, transitive, and any
/// two distinct positions are ordered one way or the other.
pub proof fn lemma_position_order(a: Position, b: Position, c: Position)
    ensures
        !pos_lt(a, a),
        pos_lt(a, b) && pos_lt(b, c) ==> pos_lt(a, c),
        a != b ==> (pos_lt(a, b) || pos_lt(b, a)),
        !(pos_lt(a, b) && pos_lt(b, a)),
{
}

/// Overlap of ranges is symmetric, and a position held by both ranges
/// makes them overlap.
pub proof fn lemma_overlap_symmetric(r1: Range, r2: Range, p: Position)
    ensures
        r1.spec_overlaps(&r2) == r2.spec_overlaps(&r1),
        r1.spec_contains(p) && r2.spec_contains(p) ==> r1.spec_overlaps(&r2),
{
}

/// A position held by the half-open range is also held by the closed one.
pub proof fn lemma_contains_implies_in_range(r: Range, p: Position)
    ensures
        r.spec_contains(p) ==> range_holds_closed(r, p),
{
}

/// A replacement of the text in `range` by `new_text`.
#[derive(Clone, Debug, PartialEq, Eq)]
pub struct TextEdit {
    pub range: Range,
    pub new_text: String,
}

} // verus!
