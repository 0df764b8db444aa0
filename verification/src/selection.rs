//! Selection ranges: for a position, the chain of ranges an editor grows
//! the selection through, from the tightest statement that holds the
//! position out to its block and its section.  Each range of the chain
//! holds the one before it, and the first holds the position.
use vstd::prelude::*;

use crate::ast::{
    ast_pos_to_range, ast_range, body_item_position, body_position_of, AstPosition, BlockModel, BodyItemModel,
    BranchModel, CommentModel, FileModel, SectionModel, SettingItemModel, VariableItemModel,
};
use crate::folding::{setting_position, variable_position};
use crate::lsp::{pos_le, pos_lt, position_in_range, range_holds_closed, Position, Range};
use crate::lsp_items::SelectionRange;

verus! {

// ── Ranges and their hulls ───────────────────────────────────────────────────

/// The earlier of two positions.
pub open spec fn pos_min(a: Position, b: Position) -> Position {
    if pos_le(a, b) {
        a
    } else {
        b
    }
}

/// The later of two positions.
pub open spec fn pos_max(a: Position, b: Position) -> Position {
    if pos_le(a, b) {
        b
    } else {
        a
    }
}

/// The smallest range holding both `a` and `b`.
pub open spec fn hull(a: Range, b: Range) -> Range {
    Range { start: pos_min(a.start, b.start), end: pos_max(a.end, b.end) }
}

/// `a` widened to hold `b`, when there is a `b`.
pub open spec fn hull_opt(a: Range, b: Option<Range>) -> Range {
    match b {
        Some(x) => hull(a, x),
        None => a,
    }
}

/// Both of two optional ranges, widened to one.
pub open spec fn hull_both(a: Option<Range>, b: Range) -> Range {
    match a {
        Some(x) => hull(x, b),
        None => b,
    }
}

/// `a` lies within `b`.
pub open spec fn within(a: Range, b: Range) -> bool {
    pos_le(b.start, a.start) && pos_le(a.end, b.end)
}

/// The range covering all of `rs`, none for none.
pub open spec fn ranges_extent(rs: Seq<Range>) -> Option<Range>
    decreases rs.len(),
{
    if rs.len() == 0 {
        None
    } else {
        Some(hull_both(ranges_extent(rs.drop_last()), rs.last()))
    }
}

/// The range a body covers: its items and all they hold.
pub open spec fn body_extent(items: Seq<BodyItemModel>) -> Option<Range>
    decreases items,
{
    if items.len() == 0 {
        None
    } else {
        Some(hull_both(body_extent(items.drop_last()), item_extent(items.last())))
    }
}

/// The range a body item covers: a loop or a branching block with all it
/// holds, another item its own span.
pub open spec fn item_extent(item: BodyItemModel) -> Range
    decreases item,
{
    match item {
        BodyItemModel::Loop { position, body, .. } => hull_opt(ast_range(position), body_extent(body@)),
        BodyItemModel::Branches { position, branches } => hull_opt(ast_range(position), branches_extent(branches@)),
        _ => ast_range(body_item_position(item)),
    }
}

/// The range the branches `bs` cover with their bodies.
pub open spec fn branches_extent(bs: Seq<BranchModel>) -> Option<Range>
    decreases bs,
{
    if bs.len() == 0 {
        None
    } else {
        Some(hull_both(branches_extent(bs.drop_last()), hull_opt(ast_range(bs.last().position), body_extent(bs.last().body@))))
    }
}

/// The range of a test case, task or keyword: from its name to the end of
/// its body.
pub open spec fn block_extent(b: BlockModel) -> Range {
    hull_opt(ast_range(b.position), body_extent(b.body@))
}

/// The range the blocks `bs` cover.
pub open spec fn blocks_extent(bs: Seq<BlockModel>) -> Option<Range>
    decreases bs.len(),
{
    if bs.len() == 0 {
        None
    } else {
        Some(hull_both(blocks_extent(bs.drop_last()), block_extent(bs.last())))
    }
}

/// The spans of the rows of a settings section.
pub open spec fn setting_ranges(items: Seq<SettingItemModel>) -> Seq<Range> {
    items.map_values(|i: SettingItemModel| ast_range(setting_position(i)))
}

/// The spans of the rows of a variables section.
pub open spec fn variable_ranges(items: Seq<VariableItemModel>) -> Seq<Range> {
    items.map_values(|i: VariableItemModel| ast_range(variable_position(i)))
}

/// The spans of comment lines.
pub open spec fn comment_ranges(items: Seq<CommentModel>) -> Seq<Range> {
    items.map_values(|c: CommentModel| ast_range(c.position))
}

/// The range of a section: from its header to the end of its last item.
pub open spec fn section_extent(s: SectionModel) -> Option<Range> {
    match s {
        SectionModel::Settings { header, body } => Some(hull_opt(ast_range(header.position), ranges_extent(setting_ranges(body@)))),
        SectionModel::Variables { header, body } => Some(hull_opt(ast_range(header.position), ranges_extent(variable_ranges(body@)))),
        SectionModel::TestCases { header, body } => Some(hull_opt(ast_range(header.position), blocks_extent(body@))),
        SectionModel::Tasks { header, body } => Some(hull_opt(ast_range(header.position), blocks_extent(body@))),
        SectionModel::Keywords { header, body } => Some(hull_opt(ast_range(header.position), blocks_extent(body@))),
        SectionModel::Comments { header, body } => Some(hull_opt(ast_range(header.position), ranges_extent(comment_ranges(body@)))),
        SectionModel::Invalid => None,
    }
}

// ── Chains ───────────────────────────────────────────────────────────────────

/// `r` is the chain `c`: its range is `c[0]`, and its parents are the rest
/// of `c`, the last one without a parent.
pub open spec fn is_chain(r: SelectionRange, c: Seq<Range>) -> bool
    decreases c.len(),
{
    &&& c.len() >= 1
    &&& r.range == c[0]
    &&& if c.len() == 1 {
        r.parent is None
    } else {
        r.parent matches Some(p) && is_chain(*p, c.drop_first())
    }
}

/// The chain grows outward from `pos`: its first range holds `pos`, and
/// each range lies within the next.
pub open spec fn nested(c: Seq<Range>, pos: Position) -> bool {
    &&& c.len() >= 1
    &&& range_holds_closed(c[0], pos)
    &&& forall|i: int| 0 <= i < c.len() - 1 ==> within(#[trigger] c[i], c[i + 1])
}

/// The span of the tightest statement of `items` that holds `pos`: a
/// keyword call, or a loop or branch, preferring a statement inside it.
pub open spec fn find_in_body(items: Seq<BodyItemModel>, pos: Position) -> Option<Range>
    decreases items,
{
    if items.len() == 0 {
        None
    } else {
        match find_in_body(items.drop_last(), pos) {
            Some(r) => Some(r),
            None => find_in_item(items.last(), pos),
        }
    }
}

/// The span of the tightest statement of `item` that holds `pos`.
pub open spec fn find_in_item(item: BodyItemModel, pos: Position) -> Option<Range>
    decreases item,
{
    match item {
        BodyItemModel::KeywordCall { position, .. } => if range_holds_closed(ast_range(position), pos) {
            Some(ast_range(position))
        } else {
            None
        },
        BodyItemModel::Loop { position, body, .. } => match find_in_body(body@, pos) {
            Some(r) => Some(r),
            None => if range_holds_closed(ast_range(position), pos) {
                Some(ast_range(position))
            } else {
                None
            },
        },
        BodyItemModel::Branches { branches, .. } => find_in_branches(branches@, pos),
        _ => None,
    }
}

/// The span of the tightest statement of a branch of `bs` that holds
/// `pos`: one in its body, else the branch's own line.
pub open spec fn find_in_branches(bs: Seq<BranchModel>, pos: Position) -> Option<Range>
    decreases bs,
{
    if bs.len() == 0 {
        None
    } else {
        match find_in_branches(bs.drop_last(), pos) {
            Some(r) => Some(r),
            None => match find_in_body(bs.last().body@, pos) {
                Some(r) => Some(r),
                None => if range_holds_closed(ast_range(bs.last().position), pos) {
                    Some(ast_range(bs.last().position))
                } else {
                    None
                },
            },
        }
    }
}

/// The first of `rs` that holds `pos`.
pub open spec fn first_holding(rs: Seq<Range>, pos: Position) -> Option<Range>
    decreases rs.len(),
{
    if rs.len() == 0 {
        None
    } else {
        match first_holding(rs.drop_last(), pos) {
            Some(r) => Some(r),
            None => if range_holds_closed(rs.last(), pos) {
                Some(rs.last())
            } else {
                None
            },
        }
    }
}

/// The spans of the variable definitions of a variables section.
pub open spec fn definition_ranges(items: Seq<VariableItemModel>) -> Seq<Range>
    decreases items.len(),
{
    if items.len() == 0 {
        Seq::empty()
    } else {
        definition_ranges(items.drop_last()) + match items.last() {
            VariableItemModel::Variable { position, .. } => seq![ast_range(position)],
            _ => Seq::empty(),
        }
    }
}

/// The chain for the first block of `bs` that holds `pos`: the statement
/// there, if any, the block, then the section `section`.
pub open spec fn block_chain(bs: Seq<BlockModel>, pos: Position, section: Range) -> Option<Seq<Range>>
    decreases bs.len(),
{
    if bs.len() == 0 {
        None
    } else {
        match block_chain(bs.drop_last(), pos, section) {
            Some(c) => Some(c),
            None => {
                let b = bs.last();
                match find_in_body(b.body@, pos) {
                    Some(r) => Some(seq![r, block_extent(b), section]),
                    None => if range_holds_closed(block_extent(b), pos) {
                        Some(seq![block_extent(b), section])
                    } else {
                        None
                    },
                }
            },
        }
    }
}

/// An item range holding `pos` with its section, else the section alone
/// when it holds `pos`.
pub open spec fn item_or_section(item: Option<Range>, section: Range, pos: Position) -> Option<Seq<Range>> {
    match item {
        Some(r) => Some(seq![r, section]),
        None => if range_holds_closed(section, pos) {
            Some(seq![section])
        } else {
            None
        },
    }
}

/// The chain a section gives for `pos`, if any: the tightest statement or
/// row holding it, its block, then the section, as far as they hold it.
pub open spec fn section_chain(s: SectionModel, pos: Position) -> Option<Seq<Range>> {
    match section_extent(s) {
        None => None,
        Some(e) => match s {
            SectionModel::Settings { body, .. } => item_or_section(first_holding(setting_ranges(body@), pos), e, pos),
            SectionModel::Variables { body, .. } => item_or_section(first_holding(definition_ranges(body@), pos), e, pos),
            SectionModel::TestCases { body, .. } => match block_chain(body@, pos, e) {
                Some(c) => Some(c),
                None => item_or_section(None, e, pos),
            },
            SectionModel::Tasks { body, .. } => match block_chain(body@, pos, e) {
                Some(c) => Some(c),
                None => item_or_section(None, e, pos),
            },
            SectionModel::Keywords { body, .. } => match block_chain(body@, pos, e) {
                Some(c) => Some(c),
                None => item_or_section(None, e, pos),
            },
            _ => item_or_section(None, e, pos),
        },
    }
}

/// The chain of the first section of `ss` that gives one for `pos`.
pub open spec fn sections_chain(ss: Seq<SectionModel>, pos: Position) -> Option<Seq<Range>>
    decreases ss.len(),
{
    if ss.len() == 0 {
        None
    } else {
        match sections_chain(ss.drop_last(), pos) {
            Some(c) => Some(c),
            None => section_chain(ss.last(), pos),
        }
    }
}

/// The chain for `pos` in a file: that of the first section giving one,
/// else the empty range at `pos`.
pub open spec fn selection_chain(ss: Seq<SectionModel>, pos: Position) -> Seq<Range> {
    match sections_chain(ss, pos) {
        Some(c) => c,
        None => seq![Range { start: pos, end: pos }],
    }
}

// ── Laws ─────────────────────────────────────────────────────────────────────

proof fn lemma_hull(a: Range, b: Range)
    ensures
        within(a, hull(a, b)),
        within(b, hull(a, b)),
{
}

proof fn lemma_within_trans(a: Range, b: Range, c: Range)
    requires
        within(a, b),
        within(b, c),
    ensures
        within(a, c),
{
}

proof fn lemma_within_hull_opt(a: Range, b: Option<Range>)
    ensures
        within(a, hull_opt(a, b)),
        b matches Some(x) ==> within(x, hull_opt(a, b)),
{
}

proof fn lemma_within_hull_both(a: Option<Range>, b: Range)
    ensures
        within(b, hull_both(a, b)),
        a matches Some(x) ==> within(x, hull_both(a, b)),
{
}

proof fn lemma_holds_within(r: Range, s: Range, pos: Position)
    requires
        range_holds_closed(r, pos),
        within(r, s),
    ensures
        range_holds_closed(s, pos),
{
}

/// A statement found in a body holds `pos` and lies within the body.
proof fn lemma_find_body(items: Seq<BodyItemModel>, pos: Position)
    ensures
        find_in_body(items, pos) matches Some(r) ==> range_holds_closed(r, pos) && body_extent(items) is Some && within(
            r,
            body_extent(items)->0,
        ),
    decreases items,
{
    if items.len() > 0 {
        let prev = body_extent(items.drop_last());
        lemma_within_hull_both(prev, item_extent(items.last()));
        lemma_find_body(items.drop_last(), pos);
        lemma_find_item(items.last(), pos);
        match find_in_body(items.drop_last(), pos) {
            Some(r) => {
                lemma_within_trans(r, prev->0, body_extent(items)->0);
            },
            None => {
                if let Some(r) = find_in_item(items.last(), pos) {
                    lemma_within_trans(r, item_extent(items.last()), body_extent(items)->0);
                }
            },
        }
    }
}

proof fn lemma_find_item(item: BodyItemModel, pos: Position)
    ensures
        find_in_item(item, pos) matches Some(r) ==> range_holds_closed(r, pos) && within(r, item_extent(item)),
    decreases item,
{
    match item {
        BodyItemModel::Loop { position, body, .. } => {
            lemma_find_body(body@, pos);
            lemma_within_hull_opt(ast_range(position), body_extent(body@));
            if let Some(r) = find_in_body(body@, pos) {
                lemma_within_trans(r, body_extent(body@)->0, item_extent(item));
            }
        },
        BodyItemModel::Branches { position, branches } => {
            lemma_find_branches(branches@, pos);
            lemma_within_hull_opt(ast_range(position), branches_extent(branches@));
            if let Some(r) = find_in_branches(branches@, pos) {
                lemma_within_trans(r, branches_extent(branches@)->0, item_extent(item));
            }
        },
        _ => {},
    }
}

proof fn lemma_find_branches(bs: Seq<BranchModel>, pos: Position)
    ensures
        find_in_branches(bs, pos) matches Some(r) ==> range_holds_closed(r, pos) && branches_extent(bs) is Some
            && within(r, branches_extent(bs)->0),
    decreases bs,
{
    if bs.len() > 0 {
        let b = bs.last();
        let be = hull_opt(ast_range(b.position), body_extent(b.body@));
        let prev = branches_extent(bs.drop_last());
        lemma_within_hull_both(prev, be);
        lemma_within_hull_opt(ast_range(b.position), body_extent(b.body@));
        lemma_find_branches(bs.drop_last(), pos);
        lemma_find_body(b.body@, pos);
        match find_in_branches(bs.drop_last(), pos) {
            Some(r) => {
                lemma_within_trans(r, prev->0, branches_extent(bs)->0);
            },
            None => {
                match find_in_body(b.body@, pos) {
                    Some(r) => {
                        lemma_within_trans(r, body_extent(b.body@)->0, be);
                        lemma_within_trans(r, be, branches_extent(bs)->0);
                    },
                    None => {
                        lemma_within_trans(ast_range(b.position), be, branches_extent(bs)->0);
                    },
                }
            },
        }
    }
}

/// Every block lies within the range of its blocks.
proof fn lemma_blocks_within(bs: Seq<BlockModel>, i: int)
    requires
        0 <= i < bs.len(),
    ensures
        blocks_extent(bs) is Some,
        within(block_extent(bs[i]), blocks_extent(bs)->0),
    decreases bs.len(),
{
    let prev = blocks_extent(bs.drop_last());
    lemma_within_hull_both(prev, block_extent(bs.last()));
    if i < bs.len() - 1 {
        lemma_blocks_within(bs.drop_last(), i);
        assert(bs.drop_last()[i] == bs[i]);
        lemma_within_trans(block_extent(bs[i]), prev->0, blocks_extent(bs)->0);
    }
}

/// Every range of `rs` lies within their extent.
proof fn lemma_ranges_within(rs: Seq<Range>, i: int)
    requires
        0 <= i < rs.len(),
    ensures
        ranges_extent(rs) is Some,
        within(rs[i], ranges_extent(rs)->0),
    decreases rs.len(),
{
    let prev = ranges_extent(rs.drop_last());
    lemma_within_hull_both(prev, rs.last());
    if i < rs.len() - 1 {
        lemma_ranges_within(rs.drop_last(), i);
        assert(rs.drop_last()[i] == rs[i]);
        lemma_within_trans(rs[i], prev->0, ranges_extent(rs)->0);
    }
}

/// A range found among `rs` is one of them and holds `pos`.
proof fn lemma_first_holding(rs: Seq<Range>, pos: Position)
    ensures
        first_holding(rs, pos) matches Some(r) ==> range_holds_closed(r, pos) && exists|i: int|
            0 <= i < rs.len() && #[trigger] rs[i] == r,
    decreases rs.len(),
{
    if rs.len() > 0 {
        lemma_first_holding(rs.drop_last(), pos);
        match first_holding(rs.drop_last(), pos) {
            Some(r) => {
                let i = choose|i: int| 0 <= i < rs.drop_last().len() && #[trigger] rs.drop_last()[i] == r;
                assert(rs[i] == r);
            },
            None => {
                assert(rs[rs.len() - 1] == rs.last());
            },
        }
    }
}

proof fn lemma_block_chain(bs: Seq<BlockModel>, pos: Position, section: Range)
    requires
        forall|i: int| 0 <= i < bs.len() ==> within(block_extent(#[trigger] bs[i]), section),
    ensures
        block_chain(bs, pos, section) matches Some(c) ==> nested(c, pos) && c.last() == section,
    decreases bs.len(),
{
    if bs.len() > 0 {
        assert forall|i: int| 0 <= i < bs.drop_last().len() implies within(block_extent(#[trigger] bs.drop_last()[i]), section) by {
            assert(bs.drop_last()[i] == bs[i]);
        }
        lemma_block_chain(bs.drop_last(), pos, section);
        let b = bs.last();
        assert(within(block_extent(bs[bs.len() - 1]), section));
        lemma_find_body(b.body@, pos);
        lemma_within_hull_opt(ast_range(b.position), body_extent(b.body@));
        if block_chain(bs.drop_last(), pos, section) is None {
            match find_in_body(b.body@, pos) {
                Some(r) => {
                    lemma_within_trans(r, body_extent(b.body@)->0, block_extent(b));
                    let c = seq![r, block_extent(b), section];
                    assert(nested(c, pos));
                },
                None => {
                    if range_holds_closed(block_extent(b), pos) {
                        let c = seq![block_extent(b), section];
                        assert(nested(c, pos));
                    }
                },
            }
        }
    }
}

proof fn lemma_item_or_section(item: Option<Range>, section: Range, pos: Position)
    requires
        item matches Some(r) ==> range_holds_closed(r, pos) && within(r, section),
    ensures
        item_or_section(item, section, pos) matches Some(c) ==> nested(c, pos),
{
    if let Some(r) = item {
        assert(nested(seq![r, section], pos));
    } else if range_holds_closed(section, pos) {
        assert(nested(seq![section], pos));
    }
}

proof fn lemma_definition_ranges(items: Seq<VariableItemModel>, j: int)
    requires
        0 <= j < definition_ranges(items).len(),
    ensures
        exists|i: int| 0 <= i < items.len() && #[trigger] variable_ranges(items)[i] == definition_ranges(items)[j],
    decreases items.len(),
{
    let prev = definition_ranges(items.drop_last());
    if j < prev.len() {
        lemma_definition_ranges(items.drop_last(), j);
        let i = choose|i: int| 0 <= i < items.drop_last().len() && #[trigger] variable_ranges(items.drop_last())[i] == prev[j];
        assert(variable_ranges(items)[i] == variable_ranges(items.drop_last())[i]);
    } else {
        let k = items.len() - 1;
        assert(variable_ranges(items)[k] == ast_range(variable_position(items[k])));
    }
}

/// The chain of a section grows outward from `pos`.
proof fn lemma_section_chain(s: SectionModel, pos: Position)
    ensures
        section_chain(s, pos) matches Some(c) ==> nested(c, pos),
{
    if let Some(e) = section_extent(s) {
        match s {
            SectionModel::Settings { header, body } => {
                let rs = setting_ranges(body@);
                lemma_first_holding(rs, pos);
                lemma_within_hull_opt(ast_range(header.position), ranges_extent(rs));
                if let Some(r) = first_holding(rs, pos) {
                    let i = choose|i: int| 0 <= i < rs.len() && #[trigger] rs[i] == r;
                    lemma_ranges_within(rs, i);
                    lemma_within_trans(r, ranges_extent(rs)->0, e);
                }
                lemma_item_or_section(first_holding(rs, pos), e, pos);
            },
            SectionModel::Variables { header, body } => {
                let ds = definition_ranges(body@);
                let rs = variable_ranges(body@);
                lemma_first_holding(ds, pos);
                lemma_within_hull_opt(ast_range(header.position), ranges_extent(rs));
                if let Some(r) = first_holding(ds, pos) {
                    let j = choose|j: int| 0 <= j < ds.len() && #[trigger] ds[j] == r;
                    lemma_definition_ranges(body@, j);
                    let i = choose|i: int| 0 <= i < body@.len() && #[trigger] variable_ranges(body@)[i] == ds[j];
                    lemma_ranges_within(rs, i);
                    lemma_within_trans(r, ranges_extent(rs)->0, e);
                }
                lemma_item_or_section(first_holding(ds, pos), e, pos);
            },
            SectionModel::TestCases { header, body } | SectionModel::Tasks { header, body }
            | SectionModel::Keywords { header, body } => {
                lemma_within_hull_opt(ast_range(header.position), blocks_extent(body@));
                assert forall|i: int| 0 <= i < body@.len() implies within(block_extent(#[trigger] body@[i]), e) by {
                    lemma_blocks_within(body@, i);
                    lemma_within_trans(block_extent(body@[i]), blocks_extent(body@)->0, e);
                }
                lemma_block_chain(body@, pos, e);
                lemma_item_or_section(None, e, pos);
            },
            _ => {
                lemma_item_or_section(None, e, pos);
            },
        }
    }
}

/// The selection chain of a file grows outward from the position: its
/// first range holds the position, and each range lies within the next.
pub proof fn lemma_selection_nested(ss: Seq<SectionModel>, pos: Position)
    ensures
        nested(selection_chain(ss, pos), pos),
    decreases ss.len(),
{
    if ss.len() > 0 {
        lemma_selection_nested(ss.drop_last(), pos);
        lemma_section_chain(ss.last(), pos);
    }
    if sections_chain(ss, pos) is None {
        assert(nested(seq![Range { start: pos, end: pos }], pos));
    }
}

// ── Computation ──────────────────────────────────────────────────────────────

fn pos_le_of(a: Position, b: Position) -> (r: bool)
    ensures
        r == pos_le(a, b),
{
    a.line < b.line || (a.line == b.line && a.character <= b.character)
}

fn hull_of(a: Range, b: Range) -> (r: Range)
    ensures
        r == hull(a, b),
{
    let start = if pos_le_of(a.start, b.start) {
        a.start
    } else {
        b.start
    };
    let end = if pos_le_of(a.end, b.end) {
        b.end
    } else {
        a.end
    };
    Range { start, end }
}

fn hull_opt_of(a: Range, b: Option<Range>) -> (r: Range)
    ensures
        r == hull_opt(a, b),
{
    match b {
        Some(x) => hull_of(a, x),
        None => a,
    }
}

fn hull_both_of(a: Option<Range>, b: Range) -> (r: Range)
    ensures
        r == hull_both(a, b),
{
    match a {
        Some(x) => hull_of(x, b),
        None => b,
    }
}

fn body_extent_of(items: &Vec<BodyItemModel>) -> (r: Option<Range>)
    ensures
        r == body_extent(items@),
    decreases items@,
{
    let mut r: Option<Range> = None;
    let mut i: usize = 0;
    while i < items.len()
        invariant
            i <= items.len(),
            r == body_extent(items@.take(i as int)),
        decreases items.len() - i,
    {
        assert(items@.take(i + 1).drop_last() == items@.take(i as int));
        assert(items@.take(i + 1).last() == items@[i as int]);
        proof {
            assert(decreases_to!(items@ => items@[i as int]));
        }
        let e = item_extent_of(&items[i]);
        r = Some(hull_both_of(r, e));
        i += 1;
    }
    assert(items@.take(items.len() as int) == items@);
    r
}

fn item_extent_of(item: &BodyItemModel) -> (r: Range)
    ensures
        r == item_extent(*item),
    decreases *item,
{
    match item {
        BodyItemModel::Loop { position, body, .. } => {
            proof {
                assert(decreases_to!(*item => body@));
            }
            hull_opt_of(ast_pos_to_range(position), body_extent_of(body))
        },
        BodyItemModel::Branches { position, branches } => {
            proof {
                assert(decreases_to!(*item => branches@));
            }
            hull_opt_of(ast_pos_to_range(position), branches_extent_of(branches))
        },
        _ => {
            let p = body_position_of(item);
            ast_pos_to_range(&p)
        },
    }
}

fn branches_extent_of(bs: &Vec<BranchModel>) -> (r: Option<Range>)
    ensures
        r == branches_extent(bs@),
    decreases bs@,
{
    let mut r: Option<Range> = None;
    let mut i: usize = 0;
    while i < bs.len()
        invariant
            i <= bs.len(),
            r == branches_extent(bs@.take(i as int)),
        decreases bs.len() - i,
    {
        assert(bs@.take(i + 1).drop_last() == bs@.take(i as int));
        assert(bs@.take(i + 1).last() == bs@[i as int]);
        proof {
            assert(decreases_to!(bs@ => bs@[i as int].body@));
        }
        let b = &bs[i];
        let be = hull_opt_of(ast_pos_to_range(&b.position), body_extent_of(&b.body));
        r = Some(hull_both_of(r, be));
        i += 1;
    }
    assert(bs@.take(bs.len() as int) == bs@);
    r
}

fn block_extent_of(b: &BlockModel) -> (r: Range)
    ensures
        r == block_extent(*b),
{
    hull_opt_of(ast_pos_to_range(&b.position), body_extent_of(&b.body))
}

fn blocks_extent_of(bs: &Vec<BlockModel>) -> (r: Option<Range>)
    ensures
        r == blocks_extent(bs@),
{
    let mut r: Option<Range> = None;
    let mut i: usize = 0;
    while i < bs.len()
        invariant
            i <= bs.len(),
            r == blocks_extent(bs@.take(i as int)),
        decreases bs.len() - i,
    {
        assert(bs@.take(i + 1).drop_last() == bs@.take(i as int));
        assert(bs@.take(i + 1).last() == bs@[i as int]);
        r = Some(hull_both_of(r, block_extent_of(&bs[i])));
        i += 1;
    }
    assert(bs@.take(bs.len() as int) == bs@);
    r
}

fn setting_range_of(item: &SettingItemModel) -> (r: Range)
    ensures
        r == ast_range(setting_position(*item)),
{
    let p = match item {
        SettingItemModel::LibraryImport { position, .. } => position,
        SettingItemModel::ResourceImport { position, .. } => position,
        SettingItemModel::VariablesImport { position, .. } => position,
        SettingItemModel::Documentation { position, .. } => position,
        SettingItemModel::Fixture { position, .. } => position,
        SettingItemModel::Metadata { position } => position,
        SettingItemModel::Tags { position, .. } => position,
        SettingItemModel::Comment { position, .. } => position,
        SettingItemModel::Other { position } => position,
    };
    ast_pos_to_range(p)
}

fn variable_range_of(item: &VariableItemModel) -> (r: Range)
    ensures
        r == ast_range(variable_position(*item)),
{
    let p = match item {
        VariableItemModel::Variable { position, .. } => position,
        VariableItemModel::Comment { position, .. } => position,
        VariableItemModel::Other { position } => position,
    };
    ast_pos_to_range(p)
}

/// The range of a section: from its header to the end of its last item.
fn section_extent_of(s: &SectionModel) -> (r: Option<Range>)
    ensures
        r == section_extent(*s),
{
    match s {
        SectionModel::Settings { header, body } => {
            let mut r: Option<Range> = None;
            let ghost rs = setting_ranges(body@);
            let mut i: usize = 0;
            while i < body.len()
                invariant
                    i <= body.len(),
                    rs == setting_ranges(body@),
                    r == ranges_extent(rs.take(i as int)),
                decreases body.len() - i,
            {
                assert(rs.take(i + 1).drop_last() == rs.take(i as int));
                assert(rs.take(i + 1).last() == rs[i as int]);
                r = Some(hull_both_of(r, setting_range_of(&body[i])));
                i += 1;
            }
            assert(rs.take(body.len() as int) == rs);
            Some(hull_opt_of(ast_pos_to_range(&header.position), r))
        },
        SectionModel::Variables { header, body } => {
            let mut r: Option<Range> = None;
            let ghost rs = variable_ranges(body@);
            let mut i: usize = 0;
            while i < body.len()
                invariant
                    i <= body.len(),
                    rs == variable_ranges(body@),
                    r == ranges_extent(rs.take(i as int)),
                decreases body.len() - i,
            {
                assert(rs.take(i + 1).drop_last() == rs.take(i as int));
                assert(rs.take(i + 1).last() == rs[i as int]);
                r = Some(hull_both_of(r, variable_range_of(&body[i])));
                i += 1;
            }
            assert(rs.take(body.len() as int) == rs);
            Some(hull_opt_of(ast_pos_to_range(&header.position), r))
        },
        SectionModel::TestCases { header, body } => Some(hull_opt_of(ast_pos_to_range(&header.position), blocks_extent_of(body))),
        SectionModel::Tasks { header, body } => Some(hull_opt_of(ast_pos_to_range(&header.position), blocks_extent_of(body))),
        SectionModel::Keywords { header, body } => Some(hull_opt_of(ast_pos_to_range(&header.position), blocks_extent_of(body))),
        SectionModel::Comments { header, body } => {
            let mut r: Option<Range> = None;
            let ghost rs = comment_ranges(body@);
            let mut i: usize = 0;
            while i < body.len()
                invariant
                    i <= body.len(),
                    rs == comment_ranges(body@),
                    r == ranges_extent(rs.take(i as int)),
                decreases body.len() - i,
            {
                assert(rs.take(i + 1).drop_last() == rs.take(i as int));
                assert(rs.take(i + 1).last() == rs[i as int]);
                r = Some(hull_both_of(r, ast_pos_to_range(&body[i].position)));
                i += 1;
            }
            assert(rs.take(body.len() as int) == rs);
            Some(hull_opt_of(ast_pos_to_range(&header.position), r))
        },
        SectionModel::Invalid => None,
    }
}

fn find_body(items: &Vec<BodyItemModel>, pos: Position) -> (r: Option<Range>)
    ensures
        r == find_in_body(items@, pos),
    decreases items@,
{
    let mut i: usize = 0;
    while i < items.len()
        invariant
            i <= items.len(),
            find_in_body(items@.take(i as int), pos) is None,
        decreases items.len() - i,
    {
        assert(items@.take(i + 1).drop_last() == items@.take(i as int));
        assert(items@.take(i + 1).last() == items@[i as int]);
        proof {
            assert(decreases_to!(items@ => items@[i as int]));
        }
        let f = find_item(&items[i], pos);
        if f.is_some() {
            proof {
                lemma_find_prefix(items@, i as int + 1, pos);
            }
            return f;
        }
        i += 1;
    }
    assert(items@.take(items.len() as int) == items@);
    None
}

/// A match in a prefix of `items` is the match in `items`.
proof fn lemma_find_prefix(items: Seq<BodyItemModel>, k: int, pos: Position)
    requires
        0 <= k <= items.len(),
        find_in_body(items.take(k), pos) is Some,
    ensures
        find_in_body(items, pos) == find_in_body(items.take(k), pos),
    decreases items.len() - k,
{
    if k < items.len() {
        assert(items.take(k + 1).drop_last() == items.take(k));
        lemma_find_prefix(items, k + 1, pos);
    } else {
        assert(items.take(k) == items);
    }
}

proof fn lemma_branches_prefix(bs: Seq<BranchModel>, k: int, pos: Position)
    requires
        0 <= k <= bs.len(),
        find_in_branches(bs.take(k), pos) is Some,
    ensures
        find_in_branches(bs, pos) == find_in_branches(bs.take(k), pos),
    decreases bs.len() - k,
{
    if k < bs.len() {
        assert(bs.take(k + 1).drop_last() == bs.take(k));
        lemma_branches_prefix(bs, k + 1, pos);
    } else {
        assert(bs.take(k) == bs);
    }
}

fn find_item(item: &BodyItemModel, pos: Position) -> (r: Option<Range>)
    ensures
        r == find_in_item(*item, pos),
    decreases *item,
{
    match item {
        BodyItemModel::KeywordCall { position, .. } => {
            let pr = ast_pos_to_range(position);
            if position_in_range(pos, pr) {
                Some(pr)
            } else {
                None
            }
        },
        BodyItemModel::Loop { position, body, .. } => {
            proof {
                assert(decreases_to!(*item => body@));
            }
            match find_body(body, pos) {
                Some(r) => Some(r),
                None => {
                    let pr = ast_pos_to_range(position);
                    if position_in_range(pos, pr) {
                        Some(pr)
                    } else {
                        None
                    }
                },
            }
        },
        BodyItemModel::Branches { branches, .. } => {
            proof {
                assert(decreases_to!(*item => branches@));
            }
            find_branches(branches, pos)
        },
        _ => None,
    }
}

fn find_branches(bs: &Vec<BranchModel>, pos: Position) -> (r: Option<Range>)
    ensures
        r == find_in_branches(bs@, pos),
    decreases bs@,
{
    let mut i: usize = 0;
    while i < bs.len()
        invariant
            i <= bs.len(),
            find_in_branches(bs@.take(i as int), pos) is None,
        decreases bs.len() - i,
    {
        assert(bs@.take(i + 1).drop_last() == bs@.take(i as int));
        assert(bs@.take(i + 1).last() == bs@[i as int]);
        let b = &bs[i];
        proof {
            assert(decreases_to!(bs@ => bs@[i as int].body@));
        }
        let f = match find_body(&b.body, pos) {
            Some(r) => Some(r),
            None => {
                let pr = ast_pos_to_range(&b.position);
                if position_in_range(pos, pr) {
                    Some(pr)
                } else {
                    None
                }
            },
        };
        if f.is_some() {
            proof {
                lemma_branches_prefix(bs@, i as int + 1, pos);
            }
            return f;
        }
        i += 1;
    }
    assert(bs@.take(bs.len() as int) == bs@);
    None
}

fn leaf(a: Range) -> (r: SelectionRange)
    ensures
        is_chain(r, seq![a]),
{
    SelectionRange { range: a, parent: None }
}

fn chain2(a: Range, b: Range) -> (r: SelectionRange)
    ensures
        is_chain(r, seq![a, b]),
{
    let r = SelectionRange { range: a, parent: Some(Box::new(leaf(b))) };
    assert(seq![a, b].drop_first() == seq![b]);
    r
}

fn chain3(a: Range, b: Range, c: Range) -> (r: SelectionRange)
    ensures
        is_chain(r, seq![a, b, c]),
{
    let r = SelectionRange { range: a, parent: Some(Box::new(chain2(b, c))) };
    assert(seq![a, b, c].drop_first() == seq![b, c]);
    r
}

proof fn lemma_holding_prefix(rs: Seq<Range>, k: int, pos: Position)
    requires
        0 <= k <= rs.len(),
        first_holding(rs.take(k), pos) is Some,
    ensures
        first_holding(rs, pos) == first_holding(rs.take(k), pos),
    decreases rs.len() - k,
{
    if k < rs.len() {
        assert(rs.take(k + 1).drop_last() == rs.take(k));
        lemma_holding_prefix(rs, k + 1, pos);
    } else {
        assert(rs.take(k) == rs);
    }
}

/// The first setting row holding `pos`.
fn setting_at(items: &Vec<SettingItemModel>, pos: Position) -> (r: Option<Range>)
    ensures
        r == first_holding(setting_ranges(items@), pos),
{
    let ghost rs = setting_ranges(items@);
    let mut i: usize = 0;
    while i < items.len()
        invariant
            i <= items.len(),
            rs == setting_ranges(items@),
            first_holding(rs.take(i as int), pos) is None,
        decreases items.len() - i,
    {
        assert(rs.take(i + 1).drop_last() == rs.take(i as int));
        assert(rs.take(i + 1).last() == rs[i as int]);
        let r = setting_range_of(&items[i]);
        if position_in_range(pos, r) {
            proof {
                lemma_holding_prefix(rs, i as int + 1, pos);
            }
            return Some(r);
        }
        i += 1;
    }
    assert(rs.take(items.len() as int) == rs);
    None
}

proof fn lemma_definitions_prefix(items: Seq<VariableItemModel>, k: int)
    requires
        0 <= k <= items.len(),
    ensures
        definition_ranges(items.take(k)).len() <= definition_ranges(items).len(),
        definition_ranges(items).take(definition_ranges(items.take(k)).len() as int) == definition_ranges(items.take(k)),
    decreases items.len() - k,
{
    if k < items.len() {
        assert(items.take(k + 1).drop_last() == items.take(k));
        lemma_definitions_prefix(items, k + 1);
    } else {
        assert(items.take(k) == items);
    }
}

/// The first variable definition holding `pos`.
fn definition_at(items: &Vec<VariableItemModel>, pos: Position) -> (r: Option<Range>)
    ensures
        r == first_holding(definition_ranges(items@), pos),
{
    let mut i: usize = 0;
    while i < items.len()
        invariant
            i <= items.len(),
            first_holding(definition_ranges(items@.take(i as int)), pos) is None,
        decreases items.len() - i,
    {
        assert(items@.take(i + 1).drop_last() == items@.take(i as int));
        assert(items@.take(i + 1).last() == items@[i as int]);
        let ghost before = definition_ranges(items@.take(i as int));
        if let VariableItemModel::Variable { position, .. } = &items[i] {
            let r = ast_pos_to_range(position);
            if position_in_range(pos, r) {
                proof {
                    let ds = definition_ranges(items@.take(i + 1));
                    assert(ds == before.push(r));
                    assert(ds.drop_last() == before);
                    lemma_definitions_prefix(items@, i as int + 1);
                    let all = definition_ranges(items@);
                    lemma_holding_prefix(all, ds.len() as int, pos);
                }
                return Some(r);
            }
        }
        proof {
            let ds = definition_ranges(items@.take(i + 1));
            if ds.len() > before.len() {
                assert(ds.drop_last() == before);
            } else {
                assert(ds == before);
            }
        }
        i += 1;
    }
    assert(items@.take(items.len() as int) == items@);
    None
}

proof fn lemma_block_prefix(bs: Seq<BlockModel>, k: int, pos: Position, section: Range)
    requires
        0 <= k <= bs.len(),
        block_chain(bs.take(k), pos, section) is Some,
    ensures
        block_chain(bs, pos, section) == block_chain(bs.take(k), pos, section),
    decreases bs.len() - k,
{
    if k < bs.len() {
        assert(bs.take(k + 1).drop_last() == bs.take(k));
        lemma_block_prefix(bs, k + 1, pos, section);
    } else {
        assert(bs.take(k) == bs);
    }
}

fn block_select(bs: &Vec<BlockModel>, pos: Position, section: Range) -> (r: Option<SelectionRange>)
    ensures
        match block_chain(bs@, pos, section) {
            Some(c) => r matches Some(x) && is_chain(x, c),
            None => r is None,
        },
{
    let mut i: usize = 0;
    while i < bs.len()
        invariant
            i <= bs.len(),
            block_chain(bs@.take(i as int), pos, section) is None,
        decreases bs.len() - i,
    {
        assert(bs@.take(i + 1).drop_last() == bs@.take(i as int));
        assert(bs@.take(i + 1).last() == bs@[i as int]);
        let b = &bs[i];
        let be = block_extent_of(b);
        if let Some(inner) = find_body(&b.body, pos) {
            proof {
                lemma_block_prefix(bs@, i as int + 1, pos, section);
            }
            return Some(chain3(inner, be, section));
        }
        if position_in_range(pos, be) {
            proof {
                lemma_block_prefix(bs@, i as int + 1, pos, section);
            }
            return Some(chain2(be, section));
        }
        i += 1;
    }
    assert(bs@.take(bs.len() as int) == bs@);
    None
}

fn item_or_section_of(item: Option<Range>, section: Range, pos: Position) -> (r: Option<SelectionRange>)
    ensures
        match item_or_section(item, section, pos) {
            Some(c) => r matches Some(x) && is_chain(x, c),
            None => r is None,
        },
{
    match item {
        Some(x) => Some(chain2(x, section)),
        None => {
            if position_in_range(pos, section) {
                Some(leaf(section))
            } else {
                None
            }
        },
    }
}

proof fn lemma_sections_prefix(ss: Seq<SectionModel>, k: int, pos: Position)
    requires
        0 <= k <= ss.len(),
        sections_chain(ss.take(k), pos) is Some,
    ensures
        sections_chain(ss, pos) == sections_chain(ss.take(k), pos),
    decreases ss.len() - k,
{
    if k < ss.len() {
        assert(ss.take(k + 1).drop_last() == ss.take(k));
        lemma_sections_prefix(ss, k + 1, pos);
    } else {
        assert(ss.take(k) == ss);
    }
}

fn section_select(s: &SectionModel, pos: Position) -> (r: Option<SelectionRange>)
    ensures
        match section_chain(*s, pos) {
            Some(c) => r matches Some(x) && is_chain(x, c),
            None => r is None,
        },
{
    match section_extent_of(s) {
        None => None,
        Some(e) => match s {
            SectionModel::Settings { body, .. } => item_or_section_of(setting_at(body, pos), e, pos),
            SectionModel::Variables { body, .. } => item_or_section_of(definition_at(body, pos), e, pos),
            SectionModel::TestCases { body, .. } | SectionModel::Tasks { body, .. } | SectionModel::Keywords {
                body,
                ..
            } => match block_select(body, pos, e) {
                Some(x) => Some(x),
                None => item_or_section_of(None, e, pos),
            },
            _ => item_or_section_of(None, e, pos),
        },
    }
}

/// The selection chain for `pos` in `file`: the tightest statement or row
/// holding it, its block, then its section, each holding the one before.
pub fn selection_range_for(file: &FileModel, pos: Position) -> (r: SelectionRange)
    ensures
        is_chain(r, selection_chain(file.sections@, pos)),
        range_holds_closed(r.range, pos),
        nested(selection_chain(file.sections@, pos), pos),
{
    proof {
        lemma_selection_nested(file.sections@, pos);
    }
    let ss = &file.sections;
    let mut k: usize = 0;
    while k < ss.len()
        invariant
            k <= ss.len(),
            ss@ == file.sections@,
            nested(selection_chain(file.sections@, pos), pos),
            sections_chain(ss@.take(k as int), pos) is None,
        decreases ss.len() - k,
    {
        assert(ss@.take(k + 1).drop_last() == ss@.take(k as int));
        assert(ss@.take(k + 1).last() == ss@[k as int]);
        let found = section_select(&ss[k], pos);
        assert(sections_chain(ss@.take(k + 1), pos) == section_chain(ss@[k as int], pos));
        if let Some(x) = found {
            proof {
                lemma_sections_prefix(ss@, k as int + 1, pos);
            }
            return x;
        }
        k += 1;
    }
    assert(ss@.take(ss.len() as int) == ss@);
    leaf(Range { start: pos, end: pos })
}

/// The selection chains for each of `positions`, in order.
pub fn selection_ranges(file: &FileModel, positions: Vec<Position>) -> (r: Vec<SelectionRange>)
    ensures
        r@.len() == positions@.len(),
        forall|i: int|
            0 <= i < r@.len() ==> is_chain(#[trigger] r@[i], selection_chain(file.sections@, positions@[i])) && nested(
                selection_chain(file.sections@, positions@[i]),
                positions@[i],
            ),
{
    let mut r: Vec<SelectionRange> = Vec::new();
    let mut i: usize = 0;
    while i < positions.len()
        invariant
            i <= positions.len(),
            r@.len() == i,
            forall|j: int|
                0 <= j < i ==> is_chain(#[trigger] r@[j], selection_chain(file.sections@, positions@[j])) && nested(
                    selection_chain(file.sections@, positions@[j]),
                    positions@[j],
                ),
        decreases positions.len() - i,
    {
        let x = selection_range_for(file, positions[i]);
        let ghost before = r@;
        r.push(x);
        assert forall|j: int| 0 <= j < i + 1 implies is_chain(#[trigger] r@[j], selection_chain(file.sections@, positions@[j])) && nested(
            selection_chain(file.sections@, positions@[j]),
            positions@[j],
        ) by {
            if j < i {
                assert(r@[j] == before[j]);
            }
        }
        i += 1;
    }
    r
}

} // verus!
