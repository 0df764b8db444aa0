//! Folding ranges of a parsed file: sections, test cases, tasks and
//! keywords, and the control-flow blocks inside them (loops and the
//! branches of `IF` and `TRY`).
use vstd::prelude::*;

use crate::ast::{block_holds, body_holds, branches_hold, item_holds, header_line, lemma_contains_add, section_blocks, body_item_position, body_position_of, BlockModel, BodyItemModel, BranchModel, FileModel, SectionModel, SettingItemModel, VariableItemModel};
use crate::handlers::region;
use crate::lsp_items::{FoldingRange, FoldingRangeKind};

verus! {

// ── Last lines ───────────────────────────────────────────────────────────────

/// The larger of two optional lines.
pub open spec fn opt_max(a: Option<u32>, b: Option<u32>) -> Option<u32> {
    match (a, b) {
        (None, _) => b,
        (_, None) => a,
        (Some(x), Some(y)) => Some(if x >= y { x } else { y }),
    }
}

/// The last line of a body: the largest end line of its items, `None` for
/// an empty body.
pub open spec fn last_body_line(items: Seq<BodyItemModel>) -> Option<u32>
    decreases items,
{
    if items.len() == 0 {
        None
    } else {
        opt_max(last_body_line(items.drop_last()), Some(item_end_line(items.last())))
    }
}

/// The end line of a body item: a loop or a branching block ends with the
/// last line of what it holds, or with its own end line when it holds
/// nothing.
pub open spec fn item_end_line(item: BodyItemModel) -> u32
    decreases item,
{
    match item {
        BodyItemModel::Loop { position, body, .. } => match last_body_line(body@) {
            Some(e) => e,
            None => position.end_line,
        },
        BodyItemModel::Branches { position, branches } => match branches_last_line(branches@) {
            Some(e) => e,
            None => position.end_line,
        },
        _ => body_item_position(item).end_line,
    }
}

/// The last line over the bodies of all of `bs`.
pub open spec fn branches_last_line(bs: Seq<BranchModel>) -> Option<u32>
    decreases bs,
{
    if bs.len() == 0 {
        None
    } else {
        opt_max(branches_last_line(bs.drop_last()), last_body_line(bs.last().body@))
    }
}

// ── Ranges ───────────────────────────────────────────────────────────────────

/// A foldable region from `start` to `end`.
pub open spec fn region_spec(start: u32, end: u32) -> FoldingRange {
    FoldingRange {
        start_line: start,
        start_character: None,
        end_line: end,
        end_character: None,
        kind: Some(FoldingRangeKind::Region),
        collapsed_text: None,
    }
}

/// A region from `start` to `end`, if `end` is known and lies below `start`.
pub open spec fn fold_if(start: u32, end: Option<u32>) -> Seq<FoldingRange> {
    match end {
        Some(e) => if e > start {
            seq![region_spec(start, e)]
        } else {
            Seq::empty()
        },
        None => Seq::empty(),
    }
}

/// The regions inside a body, in order.
pub open spec fn body_ranges(items: Seq<BodyItemModel>) -> Seq<FoldingRange>
    decreases items,
{
    if items.len() == 0 {
        Seq::empty()
    } else {
        body_ranges(items.drop_last()) + item_ranges(items.last())
    }
}

/// The regions of a body item: a loop folds from its first line to the last
/// line of its body, then its body folds; each branch of a branching block
/// does the same.
pub open spec fn item_ranges(item: BodyItemModel) -> Seq<FoldingRange>
    decreases item,
{
    match item {
        BodyItemModel::Loop { position, body, .. } => fold_if(position.line, last_body_line(body@)) + body_ranges(body@),
        BodyItemModel::Branches { branches, .. } => branch_ranges(branches@),
        _ => Seq::empty(),
    }
}

/// The regions of the branches `bs`, in order.
pub open spec fn branch_ranges(bs: Seq<BranchModel>) -> Seq<FoldingRange>
    decreases bs,
{
    if bs.len() == 0 {
        Seq::empty()
    } else {
        branch_ranges(bs.drop_last()) + fold_if(bs.last().position.line, last_body_line(bs.last().body@))
            + body_ranges(bs.last().body@)
    }
}

/// The regions of the blocks of a section: each block folds from its name
/// line to the last line of its body, then its body folds.
pub open spec fn blocks_ranges(bs: Seq<BlockModel>) -> Seq<FoldingRange>
    decreases bs.len(),
{
    if bs.len() == 0 {
        Seq::empty()
    } else {
        blocks_ranges(bs.drop_last()) + fold_if(bs.last().position.line, last_body_line(bs.last().body@))
            + body_ranges(bs.last().body@)
    }
}

/// The largest end line of the items of a settings section.
pub open spec fn settings_last_line(items: Seq<SettingItemModel>) -> Option<u32>
    decreases items.len(),
{
    if items.len() == 0 {
        None
    } else {
        opt_max(settings_last_line(items.drop_last()), Some(setting_position(items.last()).end_line))
    }
}

/// The span of a settings item.
pub open spec fn setting_position(item: SettingItemModel) -> crate::ast::AstPosition {
    match item {
        SettingItemModel::LibraryImport { position, .. } => position,
        SettingItemModel::ResourceImport { position, .. } => position,
        SettingItemModel::VariablesImport { position, .. } => position,
        SettingItemModel::Documentation { position, .. } => position,
        SettingItemModel::Fixture { position, .. } => position,
        SettingItemModel::Metadata { position } => position,
        SettingItemModel::Tags { position, .. } => position,
        SettingItemModel::Comment { position, .. } => position,
        SettingItemModel::Other { position } => position,
    }
}

/// The span of a variables item.
pub open spec fn variable_position(item: VariableItemModel) -> crate::ast::AstPosition {
    match item {
        VariableItemModel::Variable { position, .. } => position,
        VariableItemModel::Comment { position, .. } => position,
        VariableItemModel::Other { position } => position,
    }
}

/// The largest end line of the items of a variables section.
pub open spec fn variables_last_line(items: Seq<VariableItemModel>) -> Option<u32>
    decreases items.len(),
{
    if items.len() == 0 {
        None
    } else {
        opt_max(variables_last_line(items.drop_last()), Some(variable_position(items.last()).end_line))
    }
}

/// A section of blocks folds from its header to the last line of its last
/// block (its name line when its body is empty); then its blocks fold.
pub open spec fn block_section_ranges(header_line: u32, bs: Seq<BlockModel>) -> Seq<FoldingRange> {
    (if bs.len() > 0 {
        fold_if(
            header_line,
            Some(
                match last_body_line(bs.last().body@) {
                    Some(e) => e,
                    None => bs.last().position.line,
                },
            ),
        )
    } else {
        Seq::empty()
    }) + blocks_ranges(bs)
}

/// The comment region from `start` to `end`.
pub open spec fn comment_region(start: u32, end: u32) -> FoldingRange {
    FoldingRange {
        start_line: start,
        start_character: None,
        end_line: end,
        end_character: None,
        kind: Some(FoldingRangeKind::Comment),
        collapsed_text: None,
    }
}

/// The regions of a section.
pub open spec fn section_ranges(s: SectionModel) -> Seq<FoldingRange> {
    match s {
        SectionModel::Settings { header, body } => if body@.len() > 0 {
            fold_if(header.position.line, settings_last_line(body@))
        } else {
            Seq::empty()
        },
        SectionModel::Variables { header, body } => if body@.len() > 0 {
            fold_if(header.position.line, variables_last_line(body@))
        } else {
            Seq::empty()
        },
        SectionModel::TestCases { header, body } => block_section_ranges(header.position.line, body@),
        SectionModel::Tasks { header, body } => block_section_ranges(header.position.line, body@),
        SectionModel::Keywords { header, body } => block_section_ranges(header.position.line, body@),
        SectionModel::Comments { header, body } => if body@.len() > 0 && body@.last().position.end_line
            > header.position.line {
            seq![comment_region(header.position.line, body@.last().position.end_line)]
        } else {
            Seq::empty()
        },
        SectionModel::Invalid => Seq::empty(),
    }
}

/// The folding ranges of the sections `ss`, in order.
pub open spec fn folding_spec(ss: Seq<SectionModel>) -> Seq<FoldingRange>
    decreases ss.len(),
{
    if ss.len() == 0 {
        Seq::empty()
    } else {
        folding_spec(ss.drop_last()) + section_ranges(ss.last())
    }
}

// ── Laws ─────────────────────────────────────────────────────────────────────

/// Every range of `s` starts above the line where it ends.
pub open spec fn all_ordered(s: Seq<FoldingRange>) -> bool {
    forall|i: int| 0 <= i < s.len() ==> (#[trigger] s[i]).start_line < s[i].end_line
}

proof fn lemma_concat_ordered(a: Seq<FoldingRange>, b: Seq<FoldingRange>)
    requires
        all_ordered(a),
        all_ordered(b),
    ensures
        all_ordered(a + b),
{
    assert forall|i: int| 0 <= i < (a + b).len() implies (#[trigger] (a + b)[i]).start_line < (a
        + b)[i].end_line by {
        if i >= a.len() {
            assert((a + b)[i] == b[i - a.len()]);
        }
    }
}

proof fn lemma_body_ordered(items: Seq<BodyItemModel>)
    ensures
        all_ordered(body_ranges(items)),
    decreases items,
{
    if items.len() > 0 {
        lemma_body_ordered(items.drop_last());
        lemma_item_ordered(items.last());
        lemma_concat_ordered(body_ranges(items.drop_last()), item_ranges(items.last()));
    }
}

proof fn lemma_item_ordered(item: BodyItemModel)
    ensures
        all_ordered(item_ranges(item)),
    decreases item,
{
    match item {
        BodyItemModel::Loop { position, body, .. } => {
            lemma_body_ordered(body@);
            lemma_concat_ordered(fold_if(position.line, last_body_line(body@)), body_ranges(body@));
        },
        BodyItemModel::Branches { branches, .. } => {
            lemma_branch_ordered(branches@);
        },
        _ => {},
    }
}

proof fn lemma_branch_ordered(bs: Seq<BranchModel>)
    ensures
        all_ordered(branch_ranges(bs)),
    decreases bs,
{
    if bs.len() > 0 {
        let b = bs.last();
        lemma_branch_ordered(bs.drop_last());
        lemma_body_ordered(b.body@);
        let f = fold_if(b.position.line, last_body_line(b.body@));
        lemma_concat_ordered(branch_ranges(bs.drop_last()), f);
        lemma_concat_ordered(branch_ranges(bs.drop_last()) + f, body_ranges(b.body@));
    }
}

proof fn lemma_blocks_ordered(bs: Seq<BlockModel>)
    ensures
        all_ordered(blocks_ranges(bs)),
    decreases bs.len(),
{
    if bs.len() > 0 {
        let b = bs.last();
        lemma_blocks_ordered(bs.drop_last());
        lemma_body_ordered(b.body@);
        let f = fold_if(b.position.line, last_body_line(b.body@));
        lemma_concat_ordered(blocks_ranges(bs.drop_last()), f);
        lemma_concat_ordered(blocks_ranges(bs.drop_last()) + f, body_ranges(b.body@));
    }
}

/// Every folding range of a file starts above the line where it ends.
pub proof fn lemma_folding_ordered(ss: Seq<SectionModel>)
    ensures
        all_ordered(folding_spec(ss)),
    decreases ss.len(),
{
    if ss.len() > 0 {
        lemma_folding_ordered(ss.drop_last());
        let s = ss.last();
        match s {
            SectionModel::TestCases { header, body } => {
                lemma_blocks_ordered(body@);
            },
            SectionModel::Tasks { header, body } => {
                lemma_blocks_ordered(body@);
            },
            SectionModel::Keywords { header, body } => {
                lemma_blocks_ordered(body@);
            },
            _ => {},
        }
        match s {
            SectionModel::TestCases { header, body } | SectionModel::Tasks { header, body }
            | SectionModel::Keywords { header, body } => {
                let first = if body@.len() > 0 {
                    fold_if(
                        header.position.line,
                        Some(
                            match last_body_line(body@.last().body@) {
                                Some(e) => e,
                                None => body@.last().position.line,
                            },
                        ),
                    )
                } else {
                    Seq::empty()
                };
                lemma_concat_ordered(first, blocks_ranges(body@));
            },
            _ => {},
        }
        lemma_concat_ordered(folding_spec(ss.drop_last()), section_ranges(s));
    }
}

/// Every range of `s` has the kind `k`.
pub open spec fn all_of_kind(s: Seq<FoldingRange>, k: FoldingRangeKind) -> bool {
    forall|i: int| 0 <= i < s.len() ==> (#[trigger] s[i]).kind == Some(k)
}

proof fn lemma_concat_kind(a: Seq<FoldingRange>, b: Seq<FoldingRange>, k: FoldingRangeKind)
    requires
        all_of_kind(a, k),
        all_of_kind(b, k),
    ensures
        all_of_kind(a + b, k),
{
    assert forall|i: int| 0 <= i < (a + b).len() implies (#[trigger] (a + b)[i]).kind == Some(k) by {
        if i >= a.len() {
            assert((a + b)[i] == b[i - a.len()]);
        }
    }
}

proof fn lemma_body_regions(items: Seq<BodyItemModel>)
    ensures
        all_of_kind(body_ranges(items), FoldingRangeKind::Region),
    decreases items,
{
    if items.len() > 0 {
        lemma_body_regions(items.drop_last());
        lemma_item_regions(items.last());
        lemma_concat_kind(body_ranges(items.drop_last()), item_ranges(items.last()), FoldingRangeKind::Region);
    }
}

proof fn lemma_item_regions(item: BodyItemModel)
    ensures
        all_of_kind(item_ranges(item), FoldingRangeKind::Region),
    decreases item,
{
    match item {
        BodyItemModel::Loop { position, body, .. } => {
            lemma_body_regions(body@);
            lemma_concat_kind(fold_if(position.line, last_body_line(body@)), body_ranges(body@), FoldingRangeKind::Region);
        },
        BodyItemModel::Branches { branches, .. } => {
            lemma_branch_regions(branches@);
        },
        _ => {},
    }
}

proof fn lemma_branch_regions(bs: Seq<BranchModel>)
    ensures
        all_of_kind(branch_ranges(bs), FoldingRangeKind::Region),
    decreases bs,
{
    if bs.len() > 0 {
        let b = bs.last();
        lemma_branch_regions(bs.drop_last());
        lemma_body_regions(b.body@);
        let f = fold_if(b.position.line, last_body_line(b.body@));
        lemma_concat_kind(branch_ranges(bs.drop_last()), f, FoldingRangeKind::Region);
        lemma_concat_kind(branch_ranges(bs.drop_last()) + f, body_ranges(b.body@), FoldingRangeKind::Region);
    }
}

proof fn lemma_blocks_regions(bs: Seq<BlockModel>)
    ensures
        all_of_kind(blocks_ranges(bs), FoldingRangeKind::Region),
    decreases bs.len(),
{
    if bs.len() > 0 {
        let b = bs.last();
        lemma_blocks_regions(bs.drop_last());
        lemma_body_regions(b.body@);
        let f = fold_if(b.position.line, last_body_line(b.body@));
        lemma_concat_kind(blocks_ranges(bs.drop_last()), f, FoldingRangeKind::Region);
        lemma_concat_kind(blocks_ranges(bs.drop_last()) + f, body_ranges(b.body@), FoldingRangeKind::Region);
    }
}

/// A comments section folds as a comment; every other section, block and
/// control-flow block folds as a region.
pub proof fn lemma_section_kinds(s: SectionModel)
    ensures
        all_of_kind(
            section_ranges(s),
            if s is Comments {
                FoldingRangeKind::Comment
            } else {
                FoldingRangeKind::Region
            },
        ),
{
    match s {
        SectionModel::TestCases { header, body } | SectionModel::Tasks { header, body }
        | SectionModel::Keywords { header, body } => {
            lemma_blocks_regions(body@);
            let first = if body@.len() > 0 {
                fold_if(
                    header.position.line,
                    Some(
                        match last_body_line(body@.last().body@) {
                            Some(e) => e,
                            None => body@.last().position.line,
                        },
                    ),
                )
            } else {
                Seq::empty()
            };
            lemma_concat_kind(first, blocks_ranges(body@), FoldingRangeKind::Region);
        },
        _ => {},
    }
}

// ── Computation ──────────────────────────────────────────────────────────────

fn max_opt(a: Option<u32>, b: Option<u32>) -> (r: Option<u32>)
    ensures
        r == opt_max(a, b),
{
    match (a, b) {
        (None, _) => b,
        (_, None) => a,
        (Some(x), Some(y)) => Some(if x >= y { x } else { y }),
    }
}

fn last_line_of(items: &Vec<BodyItemModel>) -> (r: Option<u32>)
    ensures
        r == last_body_line(items@),
    decreases items@,
{
    let mut r: Option<u32> = None;
    let mut i: usize = 0;
    while i < items.len()
        invariant
            i <= items.len(),
            r == last_body_line(items@.take(i as int)),
        decreases items.len() - i,
    {
        assert(items@.take(i + 1).drop_last() == items@.take(i as int));
        assert(items@.take(i + 1).last() == items@[i as int]);
        proof {
            assert(decreases_to!(items@ => items@[i as int]));
        }
        let e = end_line_of(&items[i]);
        r = max_opt(r, Some(e));
        i += 1;
    }
    assert(items@.take(items.len() as int) == items@);
    r
}

fn end_line_of(item: &BodyItemModel) -> (r: u32)
    ensures
        r == item_end_line(*item),
    decreases *item,
{
    match item {
        BodyItemModel::Loop { position, body, .. } => {
            proof {
                assert(decreases_to!(*item => body@));
            }
            match last_line_of(body) {
                Some(e) => e,
                None => position.end_line,
            }
        },
        BodyItemModel::Branches { position, branches } => {
            proof {
                assert(decreases_to!(*item => branches@));
            }
            match branches_line_of(branches) {
                Some(e) => e,
                None => position.end_line,
            }
        },
        _ => body_position_of(item).end_line,
    }
}

fn branches_line_of(bs: &Vec<BranchModel>) -> (r: Option<u32>)
    ensures
        r == branches_last_line(bs@),
    decreases bs@,
{
    let mut r: Option<u32> = None;
    let mut i: usize = 0;
    while i < bs.len()
        invariant
            i <= bs.len(),
            r == branches_last_line(bs@.take(i as int)),
        decreases bs.len() - i,
    {
        assert(bs@.take(i + 1).drop_last() == bs@.take(i as int));
        assert(bs@.take(i + 1).last() == bs@[i as int]);
        proof {
            assert(decreases_to!(bs@ => bs@[i as int].body@));
        }
        let e = last_line_of(&bs[i].body);
        r = max_opt(r, e);
        i += 1;
    }
    assert(bs@.take(bs.len() as int) == bs@);
    r
}

fn push_fold(out: &mut Vec<FoldingRange>, start: u32, end: Option<u32>)
    ensures
        final(out)@ == old(out)@ + fold_if(start, end),
{
    if let Some(e) = end {
        if e > start {
            out.push(region(start, e));
        }
    }
}

fn collect_body_ranges(items: &Vec<BodyItemModel>, out: &mut Vec<FoldingRange>)
    ensures
        final(out)@ == old(out)@ + body_ranges(items@),
    decreases items@,
{
    let ghost o = out@;
    let mut i: usize = 0;
    while i < items.len()
        invariant
            i <= items.len(),
            out@ == o + body_ranges(items@.take(i as int)),
        decreases items.len() - i,
    {
        assert(items@.take(i + 1).drop_last() == items@.take(i as int));
        assert(items@.take(i + 1).last() == items@[i as int]);
        let ghost before = out@;
        match &items[i] {
            BodyItemModel::Loop { position, body, .. } => {
                proof {
                    assert(decreases_to!(items@ => body@));
                }
                let end = last_line_of(body);
                push_fold(out, position.line, end);
                collect_body_ranges(body, out);
            },
            BodyItemModel::Branches { branches, .. } => {
                proof {
                    assert(decreases_to!(items@ => branches@));
                }
                collect_branch_ranges(branches, out);
            },
            _ => {},
        }
        assert(out@ == before + item_ranges(items@[i as int]));
        i += 1;
    }
    assert(items@.take(items.len() as int) == items@);
}

fn collect_branch_ranges(bs: &Vec<BranchModel>, out: &mut Vec<FoldingRange>)
    ensures
        final(out)@ == old(out)@ + branch_ranges(bs@),
    decreases bs@,
{
    let ghost o = out@;
    let mut i: usize = 0;
    while i < bs.len()
        invariant
            i <= bs.len(),
            out@ == o + branch_ranges(bs@.take(i as int)),
        decreases bs.len() - i,
    {
        assert(bs@.take(i + 1).drop_last() == bs@.take(i as int));
        assert(bs@.take(i + 1).last() == bs@[i as int]);
        let b = &bs[i];
        proof {
            assert(decreases_to!(bs@ => bs@[i as int].body@));
        }
        let end = last_line_of(&b.body);
        push_fold(out, b.position.line, end);
        collect_body_ranges(&b.body, out);
        i += 1;
    }
    assert(bs@.take(bs.len() as int) == bs@);
}

fn collect_blocks(bs: &Vec<BlockModel>, out: &mut Vec<FoldingRange>)
    ensures
        final(out)@ == old(out)@ + blocks_ranges(bs@),
{
    let ghost o = out@;
    let mut i: usize = 0;
    while i < bs.len()
        invariant
            i <= bs.len(),
            out@ == o + blocks_ranges(bs@.take(i as int)),
        decreases bs.len() - i,
    {
        assert(bs@.take(i + 1).drop_last() == bs@.take(i as int));
        assert(bs@.take(i + 1).last() == bs@[i as int]);
        let b = &bs[i];
        let end = last_line_of(&b.body);
        push_fold(out, b.position.line, end);
        collect_body_ranges(&b.body, out);
        i += 1;
    }
    assert(bs@.take(bs.len() as int) == bs@);
}

fn collect_block_section(header_line: u32, bs: &Vec<BlockModel>, out: &mut Vec<FoldingRange>)
    ensures
        final(out)@ == old(out)@ + block_section_ranges(header_line, bs@),
{
    let ghost o = out@;
    if bs.len() > 0 {
        let last = &bs[bs.len() - 1];
        let end = match last_line_of(&last.body) {
            Some(e) => e,
            None => last.position.line,
        };
        push_fold(out, header_line, Some(end));
    }
    let ghost mid = out@;
    collect_blocks(bs, out);
}

/// The folding ranges of `file`.
pub fn folding_ranges(file: &FileModel) -> (r: Vec<FoldingRange>)
    ensures
        r@ == folding_spec(file.sections@),
        forall|i: int| 0 <= i < r@.len() ==> (#[trigger] r@[i]).start_line < r@[i].end_line,
{
    proof {
        lemma_folding_ordered(file.sections@);
    }
    let ss = &file.sections;
    let mut r: Vec<FoldingRange> = Vec::new();
    let mut k: usize = 0;
    while k < ss.len()
        invariant
            k <= ss.len(),
            r@ == folding_spec(ss@.take(k as int)),
        decreases ss.len() - k,
    {
        assert(ss@.take(k + 1).drop_last() == ss@.take(k as int));
        assert(ss@.take(k + 1).last() == ss@[k as int]);
        let ghost before = r@;
        match &ss[k] {
            SectionModel::Settings { header, body } => {
                if body.len() > 0 {
                    let mut end: Option<u32> = None;
                    let mut i: usize = 0;
                    while i < body.len()
                        invariant
                            i <= body.len(),
                            end == settings_last_line(body@.take(i as int)),
                        decreases body.len() - i,
                    {
                        assert(body@.take(i + 1).drop_last() == body@.take(i as int));
                        assert(body@.take(i + 1).last() == body@[i as int]);
                        let p = match &body[i] {
                            SettingItemModel::LibraryImport { position, .. } => position.end_line,
                            SettingItemModel::ResourceImport { position, .. } => position.end_line,
                            SettingItemModel::VariablesImport { position, .. } => position.end_line,
                            SettingItemModel::Documentation { position, .. } => position.end_line,
                            SettingItemModel::Fixture { position, .. } => position.end_line,
                            SettingItemModel::Metadata { position } => position.end_line,
                            SettingItemModel::Tags { position, .. } => position.end_line,
                            SettingItemModel::Comment { position, .. } => position.end_line,
                            SettingItemModel::Other { position } => position.end_line,
                        };
                        end = max_opt(end, Some(p));
                        i += 1;
                    }
                    assert(body@.take(body.len() as int) == body@);
                    push_fold(&mut r, header.position.line, end);
                }
            },
            SectionModel::Variables { header, body } => {
                if body.len() > 0 {
                    let mut end: Option<u32> = None;
                    let mut i: usize = 0;
                    while i < body.len()
                        invariant
                            i <= body.len(),
                            end == variables_last_line(body@.take(i as int)),
                        decreases body.len() - i,
                    {
                        assert(body@.take(i + 1).drop_last() == body@.take(i as int));
                        assert(body@.take(i + 1).last() == body@[i as int]);
                        let p = match &body[i] {
                            VariableItemModel::Variable { position, .. } => position.end_line,
                            VariableItemModel::Comment { position, .. } => position.end_line,
                            VariableItemModel::Other { position } => position.end_line,
                        };
                        end = max_opt(end, Some(p));
                        i += 1;
                    }
                    assert(body@.take(body.len() as int) == body@);
                    push_fold(&mut r, header.position.line, end);
                }
            },
            SectionModel::TestCases { header, body } => collect_block_section(header.position.line, body, &mut r),
            SectionModel::Tasks { header, body } => collect_block_section(header.position.line, body, &mut r),
            SectionModel::Keywords { header, body } => collect_block_section(header.position.line, body, &mut r),
            SectionModel::Comments { header, body } => {
                if body.len() > 0 {
                    let end = body[body.len() - 1].position.end_line;
                    if end > header.position.line {
                        r.push(
                            FoldingRange {
                                start_line: header.position.line,
                                start_character: None,
                                end_line: end,
                                end_character: None,
                                kind: Some(FoldingRangeKind::Comment),
                                collapsed_text: None,
                            },
                        );
                    }
                }
            },
            SectionModel::Invalid => {},
        }
        assert(r@ == before + section_ranges(ss@[k as int]));
        k += 1;
    }
    assert(ss@.take(ss.len() as int) == ss@);
    r
}

// ── The fold of a section of blocks ──────────────────────────────────────────

proof fn lemma_folding_has_section(ss: Seq<SectionModel>, k: int, r: FoldingRange)
    requires
        0 <= k < ss.len(),
        section_ranges(ss[k]).contains(r),
    ensures
        folding_spec(ss).contains(r),
    decreases ss.len(),
{
    if k < ss.len() - 1 {
        assert(ss.drop_last()[k] == ss[k]);
        lemma_folding_has_section(ss.drop_last(), k, r);
        lemma_contains_add(folding_spec(ss.drop_last()), section_ranges(ss.last()), r);
    } else {
        lemma_contains_add(folding_spec(ss.drop_last()), section_ranges(ss.last()), r);
    }
}

/// The fold of a section of test cases, tasks or keywords covers all of its
/// blocks: it runs from the header line to the end of the section's last
/// block, that is the last line of that block's body, or the block's name
/// line when its body is empty (when that lies below the header).
pub proof fn lemma_block_section_fold(ss: Seq<SectionModel>, k: int)
    requires
        0 <= k < ss.len(),
        section_blocks(ss[k]).len() > 0,
    ensures
        ({
            let b = section_blocks(ss[k]).last();
            let e = match last_body_line(b.body@) {
                Some(e) => e,
                None => b.position.line,
            };
            e > header_line(ss[k]) ==> folding_spec(ss).contains(region_spec(header_line(ss[k]), e))
        }),
{
    let bs = section_blocks(ss[k]);
    let b = bs.last();
    let e = match last_body_line(b.body@) {
        Some(e) => e,
        None => b.position.line,
    };
    let h = header_line(ss[k]);
    if e > h {
        let first = fold_if(h, Some(e));
        assert(first == seq![region_spec(h, e)]);
        assert(first.contains(region_spec(h, e))) by {
            assert(first[0] == region_spec(h, e));
        }
        lemma_contains_add(first, blocks_ranges(bs), region_spec(h, e));
        assert(section_ranges(ss[k]) == first + blocks_ranges(bs));
        lemma_folding_has_section(ss, k, region_spec(h, e));
    }
}

// ── Every block, loop and branch folds ───────────────────────────────────────

proof fn lemma_item_ranges_hold(item: BodyItemModel, x: BodyItemModel, r: FoldingRange)
    requires
        item_holds(item, x),
        item_ranges(x).contains(r),
    ensures
        item_ranges(item).contains(r),
    decreases item,
{
    if item != x {
        match item {
            BodyItemModel::Loop { position, body, .. } => {
                lemma_body_ranges_hold(body@, x, r);
                lemma_contains_add(fold_if(position.line, last_body_line(body@)), body_ranges(body@), r);
            },
            BodyItemModel::Branches { branches, .. } => {
                lemma_branch_ranges_hold(branches@, x, r);
            },
            _ => {},
        }
    }
}

proof fn lemma_body_ranges_hold(items: Seq<BodyItemModel>, x: BodyItemModel, r: FoldingRange)
    requires
        body_holds(items, x),
        item_ranges(x).contains(r),
    ensures
        body_ranges(items).contains(r),
    decreases items,
{
    if body_holds(items.drop_last(), x) {
        lemma_body_ranges_hold(items.drop_last(), x, r);
    } else {
        lemma_item_ranges_hold(items.last(), x, r);
    }
    lemma_contains_add(body_ranges(items.drop_last()), item_ranges(items.last()), r);
}

proof fn lemma_branch_ranges_hold(bs: Seq<BranchModel>, x: BodyItemModel, r: FoldingRange)
    requires
        branches_hold(bs, x),
        item_ranges(x).contains(r),
    ensures
        branch_ranges(bs).contains(r),
    decreases bs,
{
    let b = bs.last();
    let head = branch_ranges(bs.drop_last()) + fold_if(b.position.line, last_body_line(b.body@));
    if branches_hold(bs.drop_last(), x) {
        lemma_branch_ranges_hold(bs.drop_last(), x, r);
        lemma_contains_add(branch_ranges(bs.drop_last()), fold_if(b.position.line, last_body_line(b.body@)), r);
    } else {
        lemma_body_ranges_hold(b.body@, x, r);
    }
    lemma_contains_add(head, body_ranges(b.body@), r);
}

proof fn lemma_branch_fold_in(bs: Seq<BranchModel>, i: int, r: FoldingRange)
    requires
        0 <= i < bs.len(),
        fold_if(bs[i].position.line, last_body_line(bs[i].body@)).contains(r),
    ensures
        branch_ranges(bs).contains(r),
    decreases bs.len(),
{
    let b = bs.last();
    let head = branch_ranges(bs.drop_last()) + fold_if(b.position.line, last_body_line(b.body@));
    if i < bs.len() - 1 {
        assert(bs.drop_last()[i] == bs[i]);
        lemma_branch_fold_in(bs.drop_last(), i, r);
    }
    lemma_contains_add(branch_ranges(bs.drop_last()), fold_if(b.position.line, last_body_line(b.body@)), r);
    lemma_contains_add(head, body_ranges(b.body@), r);
}

proof fn lemma_blocks_ranges_hold(bs: Seq<BlockModel>, j: int, r: FoldingRange)
    requires
        0 <= j < bs.len(),
        (fold_if(bs[j].position.line, last_body_line(bs[j].body@)) + body_ranges(bs[j].body@)).contains(r),
    ensures
        blocks_ranges(bs).contains(r),
    decreases bs.len(),
{
    let b = bs.last();
    if j < bs.len() - 1 {
        assert(bs.drop_last()[j] == bs[j]);
        lemma_blocks_ranges_hold(bs.drop_last(), j, r);
        lemma_contains_add(blocks_ranges(bs.drop_last()), fold_if(b.position.line, last_body_line(b.body@)), r);
        lemma_contains_add(
            blocks_ranges(bs.drop_last()) + fold_if(b.position.line, last_body_line(b.body@)),
            body_ranges(b.body@),
            r,
        );
    } else {
        let a = blocks_ranges(bs.drop_last());
        let f = fold_if(b.position.line, last_body_line(b.body@));
        let c = body_ranges(b.body@);
        assert(a + f + c == a + (f + c));
        lemma_contains_add(a, f + c, r);
    }
}

proof fn lemma_section_block_range(ss: Seq<SectionModel>, k: int, j: int, r: FoldingRange)
    requires
        0 <= k < ss.len(),
        0 <= j < section_blocks(ss[k]).len(),
        (fold_if(section_blocks(ss[k])[j].position.line, last_body_line(section_blocks(ss[k])[j].body@))
            + body_ranges(section_blocks(ss[k])[j].body@)).contains(r),
    ensures
        folding_spec(ss).contains(r),
{
    let bs = section_blocks(ss[k]);
    lemma_blocks_ranges_hold(bs, j, r);
    let first = if bs.len() > 0 {
        fold_if(
            header_line(ss[k]),
            Some(
                match last_body_line(bs.last().body@) {
                    Some(e) => e,
                    None => bs.last().position.line,
                },
            ),
        )
    } else {
        Seq::empty()
    };
    lemma_contains_add(first, blocks_ranges(bs), r);
    assert(section_ranges(ss[k]) == first + blocks_ranges(bs));
    lemma_folding_has_section(ss, k, r);
}

/// Every test case, task and keyword folds from its name line to the last
/// line of its body, when that lies below its name line.
pub proof fn lemma_block_folds(ss: Seq<SectionModel>, k: int, j: int)
    requires
        0 <= k < ss.len(),
        0 <= j < section_blocks(ss[k]).len(),
    ensures
        ({
            let b = section_blocks(ss[k])[j];
            last_body_line(b.body@) matches Some(e) ==> (e > b.position.line ==> folding_spec(ss).contains(
                region_spec(b.position.line, e),
            ))
        }),
{
    let b = section_blocks(ss[k])[j];
    if let Some(e) = last_body_line(b.body@) {
        if e > b.position.line {
            let f = fold_if(b.position.line, last_body_line(b.body@));
            assert(f[0] == region_spec(b.position.line, e));
            lemma_contains_add(f, body_ranges(b.body@), region_spec(b.position.line, e));
            lemma_section_block_range(ss, k, j, region_spec(b.position.line, e));
        }
    }
}

/// Every loop, at any depth inside a test case, task or keyword, folds from
/// its first line to the last line of its body, when that lies below.
pub proof fn lemma_loop_folds(ss: Seq<SectionModel>, k: int, j: int, x: BodyItemModel)
    requires
        block_holds(ss, k, j, x),
    ensures
        x matches BodyItemModel::Loop { position, body, .. } ==> (last_body_line(body@) matches Some(e) ==> (e
            > position.line ==> folding_spec(ss).contains(region_spec(position.line, e)))),
{
    if let BodyItemModel::Loop { position, body, .. } = x {
        if let Some(e) = last_body_line(body@) {
            if e > position.line {
                let f = fold_if(position.line, last_body_line(body@));
                assert(f[0] == region_spec(position.line, e));
                lemma_contains_add(f, body_ranges(body@), region_spec(position.line, e));
                let b = section_blocks(ss[k])[j];
                lemma_body_ranges_hold(b.body@, x, region_spec(position.line, e));
                lemma_contains_add(fold_if(b.position.line, last_body_line(b.body@)), body_ranges(b.body@), region_spec(position.line, e));
                lemma_section_block_range(ss, k, j, region_spec(position.line, e));
            }
        }
    }
}

/// Every branch of an `IF` or `TRY` block, at any depth inside a test
/// case, task or keyword, folds from its marker line to the last line of
/// its body, when that lies below.
pub proof fn lemma_branch_folds(ss: Seq<SectionModel>, k: int, j: int, x: BodyItemModel, i: int)
    requires
        block_holds(ss, k, j, x),
    ensures
        x matches BodyItemModel::Branches { branches, .. } ==> (0 <= i < branches@.len() ==> (last_body_line(
            branches@[i].body@,
        ) matches Some(e) ==> (e > branches@[i].position.line ==> folding_spec(ss).contains(
            region_spec(branches@[i].position.line, e),
        )))),
{
    if let BodyItemModel::Branches { branches, .. } = x {
        if 0 <= i < branches@.len() {
            let br = branches@[i];
            if let Some(e) = last_body_line(br.body@) {
                if e > br.position.line {
                    let r = region_spec(br.position.line, e);
                    let f = fold_if(br.position.line, last_body_line(br.body@));
                    assert(f[0] == r);
                    lemma_branch_fold_in(branches@, i, r);
                    let b = section_blocks(ss[k])[j];
                    lemma_body_ranges_hold(b.body@, x, r);
                    lemma_contains_add(fold_if(b.position.line, last_body_line(b.body@)), body_ranges(b.body@), r);
                    lemma_section_block_range(ss, k, j, r);
                }
            }
        }
    }
}

} // verus!
