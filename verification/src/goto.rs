//! Go to definition: from a keyword call to the keyword's definition, in
//! the file or where the namespace found it, and from a variable to its
//! definition in a variables section or in a keyword's `[Arguments]`.
use vstd::prelude::*;

use crate::ast::{block_holds, body_holds, branches_hold, item_holds, section_blocks, ast_pos_to_range, ast_range, BlockModel, BodyItemModel, BranchModel, FileModel, SectionModel, VariableItemModel};
use crate::keywords::{normalize_var_name, normalized_var_name};
use crate::lsp::{position_in_range, range_holds_closed, Position, Range};
use crate::lsp_items::Location;
use crate::path::utf8_byte_len;
use crate::text::{str_eq, utf8_len_seq};
use crate::uri::{url_from_file_path, url_text_of_path};

verus! {

/// What a position in a file points at.
#[derive(Debug, Clone, PartialEq, Eq)]
pub enum DefinitionToken {
    /// The name of a called keyword.
    Keyword(String),
    /// A defined variable, by its normalized name.
    Variable(String),
}

/// Where the namespace (the libraries and resources a file imports) found a
/// keyword: its source file, when it has one, and its one-based line.
#[derive(Debug, Clone)]
pub struct KeywordSourceModel {
    pub source: Option<String>,
    pub line_no: Option<u32>,
}

// ── The token at a position ──────────────────────────────────────────────────

/// `pos` lies on the name of the keyword call at `position` named `name`:
/// on its line, from its column to the byte length of the name after it.
pub open spec fn on_call_name(position: crate::ast::AstPosition, name: Seq<char>, pos: Position) -> bool {
    position.line == pos.line && position.column <= pos.character && pos.character <= position.column
        + utf8_len_seq(name)
}

/// The name of the first keyword call of `items` under `pos`, looking inside
/// loops and branches.
pub open spec fn call_at(items: Seq<BodyItemModel>, pos: Position) -> Option<Seq<char>>
    decreases items,
{
    if items.len() == 0 {
        None
    } else {
        match call_at(items.drop_last(), pos) {
            Some(n) => Some(n),
            None => call_at_item(items.last(), pos),
        }
    }
}

/// The name of the keyword call of `item` under `pos`.
pub open spec fn call_at_item(item: BodyItemModel, pos: Position) -> Option<Seq<char>>
    decreases item,
{
    match item {
        BodyItemModel::KeywordCall { name, position, .. } => if on_call_name(position, name@, pos) {
            Some(name@)
        } else {
            None
        },
        BodyItemModel::Loop { body, .. } => call_at(body@, pos),
        BodyItemModel::Branches { branches, .. } => call_at_branches(branches@, pos),
        _ => None,
    }
}

/// The name of the first keyword call under `pos` in the bodies of `bs`.
pub open spec fn call_at_branches(bs: Seq<BranchModel>, pos: Position) -> Option<Seq<char>>
    decreases bs,
{
    if bs.len() == 0 {
        None
    } else {
        match call_at_branches(bs.drop_last(), pos) {
            Some(n) => Some(n),
            None => call_at(bs.last().body@, pos),
        }
    }
}

/// The name of the first keyword call under `pos` in the bodies of `bs`.
pub open spec fn call_at_blocks(bs: Seq<BlockModel>, pos: Position) -> Option<Seq<char>>
    decreases bs.len(),
{
    if bs.len() == 0 {
        None
    } else {
        match call_at_blocks(bs.drop_last(), pos) {
            Some(n) => Some(n),
            None => call_at(bs.last().body@, pos),
        }
    }
}

/// The normalized name of the first variable definition of `items` whose
/// span holds `pos`.
pub open spec fn variable_at(items: Seq<VariableItemModel>, pos: Position) -> Option<Seq<char>>
    decreases items.len(),
{
    if items.len() == 0 {
        None
    } else {
        match variable_at(items.drop_last(), pos) {
            Some(n) => Some(n),
            None => match items.last() {
                VariableItemModel::Variable { name, position, .. } => if range_holds_closed(ast_range(position), pos) {
                    Some(normalized_var_name(name@))
                } else {
                    None
                },
                _ => None,
            },
        }
    }
}

/// A token as plain values: `(true, name)` for a keyword, `(false,
/// normalized name)` for a variable.
pub type TokenView = (bool, Seq<char>);

/// The token a section gives for `pos`.
pub open spec fn section_token(s: SectionModel, pos: Position) -> Option<TokenView> {
    match s {
        SectionModel::TestCases { body, .. } => match call_at_blocks(body@, pos) {
            Some(n) => Some((true, n)),
            None => None,
        },
        SectionModel::Tasks { body, .. } => match call_at_blocks(body@, pos) {
            Some(n) => Some((true, n)),
            None => None,
        },
        SectionModel::Keywords { body, .. } => match call_at_blocks(body@, pos) {
            Some(n) => Some((true, n)),
            None => None,
        },
        SectionModel::Variables { body, .. } => match variable_at(body@, pos) {
            Some(n) => Some((false, n)),
            None => None,
        },
        _ => None,
    }
}

/// What `pos` points at: the token of the first section that gives one.
pub open spec fn token_at(ss: Seq<SectionModel>, pos: Position) -> Option<TokenView>
    decreases ss.len(),
{
    if ss.len() == 0 {
        None
    } else {
        match token_at(ss.drop_last(), pos) {
            Some(t) => Some(t),
            None => section_token(ss.last(), pos),
        }
    }
}

/// A token as plain values.
pub open spec fn token_view(t: DefinitionToken) -> TokenView {
    match t {
        DefinitionToken::Keyword(n) => (true, n@),
        DefinitionToken::Variable(n) => (false, n@),
    }
}

// ── Definitions ──────────────────────────────────────────────────────────────

/// The span of the first keyword of the keyword sections of `ss` named
/// exactly `name`.
pub open spec fn local_keyword(ss: Seq<SectionModel>, name: Seq<char>) -> Option<Range>
    decreases ss.len(),
{
    if ss.len() == 0 {
        None
    } else {
        match local_keyword(ss.drop_last(), name) {
            Some(r) => Some(r),
            None => match ss.last() {
                SectionModel::Keywords { body, .. } => keyword_named(body@, name),
                _ => None,
            },
        }
    }
}

/// The span of the first of `bs` named exactly `name`.
pub open spec fn keyword_named(bs: Seq<BlockModel>, name: Seq<char>) -> Option<Range>
    decreases bs.len(),
{
    if bs.len() == 0 {
        None
    } else {
        match keyword_named(bs.drop_last(), name) {
            Some(r) => Some(r),
            None => if bs.last().name@ == name {
                Some(ast_range(bs.last().position))
            } else {
                None
            },
        }
    }
}

/// The span of the first variable definition of the variables sections of
/// `ss` whose normalized name is `norm`.
pub open spec fn defined_variable(ss: Seq<SectionModel>, norm: Seq<char>) -> Option<Range>
    decreases ss.len(),
{
    if ss.len() == 0 {
        None
    } else {
        match defined_variable(ss.drop_last(), norm) {
            Some(r) => Some(r),
            None => match ss.last() {
                SectionModel::Variables { body, .. } => variable_named(body@, norm),
                _ => None,
            },
        }
    }
}

/// The span of the first variable of `items` whose normalized name is
/// `norm`.
pub open spec fn variable_named(items: Seq<VariableItemModel>, norm: Seq<char>) -> Option<Range>
    decreases items.len(),
{
    if items.len() == 0 {
        None
    } else {
        match variable_named(items.drop_last(), norm) {
            Some(r) => Some(r),
            None => match items.last() {
                VariableItemModel::Variable { name, position, .. } => if normalized_var_name(name@) == norm {
                    Some(ast_range(position))
                } else {
                    None
                },
                _ => None,
            },
        }
    }
}

/// Some argument of `args` has the normalized name `norm`.
pub open spec fn has_argument(args: Seq<String>, norm: Seq<char>) -> bool {
    exists|j: int| 0 <= j < args.len() && normalized_var_name((#[trigger] args[j])@) == norm
}

/// The span of the first `[Arguments]` item among `items` that names an
/// argument `norm`.
pub open spec fn arguments_in(items: Seq<BodyItemModel>, norm: Seq<char>) -> Option<Range>
    decreases items.len(),
{
    if items.len() == 0 {
        None
    } else {
        match arguments_in(items.drop_last(), norm) {
            Some(r) => Some(r),
            None => match items.last() {
                BodyItemModel::Arguments { args, position } => if has_argument(args@, norm) {
                    Some(ast_range(position))
                } else {
                    None
                },
                _ => None,
            },
        }
    }
}

/// The `[Arguments]` span of the first keyword of `bs` naming `norm`.
pub open spec fn arguments_in_blocks(bs: Seq<BlockModel>, norm: Seq<char>) -> Option<Range>
    decreases bs.len(),
{
    if bs.len() == 0 {
        None
    } else {
        match arguments_in_blocks(bs.drop_last(), norm) {
            Some(r) => Some(r),
            None => arguments_in(bs.last().body@, norm),
        }
    }
}

/// The `[Arguments]` span in the keyword sections of `ss` naming `norm`.
pub open spec fn keyword_argument(ss: Seq<SectionModel>, norm: Seq<char>) -> Option<Range>
    decreases ss.len(),
{
    if ss.len() == 0 {
        None
    } else {
        match keyword_argument(ss.drop_last(), norm) {
            Some(r) => Some(r),
            None => match ss.last() {
                SectionModel::Keywords { body, .. } => arguments_in_blocks(body@, norm),
                _ => None,
            },
        }
    }
}

/// A location as plain values: the document's URI and the range.
pub type LocationView = (Seq<char>, Range);

/// Where the namespace's keyword is defined: the start of its line (one
/// less than its one-based line, `1` when it has none) in the file URI of
/// its source; nothing without a source or when the source is no path a
/// URL can be made of.
pub open spec fn namespace_location(k: Option<KeywordSourceModel>) -> Option<LocationView> {
    match k {
        Some(kw) => match kw.source {
            Some(src) => match url_from_file_path(src@) {
                Some(u) => {
                    let n = match kw.line_no {
                        Some(l) => l,
                        None => 1u32,
                    };
                    let line: u32 = if n >= 1 { (n - 1) as u32 } else { 0u32 };
                    Some(
                        (
                            u,
                            Range {
                                start: Position { line, character: 0 },
                                end: Position { line, character: 0 },
                            },
                        ),
                    )
                },
                None => None,
            },
            None => None,
        },
        None => None,
    }
}

/// The definition of what `pos` points at in the document `uri`, given what
/// the namespace found for the keyword there (`ns_keyword`): a keyword is
/// looked for among the file's keywords first, then in the namespace; a
/// variable among the file's variables, then among its keywords'
/// arguments.
pub open spec fn definition_spec(
    ss: Seq<SectionModel>,
    ns_keyword: Option<KeywordSourceModel>,
    uri: Seq<char>,
    pos: Position,
) -> Option<LocationView> {
    match token_at(ss, pos) {
        Some((true, name)) => match local_keyword(ss, name) {
            Some(r) => Some((uri, r)),
            None => namespace_location(ns_keyword),
        },
        Some((false, norm)) => match defined_variable(ss, norm) {
            Some(r) => Some((uri, r)),
            None => match keyword_argument(ss, norm) {
                Some(r) => Some((uri, r)),
                None => None,
            },
        },
        None => None,
    }
}

// ── Computation ──────────────────────────────────────────────────────────────

fn call_in_body(items: &Vec<BodyItemModel>, pos: Position) -> (r: Option<String>)
    ensures
        match call_at(items@, pos) {
            Some(n) => r matches Some(s) && s@ == n,
            None => r is None,
        },
    decreases items@,
{
    let mut i: usize = 0;
    while i < items.len()
        invariant
            i <= items.len(),
            call_at(items@.take(i as int), pos) is None,
        decreases items.len() - i,
    {
        assert(items@.take(i + 1).drop_last() == items@.take(i as int));
        assert(items@.take(i + 1).last() == items@[i as int]);
        proof {
            assert(decreases_to!(items@ => items@[i as int]));
        }
        let f = call_in_item(&items[i], pos);
        if f.is_some() {
            proof {
                lemma_call_prefix(items@, i as int + 1, pos);
            }
            return f;
        }
        i += 1;
    }
    assert(items@.take(items.len() as int) == items@);
    None
}

proof fn lemma_call_prefix(items: Seq<BodyItemModel>, k: int, pos: Position)
    requires
        0 <= k <= items.len(),
        call_at(items.take(k), pos) is Some,
    ensures
        call_at(items, pos) == call_at(items.take(k), pos),
    decreases items.len() - k,
{
    if k < items.len() {
        assert(items.take(k + 1).drop_last() == items.take(k));
        lemma_call_prefix(items, k + 1, pos);
    } else {
        assert(items.take(k) == items);
    }
}

proof fn lemma_call_branches_prefix(bs: Seq<BranchModel>, k: int, pos: Position)
    requires
        0 <= k <= bs.len(),
        call_at_branches(bs.take(k), pos) is Some,
    ensures
        call_at_branches(bs, pos) == call_at_branches(bs.take(k), pos),
    decreases bs.len() - k,
{
    if k < bs.len() {
        assert(bs.take(k + 1).drop_last() == bs.take(k));
        lemma_call_branches_prefix(bs, k + 1, pos);
    } else {
        assert(bs.take(k) == bs);
    }
}

proof fn lemma_call_blocks_prefix(bs: Seq<BlockModel>, k: int, pos: Position)
    requires
        0 <= k <= bs.len(),
        call_at_blocks(bs.take(k), pos) is Some,
    ensures
        call_at_blocks(bs, pos) == call_at_blocks(bs.take(k), pos),
    decreases bs.len() - k,
{
    if k < bs.len() {
        assert(bs.take(k + 1).drop_last() == bs.take(k));
        lemma_call_blocks_prefix(bs, k + 1, pos);
    } else {
        assert(bs.take(k) == bs);
    }
}

fn call_in_item(item: &BodyItemModel, pos: Position) -> (r: Option<String>)
    ensures
        match call_at_item(*item, pos) {
            Some(n) => r matches Some(s) && s@ == n,
            None => r is None,
        },
    decreases *item,
{
    match item {
        BodyItemModel::KeywordCall { name, position, .. } => {
            if position.line == pos.line {
                let len = utf8_byte_len(name.as_str());
                if position.column <= pos.character && ((pos.character - position.column) as u128) <= len {
                    return Some(name.clone());
                }
            }
            None
        },
        BodyItemModel::Loop { body, .. } => {
            proof {
                assert(decreases_to!(*item => body@));
            }
            call_in_body(body, pos)
        },
        BodyItemModel::Branches { branches, .. } => {
            proof {
                assert(decreases_to!(*item => branches@));
            }
            call_in_branches(branches, pos)
        },
        _ => None,
    }
}

fn call_in_branches(bs: &Vec<BranchModel>, pos: Position) -> (r: Option<String>)
    ensures
        match call_at_branches(bs@, pos) {
            Some(n) => r matches Some(s) && s@ == n,
            None => r is None,
        },
    decreases bs@,
{
    let mut i: usize = 0;
    while i < bs.len()
        invariant
            i <= bs.len(),
            call_at_branches(bs@.take(i as int), pos) is None,
        decreases bs.len() - i,
    {
        assert(bs@.take(i + 1).drop_last() == bs@.take(i as int));
        assert(bs@.take(i + 1).last() == bs@[i as int]);
        proof {
            assert(decreases_to!(bs@ => bs@[i as int].body@));
        }
        let f = call_in_body(&bs[i].body, pos);
        if f.is_some() {
            proof {
                lemma_call_branches_prefix(bs@, i as int + 1, pos);
            }
            return f;
        }
        i += 1;
    }
    assert(bs@.take(bs.len() as int) == bs@);
    None
}

fn call_in_blocks(bs: &Vec<BlockModel>, pos: Position) -> (r: Option<String>)
    ensures
        match call_at_blocks(bs@, pos) {
            Some(n) => r matches Some(s) && s@ == n,
            None => r is None,
        },
{
    let mut i: usize = 0;
    while i < bs.len()
        invariant
            i <= bs.len(),
            call_at_blocks(bs@.take(i as int), pos) is None,
        decreases bs.len() - i,
    {
        assert(bs@.take(i + 1).drop_last() == bs@.take(i as int));
        assert(bs@.take(i + 1).last() == bs@[i as int]);
        let f = call_in_body(&bs[i].body, pos);
        if f.is_some() {
            proof {
                lemma_call_blocks_prefix(bs@, i as int + 1, pos);
            }
            return f;
        }
        i += 1;
    }
    assert(bs@.take(bs.len() as int) == bs@);
    None
}

pub(crate) fn variable_in(items: &Vec<VariableItemModel>, pos: Position) -> (r: Option<String>)
    ensures
        match variable_at(items@, pos) {
            Some(n) => r matches Some(s) && s@ == n,
            None => r is None,
        },
{
    let mut i: usize = 0;
    while i < items.len()
        invariant
            i <= items.len(),
            variable_at(items@.take(i as int), pos) is None,
        decreases items.len() - i,
    {
        assert(items@.take(i + 1).drop_last() == items@.take(i as int));
        assert(items@.take(i + 1).last() == items@[i as int]);
        if let VariableItemModel::Variable { name, position, .. } = &items[i] {
            if position_in_range(pos, ast_pos_to_range(position)) {
                proof {
                    lemma_variable_at_prefix(items@, i as int + 1, pos);
                }
                return Some(normalize_var_name(name.as_str()));
            }
        }
        i += 1;
    }
    assert(items@.take(items.len() as int) == items@);
    None
}

proof fn lemma_variable_at_prefix(items: Seq<VariableItemModel>, k: int, pos: Position)
    requires
        0 <= k <= items.len(),
        variable_at(items.take(k), pos) is Some,
    ensures
        variable_at(items, pos) == variable_at(items.take(k), pos),
    decreases items.len() - k,
{
    if k < items.len() {
        assert(items.take(k + 1).drop_last() == items.take(k));
        lemma_variable_at_prefix(items, k + 1, pos);
    } else {
        assert(items.take(k) == items);
    }
}

proof fn lemma_token_prefix(ss: Seq<SectionModel>, k: int, pos: Position)
    requires
        0 <= k <= ss.len(),
        token_at(ss.take(k), pos) is Some,
    ensures
        token_at(ss, pos) == token_at(ss.take(k), pos),
    decreases ss.len() - k,
{
    if k < ss.len() {
        assert(ss.take(k + 1).drop_last() == ss.take(k));
        lemma_token_prefix(ss, k + 1, pos);
    } else {
        assert(ss.take(k) == ss);
    }
}

/// What `pos` points at in `file`: the name of a keyword call under it, or
/// the normalized name of a variable definition holding it.
pub fn token_at_position(file: &FileModel, pos: Position) -> (r: Option<DefinitionToken>)
    ensures
        match token_at(file.sections@, pos) {
            Some(t) => r matches Some(x) && token_view(x) == t,
            None => r is None,
        },
{
    let ss = &file.sections;
    let mut k: usize = 0;
    while k < ss.len()
        invariant
            k <= ss.len(),
            ss@ == file.sections@,
            token_at(ss@.take(k as int), pos) is None,
        decreases ss.len() - k,
    {
        assert(ss@.take(k + 1).drop_last() == ss@.take(k as int));
        assert(ss@.take(k + 1).last() == ss@[k as int]);
        let found = match &ss[k] {
            SectionModel::TestCases { body, .. } => match call_in_blocks(body, pos) {
                Some(n) => Some(DefinitionToken::Keyword(n)),
                None => None,
            },
            SectionModel::Tasks { body, .. } => match call_in_blocks(body, pos) {
                Some(n) => Some(DefinitionToken::Keyword(n)),
                None => None,
            },
            SectionModel::Keywords { body, .. } => match call_in_blocks(body, pos) {
                Some(n) => Some(DefinitionToken::Keyword(n)),
                None => None,
            },
            SectionModel::Variables { body, .. } => match variable_in(body, pos) {
                Some(n) => Some(DefinitionToken::Variable(n)),
                None => None,
            },
            _ => None,
        };
        assert(match section_token(ss@[k as int], pos) {
            Some(t) => found matches Some(x) && token_view(x) == t,
            None => found is None,
        });
        assert(token_at(ss@.take(k + 1), pos) == section_token(ss@[k as int], pos));
        if found.is_some() {
            proof {
                lemma_token_prefix(ss@, k as int + 1, pos);
            }
            return found;
        }
        k += 1;
    }
    assert(ss@.take(ss.len() as int) == ss@);
    None
}

fn find_keyword_named(bs: &Vec<BlockModel>, name: &str) -> (r: Option<Range>)
    ensures
        r == keyword_named(bs@, name@),
{
    let mut i: usize = 0;
    while i < bs.len()
        invariant
            i <= bs.len(),
            keyword_named(bs@.take(i as int), name@) is None,
        decreases bs.len() - i,
    {
        assert(bs@.take(i + 1).drop_last() == bs@.take(i as int));
        assert(bs@.take(i + 1).last() == bs@[i as int]);
        if str_eq(bs[i].name.as_str(), name) {
            proof {
                lemma_named_prefix(bs@, i as int + 1, name@);
            }
            return Some(ast_pos_to_range(&bs[i].position));
        }
        i += 1;
    }
    assert(bs@.take(bs.len() as int) == bs@);
    None
}

proof fn lemma_named_prefix(bs: Seq<BlockModel>, k: int, name: Seq<char>)
    requires
        0 <= k <= bs.len(),
        keyword_named(bs.take(k), name) is Some,
    ensures
        keyword_named(bs, name) == keyword_named(bs.take(k), name),
    decreases bs.len() - k,
{
    if k < bs.len() {
        assert(bs.take(k + 1).drop_last() == bs.take(k));
        lemma_named_prefix(bs, k + 1, name);
    } else {
        assert(bs.take(k) == bs);
    }
}

fn find_local_keyword(ss: &Vec<SectionModel>, name: &str) -> (r: Option<Range>)
    ensures
        r == local_keyword(ss@, name@),
{
    let mut k: usize = 0;
    while k < ss.len()
        invariant
            k <= ss.len(),
            local_keyword(ss@.take(k as int), name@) is None,
        decreases ss.len() - k,
    {
        assert(ss@.take(k + 1).drop_last() == ss@.take(k as int));
        assert(ss@.take(k + 1).last() == ss@[k as int]);
        if let SectionModel::Keywords { body, .. } = &ss[k] {
            let f = find_keyword_named(body, name);
            if f.is_some() {
                proof {
                    lemma_local_prefix(ss@, k as int + 1, name@);
                }
                return f;
            }
        }
        k += 1;
    }
    assert(ss@.take(ss.len() as int) == ss@);
    None
}

proof fn lemma_local_prefix(ss: Seq<SectionModel>, k: int, name: Seq<char>)
    requires
        0 <= k <= ss.len(),
        local_keyword(ss.take(k), name) is Some,
    ensures
        local_keyword(ss, name) == local_keyword(ss.take(k), name),
    decreases ss.len() - k,
{
    if k < ss.len() {
        assert(ss.take(k + 1).drop_last() == ss.take(k));
        lemma_local_prefix(ss, k + 1, name);
    } else {
        assert(ss.take(k) == ss);
    }
}

fn find_variable_named(items: &Vec<VariableItemModel>, norm: &str) -> (r: Option<Range>)
    ensures
        r == variable_named(items@, norm@),
{
    let mut i: usize = 0;
    while i < items.len()
        invariant
            i <= items.len(),
            variable_named(items@.take(i as int), norm@) is None,
        decreases items.len() - i,
    {
        assert(items@.take(i + 1).drop_last() == items@.take(i as int));
        assert(items@.take(i + 1).last() == items@[i as int]);
        if let VariableItemModel::Variable { name, position, .. } = &items[i] {
            let n = normalize_var_name(name.as_str());
            if str_eq(n.as_str(), norm) {
                proof {
                    lemma_variable_named_prefix(items@, i as int + 1, norm@);
                }
                return Some(ast_pos_to_range(position));
            }
        }
        i += 1;
    }
    assert(items@.take(items.len() as int) == items@);
    None
}

proof fn lemma_variable_named_prefix(items: Seq<VariableItemModel>, k: int, norm: Seq<char>)
    requires
        0 <= k <= items.len(),
        variable_named(items.take(k), norm) is Some,
    ensures
        variable_named(items, norm) == variable_named(items.take(k), norm),
    decreases items.len() - k,
{
    if k < items.len() {
        assert(items.take(k + 1).drop_last() == items.take(k));
        lemma_variable_named_prefix(items, k + 1, norm);
    } else {
        assert(items.take(k) == items);
    }
}

fn find_defined_variable(ss: &Vec<SectionModel>, norm: &str) -> (r: Option<Range>)
    ensures
        r == defined_variable(ss@, norm@),
{
    let mut k: usize = 0;
    while k < ss.len()
        invariant
            k <= ss.len(),
            defined_variable(ss@.take(k as int), norm@) is None,
        decreases ss.len() - k,
    {
        assert(ss@.take(k + 1).drop_last() == ss@.take(k as int));
        assert(ss@.take(k + 1).last() == ss@[k as int]);
        if let SectionModel::Variables { body, .. } = &ss[k] {
            let f = find_variable_named(body, norm);
            if f.is_some() {
                proof {
                    lemma_defined_prefix(ss@, k as int + 1, norm@);
                }
                return f;
            }
        }
        k += 1;
    }
    assert(ss@.take(ss.len() as int) == ss@);
    None
}

proof fn lemma_defined_prefix(ss: Seq<SectionModel>, k: int, norm: Seq<char>)
    requires
        0 <= k <= ss.len(),
        defined_variable(ss.take(k), norm) is Some,
    ensures
        defined_variable(ss, norm) == defined_variable(ss.take(k), norm),
    decreases ss.len() - k,
{
    if k < ss.len() {
        assert(ss.take(k + 1).drop_last() == ss.take(k));
        lemma_defined_prefix(ss, k + 1, norm);
    } else {
        assert(ss.take(k) == ss);
    }
}

fn names_argument(args: &Vec<String>, norm: &str) -> (r: bool)
    ensures
        r == has_argument(args@, norm@),
{
    let mut j: usize = 0;
    while j < args.len()
        invariant
            j <= args.len(),
            forall|m: int| 0 <= m < j ==> normalized_var_name((#[trigger] args@[m])@) != norm@,
        decreases args.len() - j,
    {
        let n = normalize_var_name(args[j].as_str());
        if str_eq(n.as_str(), norm) {
            return true;
        }
        j += 1;
    }
    false
}

fn find_arguments(items: &Vec<BodyItemModel>, norm: &str) -> (r: Option<Range>)
    ensures
        r == arguments_in(items@, norm@),
{
    let mut i: usize = 0;
    while i < items.len()
        invariant
            i <= items.len(),
            arguments_in(items@.take(i as int), norm@) is None,
        decreases items.len() - i,
    {
        assert(items@.take(i + 1).drop_last() == items@.take(i as int));
        assert(items@.take(i + 1).last() == items@[i as int]);
        if let BodyItemModel::Arguments { args, position } = &items[i] {
            if names_argument(args, norm) {
                proof {
                    lemma_arguments_prefix(items@, i as int + 1, norm@);
                }
                return Some(ast_pos_to_range(position));
            }
        }
        i += 1;
    }
    assert(items@.take(items.len() as int) == items@);
    None
}

proof fn lemma_arguments_prefix(items: Seq<BodyItemModel>, k: int, norm: Seq<char>)
    requires
        0 <= k <= items.len(),
        arguments_in(items.take(k), norm) is Some,
    ensures
        arguments_in(items, norm) == arguments_in(items.take(k), norm),
    decreases items.len() - k,
{
    if k < items.len() {
        assert(items.take(k + 1).drop_last() == items.take(k));
        lemma_arguments_prefix(items, k + 1, norm);
    } else {
        assert(items.take(k) == items);
    }
}

fn find_arguments_in_blocks(bs: &Vec<BlockModel>, norm: &str) -> (r: Option<Range>)
    ensures
        r == arguments_in_blocks(bs@, norm@),
{
    let mut i: usize = 0;
    while i < bs.len()
        invariant
            i <= bs.len(),
            arguments_in_blocks(bs@.take(i as int), norm@) is None,
        decreases bs.len() - i,
    {
        assert(bs@.take(i + 1).drop_last() == bs@.take(i as int));
        assert(bs@.take(i + 1).last() == bs@[i as int]);
        let f = find_arguments(&bs[i].body, norm);
        if f.is_some() {
            proof {
                lemma_arguments_blocks_prefix(bs@, i as int + 1, norm@);
            }
            return f;
        }
        i += 1;
    }
    assert(bs@.take(bs.len() as int) == bs@);
    None
}

proof fn lemma_arguments_blocks_prefix(bs: Seq<BlockModel>, k: int, norm: Seq<char>)
    requires
        0 <= k <= bs.len(),
        arguments_in_blocks(bs.take(k), norm) is Some,
    ensures
        arguments_in_blocks(bs, norm) == arguments_in_blocks(bs.take(k), norm),
    decreases bs.len() - k,
{
    if k < bs.len() {
        assert(bs.take(k + 1).drop_last() == bs.take(k));
        lemma_arguments_blocks_prefix(bs, k + 1, norm);
    } else {
        assert(bs.take(k) == bs);
    }
}

fn find_keyword_argument(ss: &Vec<SectionModel>, norm: &str) -> (r: Option<Range>)
    ensures
        r == keyword_argument(ss@, norm@),
{
    let mut k: usize = 0;
    while k < ss.len()
        invariant
            k <= ss.len(),
            keyword_argument(ss@.take(k as int), norm@) is None,
        decreases ss.len() - k,
    {
        assert(ss@.take(k + 1).drop_last() == ss@.take(k as int));
        assert(ss@.take(k + 1).last() == ss@[k as int]);
        if let SectionModel::Keywords { body, .. } = &ss[k] {
            let f = find_arguments_in_blocks(body, norm);
            if f.is_some() {
                proof {
                    lemma_keyword_argument_prefix(ss@, k as int + 1, norm@);
                }
                return f;
            }
        }
        k += 1;
    }
    assert(ss@.take(ss.len() as int) == ss@);
    None
}

proof fn lemma_keyword_argument_prefix(ss: Seq<SectionModel>, k: int, norm: Seq<char>)
    requires
        0 <= k <= ss.len(),
        keyword_argument(ss.take(k), norm) is Some,
    ensures
        keyword_argument(ss, norm) == keyword_argument(ss.take(k), norm),
    decreases ss.len() - k,
{
    if k < ss.len() {
        assert(ss.take(k + 1).drop_last() == ss.take(k));
        lemma_keyword_argument_prefix(ss, k + 1, norm);
    } else {
        assert(ss.take(k) == ss);
    }
}

fn namespace_definition(k: &Option<KeywordSourceModel>) -> (r: Option<Location>)
    ensures
        match namespace_location(*k) {
            Some(l) => r matches Some(x) && x.uri@ == l.0 && x.range == l.1,
            None => r is None,
        },
{
    match k {
        Some(kw) => match &kw.source {
            Some(src) => match url_text_of_path(src.as_str()) {
                Some(u) => {
                    let n = match kw.line_no {
                        Some(l) => l,
                        None => 1,
                    };
                    let line = n.saturating_sub(1);
                    Some(
                        Location {
                            uri: u,
                            range: Range {
                                start: Position { line, character: 0 },
                                end: Position { line, character: 0 },
                            },
                        },
                    )
                },
                None => None,
            },
            None => None,
        },
        None => None,
    }
}

/// The definition of what `pos` points at in `file`, the document `uri`.
/// `ns_keyword` is what the namespace found for the keyword at `pos`
/// (`token_at_position` names it); it is read only when the file itself
/// defines no keyword of that name.
pub fn goto_definition(file: &FileModel, ns_keyword: &Option<KeywordSourceModel>, uri: &str, pos: Position) -> (r: Option<Location>)
    ensures
        match definition_spec(file.sections@, *ns_keyword, uri@, pos) {
            Some(l) => r matches Some(x) && x.uri@ == l.0 && x.range == l.1,
            None => r is None,
        },
{
    match token_at_position(file, pos) {
        Some(DefinitionToken::Keyword(name)) => match find_local_keyword(&file.sections, name.as_str()) {
            Some(range) => Some(Location { uri: uri.to_owned(), range }),
            None => namespace_definition(ns_keyword),
        },
        Some(DefinitionToken::Variable(norm)) => match find_defined_variable(&file.sections, norm.as_str()) {
            Some(range) => Some(Location { uri: uri.to_owned(), range }),
            None => match find_keyword_argument(&file.sections, norm.as_str()) {
                Some(range) => Some(Location { uri: uri.to_owned(), range }),
                None => None,
            },
        },
        None => None,
    }
}

// ── A call under the cursor is always found ──────────────────────────────────

/// `x` is a keyword call whose name is under `pos`.
pub open spec fn call_under(x: BodyItemModel, pos: Position) -> bool {
    x matches BodyItemModel::KeywordCall { name, position, .. } && on_call_name(position, name@, pos)
}

proof fn lemma_item_call_found(item: BodyItemModel, x: BodyItemModel, pos: Position)
    requires
        item_holds(item, x),
        call_under(x, pos),
    ensures
        call_at_item(item, pos) is Some,
    decreases item,
{
    if item != x {
        match item {
            BodyItemModel::Loop { body, .. } => lemma_body_call_found(body@, x, pos),
            BodyItemModel::Branches { branches, .. } => lemma_branches_call_found(branches@, x, pos),
            _ => {},
        }
    }
}

proof fn lemma_body_call_found(items: Seq<BodyItemModel>, x: BodyItemModel, pos: Position)
    requires
        body_holds(items, x),
        call_under(x, pos),
    ensures
        call_at(items, pos) is Some,
    decreases items,
{
    if body_holds(items.drop_last(), x) {
        lemma_body_call_found(items.drop_last(), x, pos);
    } else {
        lemma_item_call_found(items.last(), x, pos);
    }
}

proof fn lemma_branches_call_found(bs: Seq<BranchModel>, x: BodyItemModel, pos: Position)
    requires
        branches_hold(bs, x),
        call_under(x, pos),
    ensures
        call_at_branches(bs, pos) is Some,
    decreases bs,
{
    if branches_hold(bs.drop_last(), x) {
        lemma_branches_call_found(bs.drop_last(), x, pos);
    } else {
        lemma_body_call_found(bs.last().body@, x, pos);
    }
}

proof fn lemma_blocks_call_found(bs: Seq<BlockModel>, j: int, x: BodyItemModel, pos: Position)
    requires
        0 <= j < bs.len(),
        body_holds(bs[j].body@, x),
        call_under(x, pos),
    ensures
        call_at_blocks(bs, pos) is Some,
    decreases bs.len(),
{
    if j < bs.len() - 1 {
        assert(bs.drop_last()[j] == bs[j]);
        lemma_blocks_call_found(bs.drop_last(), j, x, pos);
    } else {
        lemma_body_call_found(bs.last().body@, x, pos);
    }
}

proof fn lemma_sections_call_found(ss: Seq<SectionModel>, k: int, j: int, x: BodyItemModel, pos: Position)
    requires
        block_holds(ss, k, j, x),
        call_under(x, pos),
    ensures
        token_at(ss, pos) is Some,
    decreases ss.len(),
{
    if k < ss.len() - 1 {
        assert(ss.drop_last()[k] == ss[k]);
        lemma_sections_call_found(ss.drop_last(), k, j, x, pos);
    } else if token_at(ss.drop_last(), pos) is None {
        lemma_blocks_call_found(section_blocks(ss[k]), j, x, pos);
    }
}

/// `x` is a call of the keyword `n` whose name is under `pos`.
pub open spec fn named_call(x: BodyItemModel, pos: Position, n: Seq<char>) -> bool {
    x matches BodyItemModel::KeywordCall { name, position, .. } && on_call_name(position, name@, pos) && name@ == n
}

proof fn lemma_item_call_sound(item: BodyItemModel, pos: Position)
    ensures
        call_at_item(item, pos) matches Some(n) ==> exists|x: BodyItemModel| #[trigger] item_holds(item, x) && named_call(x, pos, n),
    decreases item,
{
    match item {
        BodyItemModel::KeywordCall { .. } => {
            assert(item_holds(item, item));
        },
        BodyItemModel::Loop { body, .. } => {
            lemma_body_call_sound(body@, pos);
            if let Some(n) = call_at(body@, pos) {
                let x = choose|x: BodyItemModel| #[trigger] body_holds(body@, x) && named_call(x, pos, n);
                assert(item_holds(item, x));
            }
        },
        BodyItemModel::Branches { branches, .. } => {
            lemma_branches_call_sound(branches@, pos);
            if let Some(n) = call_at_branches(branches@, pos) {
                let x = choose|x: BodyItemModel| #[trigger] branches_hold(branches@, x) && named_call(x, pos, n);
                assert(item_holds(item, x));
            }
        },
        _ => {},
    }
}

proof fn lemma_body_call_sound(items: Seq<BodyItemModel>, pos: Position)
    ensures
        call_at(items, pos) matches Some(n) ==> exists|x: BodyItemModel| #[trigger] body_holds(items, x) && named_call(x, pos, n),
    decreases items,
{
    if items.len() > 0 {
        lemma_body_call_sound(items.drop_last(), pos);
        lemma_item_call_sound(items.last(), pos);
        if let Some(n) = call_at(items.drop_last(), pos) {
            let x = choose|x: BodyItemModel| #[trigger] body_holds(items.drop_last(), x) && named_call(x, pos, n);
            assert(body_holds(items, x));
        } else if let Some(n) = call_at_item(items.last(), pos) {
            let x = choose|x: BodyItemModel| #[trigger] item_holds(items.last(), x) && named_call(x, pos, n);
            assert(body_holds(items, x));
        }
    }
}

proof fn lemma_branches_call_sound(bs: Seq<BranchModel>, pos: Position)
    ensures
        call_at_branches(bs, pos) matches Some(n) ==> exists|x: BodyItemModel| #[trigger] branches_hold(bs, x) && named_call(x, pos, n),
    decreases bs,
{
    if bs.len() > 0 {
        lemma_branches_call_sound(bs.drop_last(), pos);
        lemma_body_call_sound(bs.last().body@, pos);
        if let Some(n) = call_at_branches(bs.drop_last(), pos) {
            let x = choose|x: BodyItemModel| #[trigger] branches_hold(bs.drop_last(), x) && named_call(x, pos, n);
            assert(branches_hold(bs, x));
        } else if let Some(n) = call_at(bs.last().body@, pos) {
            let x = choose|x: BodyItemModel| #[trigger] body_holds(bs.last().body@, x) && named_call(x, pos, n);
            assert(branches_hold(bs, x));
        }
    }
}

proof fn lemma_blocks_call_sound(bs: Seq<BlockModel>, pos: Position)
    ensures
        call_at_blocks(bs, pos) matches Some(n) ==> exists|j: int, x: BodyItemModel|
            0 <= j < bs.len() && #[trigger] body_holds(bs[j].body@, x) && named_call(x, pos, n),
    decreases bs.len(),
{
    if bs.len() > 0 {
        lemma_blocks_call_sound(bs.drop_last(), pos);
        lemma_body_call_sound(bs.last().body@, pos);
        if let Some(n) = call_at_blocks(bs.drop_last(), pos) {
            let (j, x) = choose|j: int, x: BodyItemModel|
                0 <= j < bs.drop_last().len() && #[trigger] body_holds(bs.drop_last()[j].body@, x) && named_call(x, pos, n);
            assert(bs.drop_last()[j] == bs[j]);
            assert(body_holds(bs[j].body@, x));
        } else if let Some(n) = call_at(bs.last().body@, pos) {
            let x = choose|x: BodyItemModel| #[trigger] body_holds(bs.last().body@, x) && named_call(x, pos, n);
            assert(body_holds(bs[bs.len() - 1].body@, x));
        }
    }
}

proof fn lemma_token_sound(ss: Seq<SectionModel>, pos: Position)
    ensures
        token_at(ss, pos) matches Some(t) ==> (t.0 ==> exists|k: int, j: int, x: BodyItemModel|
            #[trigger] block_holds(ss, k, j, x) && named_call(x, pos, t.1)),
    decreases ss.len(),
{
    if ss.len() > 0 {
        lemma_token_sound(ss.drop_last(), pos);
        if let Some(t) = token_at(ss.drop_last(), pos) {
            if t.0 {
                let (k, j, x) = choose|k: int, j: int, x: BodyItemModel|
                    #[trigger] block_holds(ss.drop_last(), k, j, x) && named_call(x, pos, t.1);
                assert(ss.drop_last()[k] == ss[k]);
                assert(block_holds(ss, k, j, x));
            }
        } else {
            let k = ss.len() - 1;
            lemma_blocks_call_sound(section_blocks(ss[k]), pos);
            if let Some(t) = section_token(ss[k], pos) {
                if t.0 {
                    assert(call_at_blocks(section_blocks(ss[k]), pos) == Some(t.1));
                    let (j, x) = choose|j: int, x: BodyItemModel|
                        0 <= j < section_blocks(ss[k]).len() && #[trigger] body_holds(section_blocks(ss[k])[j].body@, x)
                            && named_call(x, pos, t.1);
                    assert(block_holds(ss, k, j, x));
                }
            }
        }
    }
}

/// Whenever the cursor is on the name of a keyword call, at any depth
/// inside loops and branches of a test case, task or keyword, something is
/// under the cursor; and whatever keyword is found under the cursor is the
/// name of such a call whose name holds the cursor.
pub proof fn lemma_call_under_cursor_found(ss: Seq<SectionModel>, pos: Position, k: int, j: int, x: BodyItemModel)
    requires
        block_holds(ss, k, j, x),
        call_under(x, pos),
    ensures
        token_at(ss, pos) is Some,
        token_at(ss, pos) matches Some(t) ==> (t.0 ==> exists|k2: int, j2: int, y: BodyItemModel|
            #[trigger] block_holds(ss, k2, j2, y) && named_call(y, pos, t.1)),
{
    lemma_sections_call_found(ss, k, j, x, pos);
    lemma_token_sound(ss, pos);
}

// ── Definitions in the file are found ────────────────────────────────────────

proof fn lemma_keyword_named_found(bs: Seq<BlockModel>, name: Seq<char>)
    ensures
        (exists|j: int| 0 <= j < bs.len() && (#[trigger] bs[j]).name@ == name) ==> keyword_named(bs, name) is Some,
        keyword_named(bs, name) matches Some(r) ==> exists|j: int|
            0 <= j < bs.len() && (#[trigger] bs[j]).name@ == name && r == ast_range(bs[j].position),
    decreases bs.len(),
{
    if bs.len() > 0 {
        lemma_keyword_named_found(bs.drop_last(), name);
        if exists|j: int| 0 <= j < bs.len() && (#[trigger] bs[j]).name@ == name {
            let j = choose|j: int| 0 <= j < bs.len() && (#[trigger] bs[j]).name@ == name;
            if j < bs.len() - 1 {
                assert(bs.drop_last()[j] == bs[j]);
            }
        }
        if let Some(r) = keyword_named(bs.drop_last(), name) {
            let j = choose|j: int| 0 <= j < bs.drop_last().len() && (#[trigger] bs.drop_last()[j]).name@ == name && r
                == ast_range(bs.drop_last()[j].position);
            assert(bs.drop_last()[j] == bs[j]);
        }
    }
}

proof fn lemma_local_keyword_found(ss: Seq<SectionModel>, name: Seq<char>)
    ensures
        (exists|k: int, j: int| 0 <= k < ss.len() && ss[k] is Keywords && 0 <= j < section_blocks(ss[k]).len()
            && (#[trigger] section_blocks(ss[k])[j]).name@ == name) ==> local_keyword(ss, name) is Some,
        local_keyword(ss, name) matches Some(r) ==> exists|k: int, j: int|
            0 <= k < ss.len() && ss[k] is Keywords && 0 <= j < section_blocks(ss[k]).len()
                && (#[trigger] section_blocks(ss[k])[j]).name@ == name && r == ast_range(section_blocks(ss[k])[j].position),
    decreases ss.len(),
{
    if ss.len() > 0 {
        let pre = ss.drop_last();
        lemma_local_keyword_found(pre, name);
        lemma_keyword_named_found(section_blocks(ss.last()), name);
        if exists|k: int, j: int| 0 <= k < ss.len() && ss[k] is Keywords && 0 <= j < section_blocks(ss[k]).len()
            && (#[trigger] section_blocks(ss[k])[j]).name@ == name {
            let (k, j) = choose|k: int, j: int| 0 <= k < ss.len() && ss[k] is Keywords && 0 <= j < section_blocks(ss[k]).len()
                && (#[trigger] section_blocks(ss[k])[j]).name@ == name;
            if k < ss.len() - 1 {
                assert(pre[k] == ss[k]);
                assert(section_blocks(pre[k])[j].name@ == name);
            } else {
                assert(section_blocks(ss.last())[j].name@ == name);
            }
        }
        if let Some(r) = local_keyword(pre, name) {
            let (k, j) = choose|k: int, j: int| 0 <= k < pre.len() && pre[k] is Keywords && 0 <= j < section_blocks(pre[k]).len()
                && (#[trigger] section_blocks(pre[k])[j]).name@ == name && r == ast_range(section_blocks(pre[k])[j].position);
            assert(pre[k] == ss[k]);
            assert(section_blocks(ss[k])[j].name@ == name);
        } else if let Some(r) = local_keyword(ss, name) {
            let k = ss.len() - 1;
            let j = choose|j: int| 0 <= j < section_blocks(ss.last()).len() && (#[trigger] section_blocks(ss.last())[j]).name@
                == name && r == ast_range(section_blocks(ss.last())[j].position);
            assert(section_blocks(ss[k])[j].name@ == name);
        }
    }
}

/// When a keyword is under the cursor and the file defines a keyword of
/// that name, go to definition leads into the document to the span of a
/// keyword of the file with that name.
pub proof fn lemma_goto_local_keyword(
    ss: Seq<SectionModel>,
    ns_keyword: Option<KeywordSourceModel>,
    uri: Seq<char>,
    pos: Position,
    k: int,
    j: int,
)
    requires
        0 <= k < ss.len(),
        ss[k] is Keywords,
        0 <= j < section_blocks(ss[k]).len(),
        token_at(ss, pos) == Some((true, section_blocks(ss[k])[j].name@)),
    ensures
        definition_spec(ss, ns_keyword, uri, pos) matches Some(l) && l.0 == uri && exists|k2: int, j2: int|
            0 <= k2 < ss.len() && ss[k2] is Keywords && 0 <= j2 < section_blocks(ss[k2]).len()
                && (#[trigger] section_blocks(ss[k2])[j2]).name@ == section_blocks(ss[k])[j].name@ && l.1 == ast_range(
                section_blocks(ss[k2])[j2].position,
            ),
{
    let name = section_blocks(ss[k])[j].name@;
    lemma_local_keyword_found(ss, name);
    assert(section_blocks(ss[k])[j].name@ == name);
}

} // verus!
