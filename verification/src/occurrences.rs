//! The occurrences within one file of the keyword or variable under the
//! cursor: the references to it, the edits that rename it and the
//! highlights that mark it.
//!
//! A keyword is found by its name as written, a variable by its normalized
//! name.  Columns of variable references are the column of their argument
//! plus their offset in it; column arithmetic wraps at 32 bits, and name
//! lengths are byte lengths.
use vstd::prelude::*;

use crate::ast::{
    section_blocks, block_holds, body_holds, branches_hold, item_holds, lemma_contains_add, ast_range, position_in_ast, AstPosition, BlockModel, BodyItemModel, BranchModel, FileModel, SectionModel, VariableItemModel,
    VariableRefModel,
};
use crate::goto::{on_call_name, variable_at, variable_in, LocationView, TokenView};
use crate::inlay::len32;
use crate::keywords::{normalize_var_name, normalized_var_name};
use crate::lsp::{range_holds_closed, Position, Range, TextEdit};
use crate::lsp_items::{DocumentHighlight, DocumentHighlightKind, Location, WorkspaceEdit};
use crate::path::utf8_byte_len;
use crate::text::{chars_of, str_eq, string_of};
use crate::tokens::len_of;
use vstd::wrapping::u32_specs::wrapping_add;

verus! {

// ── The token under the cursor ───────────────────────────────────────────────

/// What a lookup sees: the variables referenced in a call's arguments
/// besides the called name (`variables`), the call's whole span holding the
/// position besides its line (`strict`), and keyword definition lines and
/// variable definitions (`definitions`).
#[derive(Clone, Copy, Debug, PartialEq, Eq, Structural)]
pub struct Lookup {
    pub variables: bool,
    pub strict: bool,
    pub definitions: bool,
}

/// The lookup of references and rename: called names and definitions.
pub open spec fn names_lookup() -> Lookup {
    Lookup { variables: false, strict: false, definitions: true }
}

/// The lookup of highlights: called names and the variables of a call whose
/// span holds the position, and definitions.
pub open spec fn highlight_lookup() -> Lookup {
    Lookup { variables: true, strict: true, definitions: true }
}

/// The lookup of hover: called names and the variables of calls, on the
/// call's line.
pub open spec fn hover_lookup() -> Lookup {
    Lookup { variables: true, strict: false, definitions: false }
}

/// The columns of the reference `v` hold `pos`, both ends included.
pub open spec fn ref_holds(v: VariableRefModel, pos: Position) -> bool {
    v.column + v.start <= pos.character && pos.character <= v.column + v.end
}

/// The text of the first of `vars` whose columns hold `pos`.
pub open spec fn ref_at(vars: Seq<VariableRefModel>, pos: Position) -> Option<Seq<char>>
    decreases vars.len(),
{
    if vars.len() == 0 {
        None
    } else {
        match ref_at(vars.drop_last(), pos) {
            Some(t) => Some(t),
            None => if ref_holds(vars.last(), pos) {
                Some(vars.last().text@)
            } else {
                None
            },
        }
    }
}

/// The token a body item gives for `pos`.
pub open spec fn item_token(item: BodyItemModel, pos: Position, lk: Lookup) -> Option<TokenView>
    decreases item,
{
    match item {
        BodyItemModel::KeywordCall { name, variables, position, .. } => if position.line == pos.line && (!lk.strict
            || range_holds_closed(ast_range(position), pos)) {
            if on_call_name(position, name@, pos) {
                Some((true, name@))
            } else if lk.variables {
                match ref_at(variables@, pos) {
                    Some(t) => Some((false, normalized_var_name(t))),
                    None => None,
                }
            } else {
                None
            }
        } else {
            None
        },
        BodyItemModel::Loop { body, .. } => body_token(body@, pos, lk),
        BodyItemModel::Branches { branches, .. } => branches_token(branches@, pos, lk),
        _ => None,
    }
}

/// The token of the first item of `items` that gives one.
pub open spec fn body_token(items: Seq<BodyItemModel>, pos: Position, lk: Lookup) -> Option<TokenView>
    decreases items,
{
    if items.len() == 0 {
        None
    } else {
        match body_token(items.drop_last(), pos, lk) {
            Some(t) => Some(t),
            None => item_token(items.last(), pos, lk),
        }
    }
}

/// The token of the first branch body of `bs` that gives one.
pub open spec fn branches_token(bs: Seq<BranchModel>, pos: Position, lk: Lookup) -> Option<TokenView>
    decreases bs,
{
    if bs.len() == 0 {
        None
    } else {
        match branches_token(bs.drop_last(), pos, lk) {
            Some(t) => Some(t),
            None => body_token(bs.last().body@, pos, lk),
        }
    }
}

/// The token of a block: its name when `defs` holds and `pos` is on its
/// name line within its span, else the token of its body.
pub open spec fn block_token(b: BlockModel, pos: Position, lk: Lookup, defs: bool) -> Option<TokenView> {
    if defs && range_holds_closed(ast_range(b.position), pos) && pos.line == b.position.line {
        Some((true, b.name@))
    } else {
        body_token(b.body@, pos, lk)
    }
}

/// The token of the first block of `bs` that gives one.
pub open spec fn blocks_token(bs: Seq<BlockModel>, pos: Position, lk: Lookup, defs: bool) -> Option<TokenView>
    decreases bs.len(),
{
    if bs.len() == 0 {
        None
    } else {
        match blocks_token(bs.drop_last(), pos, lk, defs) {
            Some(t) => Some(t),
            None => block_token(bs.last(), pos, lk, defs),
        }
    }
}

/// The token a section gives for `pos`.
pub open spec fn section_lookup(s: SectionModel, pos: Position, lk: Lookup) -> Option<TokenView> {
    match s {
        SectionModel::TestCases { body, .. } => blocks_token(body@, pos, lk, false),
        SectionModel::Tasks { body, .. } => blocks_token(body@, pos, lk, false),
        SectionModel::Keywords { body, .. } => blocks_token(body@, pos, lk, lk.definitions),
        SectionModel::Variables { body, .. } => if lk.definitions {
            match variable_at(body@, pos) {
                Some(n) => Some((false, n)),
                None => None,
            }
        } else {
            None
        },
        _ => None,
    }
}

/// The token under `pos`: that of the first section that gives one.
pub open spec fn lookup(ss: Seq<SectionModel>, pos: Position, lk: Lookup) -> Option<TokenView>
    decreases ss.len(),
{
    if ss.len() == 0 {
        None
    } else {
        match lookup(ss.drop_last(), pos, lk) {
            Some(t) => Some(t),
            None => section_lookup(ss.last(), pos, lk),
        }
    }
}

/// `r` is the token `t`: `(true, name)` for a keyword, `(false, normalized
/// name)` for a variable.
pub open spec fn token_is(r: Option<(bool, String)>, t: Option<TokenView>) -> bool {
    match t {
        Some(v) => r matches Some(x) && x.0 == v.0 && x.1@ == v.1,
        None => r is None,
    }
}

// ── Occurrences ──────────────────────────────────────────────────────────────

/// An occurrence: whether it is a definition, its range and its text as
/// written.
pub type Site = (bool, Range, Seq<char>);

/// The range of the name `name` written at the start of `p`.
pub open spec fn name_range(p: AstPosition, name: Seq<char>) -> Range {
    Range {
        start: Position { line: p.line, character: p.column },
        end: Position { line: p.line, character: wrapping_add(p.column, len32(name)) },
    }
}

/// The range of the reference `v` on `line`.
pub open spec fn ref_range(v: VariableRefModel, line: u32) -> Range {
    Range {
        start: Position { line, character: wrapping_add(v.column, v.start) },
        end: Position { line, character: wrapping_add(v.column, v.end) },
    }
}

/// The references of `vars` on `line` to the variable normalized `norm`.
pub open spec fn ref_sites(vars: Seq<VariableRefModel>, line: u32, norm: Seq<char>) -> Seq<Site>
    decreases vars.len(),
{
    if vars.len() == 0 {
        Seq::empty()
    } else {
        ref_sites(vars.drop_last(), line, norm) + if normalized_var_name(vars.last().text@) == norm {
            seq![(false, ref_range(vars.last(), line), vars.last().text@)]
        } else {
            Seq::empty()
        }
    }
}

/// The occurrences of `t` in a body item: calls of the keyword, or
/// references to the variable in a call's arguments.
pub open spec fn item_sites(item: BodyItemModel, t: TokenView) -> Seq<Site>
    decreases item,
{
    match item {
        BodyItemModel::KeywordCall { name, variables, position, .. } => if t.0 {
            if name@ == t.1 {
                seq![(false, name_range(position, name@), name@)]
            } else {
                Seq::empty()
            }
        } else {
            ref_sites(variables@, position.line, t.1)
        },
        BodyItemModel::Loop { body, .. } => body_sites(body@, t),
        BodyItemModel::Branches { branches, .. } => branches_sites(branches@, t),
        _ => Seq::empty(),
    }
}

/// The occurrences of `t` in `items`, in order.
pub open spec fn body_sites(items: Seq<BodyItemModel>, t: TokenView) -> Seq<Site>
    decreases items,
{
    if items.len() == 0 {
        Seq::empty()
    } else {
        body_sites(items.drop_last(), t) + item_sites(items.last(), t)
    }
}

/// The occurrences of `t` in the bodies of `bs`, in order.
pub open spec fn branches_sites(bs: Seq<BranchModel>, t: TokenView) -> Seq<Site>
    decreases bs,
{
    if bs.len() == 0 {
        Seq::empty()
    } else {
        branches_sites(bs.drop_last(), t) + body_sites(bs.last().body@, t)
    }
}

/// The range of a definition at `p` named `name`: the whole span when
/// `full` holds, else the name.
pub open spec fn def_range(p: AstPosition, name: Seq<char>, full: bool) -> Range {
    if full {
        ast_range(p)
    } else {
        name_range(p, name)
    }
}

/// The occurrences of `t` in a block: its definition when `defs` holds and
/// it defines the keyword `t`, then those of its body.
pub open spec fn block_sites(b: BlockModel, t: TokenView, defs: bool, full: bool) -> Seq<Site> {
    (if defs && t.0 && b.name@ == t.1 {
        seq![(true, def_range(b.position, b.name@, full), b.name@)]
    } else {
        Seq::empty()
    }) + body_sites(b.body@, t)
}

/// The occurrences of `t` in the blocks `bs`, in order.
pub open spec fn blocks_sites(bs: Seq<BlockModel>, t: TokenView, defs: bool, full: bool) -> Seq<Site>
    decreases bs.len(),
{
    if bs.len() == 0 {
        Seq::empty()
    } else {
        blocks_sites(bs.drop_last(), t, defs, full) + block_sites(bs.last(), t, defs, full)
    }
}

/// The definitions among `items` of the variable `t`.
pub open spec fn var_sites(items: Seq<VariableItemModel>, t: TokenView, full: bool) -> Seq<Site>
    decreases items.len(),
{
    if items.len() == 0 {
        Seq::empty()
    } else {
        var_sites(items.drop_last(), t, full) + match items.last() {
            VariableItemModel::Variable { name, position, .. } => if !t.0 && normalized_var_name(name@) == t.1 {
                seq![(true, def_range(position, name@, full), name@)]
            } else {
                Seq::empty()
            },
            _ => Seq::empty(),
        }
    }
}

/// The occurrences of `t` in a section; definitions only when `incl`
/// holds.
pub open spec fn section_sites(s: SectionModel, t: TokenView, incl: bool, full: bool) -> Seq<Site> {
    match s {
        SectionModel::TestCases { body, .. } => blocks_sites(body@, t, false, full),
        SectionModel::Tasks { body, .. } => blocks_sites(body@, t, false, full),
        SectionModel::Keywords { body, .. } => blocks_sites(body@, t, incl, full),
        SectionModel::Variables { body, .. } => if incl {
            var_sites(body@, t, full)
        } else {
            Seq::empty()
        },
        _ => Seq::empty(),
    }
}

/// The occurrences of `t` in the sections `ss`, in order.
pub open spec fn file_sites(ss: Seq<SectionModel>, t: TokenView, incl: bool, full: bool) -> Seq<Site>
    decreases ss.len(),
{
    if ss.len() == 0 {
        Seq::empty()
    } else {
        file_sites(ss.drop_last(), t, incl, full) + section_sites(ss.last(), t, incl, full)
    }
}

/// Occurrences as plain values.
pub open spec fn sites_view(v: Seq<(bool, Range, String)>) -> Seq<Site> {
    v.map_values(|x: (bool, Range, String)| (x.0, x.1, x.2@))
}

// ── Finding the token ────────────────────────────────────────────────────────

fn call_name_holds(position: &AstPosition, name: &String, pos: Position) -> (r: bool)
    ensures
        r == on_call_name(*position, name@, pos),
{
    if position.line == pos.line && position.column <= pos.character {
        let len = utf8_byte_len(name.as_str());
        ((pos.character - position.column) as u128) <= len
    } else {
        false
    }
}

fn ref_in(vars: &Vec<VariableRefModel>, pos: Position) -> (r: Option<String>)
    ensures
        match ref_at(vars@, pos) {
            Some(t) => r matches Some(s) && s@ == t,
            None => r is None,
        },
{
    let mut res: Option<String> = None;
    let mut i: usize = 0;
    while i < vars.len()
        invariant
            i <= vars.len(),
            match ref_at(vars@.take(i as int), pos) {
                Some(t) => res matches Some(s) && s@ == t,
                None => res is None,
            },
        decreases vars.len() - i,
    {
        assert(vars@.take(i + 1).drop_last() == vars@.take(i as int));
        assert(vars@.take(i + 1).last() == vars@[i as int]);
        if res.is_none() {
            let v = &vars[i];
            let lo: u64 = v.column as u64 + v.start as u64;
            let hi: u64 = v.column as u64 + v.end as u64;
            if lo <= pos.character as u64 && pos.character as u64 <= hi {
                res = Some(v.text.clone());
            }
        }
        i += 1;
    }
    assert(vars@.take(vars.len() as int) == vars@);
    res
}

fn item_lookup(item: &BodyItemModel, pos: Position, lk: Lookup) -> (r: Option<(bool, String)>)
    ensures
        token_is(r, item_token(*item, pos, lk)),
    decreases *item,
{
    match item {
        BodyItemModel::KeywordCall { name, variables, position, .. } => {
            if position.line == pos.line && (!lk.strict || position_in_ast(pos, position)) {
                if call_name_holds(position, name, pos) {
                    Some((true, name.clone()))
                } else if lk.variables {
                    match ref_in(variables, pos) {
                        Some(t) => Some((false, normalize_var_name(t.as_str()))),
                        None => None,
                    }
                } else {
                    None
                }
            } else {
                None
            }
        },
        BodyItemModel::Loop { body, .. } => {
            proof {
                assert(decreases_to!(*item => body@));
            }
            body_lookup(body, pos, lk)
        },
        BodyItemModel::Branches { branches, .. } => {
            proof {
                assert(decreases_to!(*item => branches@));
            }
            branches_lookup(branches, pos, lk)
        },
        _ => None,
    }
}

fn body_lookup(items: &Vec<BodyItemModel>, pos: Position, lk: Lookup) -> (r: Option<(bool, String)>)
    ensures
        token_is(r, body_token(items@, pos, lk)),
    decreases items@,
{
    let mut res: Option<(bool, String)> = None;
    let mut i: usize = 0;
    while i < items.len()
        invariant
            i <= items.len(),
            token_is(res, body_token(items@.take(i as int), pos, lk)),
        decreases items.len() - i,
    {
        assert(items@.take(i + 1).drop_last() == items@.take(i as int));
        assert(items@.take(i + 1).last() == items@[i as int]);
        proof {
            assert(decreases_to!(items@ => items@[i as int]));
        }
        if res.is_none() {
            res = item_lookup(&items[i], pos, lk);
        }
        i += 1;
    }
    assert(items@.take(items.len() as int) == items@);
    res
}

fn branches_lookup(bs: &Vec<BranchModel>, pos: Position, lk: Lookup) -> (r: Option<(bool, String)>)
    ensures
        token_is(r, branches_token(bs@, pos, lk)),
    decreases bs@,
{
    let mut res: Option<(bool, String)> = None;
    let mut i: usize = 0;
    while i < bs.len()
        invariant
            i <= bs.len(),
            token_is(res, branches_token(bs@.take(i as int), pos, lk)),
        decreases bs.len() - i,
    {
        assert(bs@.take(i + 1).drop_last() == bs@.take(i as int));
        assert(bs@.take(i + 1).last() == bs@[i as int]);
        proof {
            assert(decreases_to!(bs@ => bs@[i as int].body@));
        }
        if res.is_none() {
            res = body_lookup(&bs[i].body, pos, lk);
        }
        i += 1;
    }
    assert(bs@.take(bs.len() as int) == bs@);
    res
}

fn blocks_lookup(bs: &Vec<BlockModel>, pos: Position, lk: Lookup, defs: bool) -> (r: Option<(bool, String)>)
    ensures
        token_is(r, blocks_token(bs@, pos, lk, defs)),
{
    let mut res: Option<(bool, String)> = None;
    let mut i: usize = 0;
    while i < bs.len()
        invariant
            i <= bs.len(),
            token_is(res, blocks_token(bs@.take(i as int), pos, lk, defs)),
        decreases bs.len() - i,
    {
        assert(bs@.take(i + 1).drop_last() == bs@.take(i as int));
        assert(bs@.take(i + 1).last() == bs@[i as int]);
        if res.is_none() {
            let b = &bs[i];
            if defs && position_in_ast(pos, &b.position) && pos.line == b.position.line {
                res = Some((true, b.name.clone()));
            } else {
                res = body_lookup(&b.body, pos, lk);
            }
        }
        i += 1;
    }
    assert(bs@.take(bs.len() as int) == bs@);
    res
}

/// The token under `pos` in `file` as `lk` sees it: `(true, name)` for a
/// keyword, `(false, normalized name)` for a variable.
pub fn token_under(file: &FileModel, pos: Position, lk: Lookup) -> (r: Option<(bool, String)>)
    ensures
        token_is(r, lookup(file.sections@, pos, lk)),
{
    let ss = &file.sections;
    let mut res: Option<(bool, String)> = None;
    let mut i: usize = 0;
    while i < ss.len()
        invariant
            i <= ss.len(),
            token_is(res, lookup(ss@.take(i as int), pos, lk)),
        decreases ss.len() - i,
    {
        assert(ss@.take(i + 1).drop_last() == ss@.take(i as int));
        assert(ss@.take(i + 1).last() == ss@[i as int]);
        if res.is_none() {
            res = match &ss[i] {
                SectionModel::TestCases { body, .. } => blocks_lookup(body, pos, lk, false),
                SectionModel::Tasks { body, .. } => blocks_lookup(body, pos, lk, false),
                SectionModel::Keywords { body, .. } => blocks_lookup(body, pos, lk, lk.definitions),
                SectionModel::Variables { body, .. } => if lk.definitions {
                    match variable_in(body, pos) {
                        Some(n) => Some((false, n)),
                        None => None,
                    }
                } else {
                    None
                },
                _ => None,
            };
        }
        i += 1;
    }
    assert(ss@.take(ss.len() as int) == ss@);
    res
}

// ── Collecting occurrences ───────────────────────────────────────────────────

type SiteVec = Vec<(bool, Range, String)>;

proof fn lemma_view_add(a: Seq<(bool, Range, String)>, x: (bool, Range, String))
    ensures
        sites_view(a.push(x)) == sites_view(a) + seq![(x.0, x.1, x.2@)],
{
    assert(sites_view(a.push(x)) =~= sites_view(a) + seq![(x.0, x.1, x.2@)]);
}

fn push_site(out: &mut SiteVec, d: bool, r: Range, text: String)
    ensures
        sites_view(final(out)@) == sites_view(old(out)@) + seq![(d, r, text@)],
{
    proof {
        lemma_view_add(out@, (d, r, text));
    }
    out.push((d, r, text));
}

fn name_range_of(p: &AstPosition, name: &String) -> (r: Range)
    ensures
        r == name_range(*p, name@),
{
    Range {
        start: Position { line: p.line, character: p.column },
        end: Position { line: p.line, character: p.column.wrapping_add(len_of(name)) },
    }
}

fn def_range_of(p: &AstPosition, name: &String, full: bool) -> (r: Range)
    ensures
        r == def_range(*p, name@, full),
{
    if full {
        crate::ast::ast_pos_to_range(p)
    } else {
        name_range_of(p, name)
    }
}

fn refs_into(out: &mut SiteVec, vars: &Vec<VariableRefModel>, line: u32, norm: &String)
    ensures
        sites_view(final(out)@) == sites_view(old(out)@) + ref_sites(vars@, line, norm@),
{
    let ghost o = sites_view(out@);
    let mut i: usize = 0;
    while i < vars.len()
        invariant
            i <= vars.len(),
            sites_view(out@) == o + ref_sites(vars@.take(i as int), line, norm@),
        decreases vars.len() - i,
    {
        assert(vars@.take(i + 1).drop_last() == vars@.take(i as int));
        assert(vars@.take(i + 1).last() == vars@[i as int]);
        let ghost before = sites_view(out@);
        let v = &vars[i];
        let n = normalize_var_name(v.text.as_str());
        if str_eq(n.as_str(), norm.as_str()) {
            let r = Range {
                start: Position { line, character: v.column.wrapping_add(v.start) },
                end: Position { line, character: v.column.wrapping_add(v.end) },
            };
            push_site(out, false, r, v.text.clone());
        } else {
            assert(before + Seq::<Site>::empty() =~= before);
        }
        assert(o + ref_sites(vars@.take(i + 1), line, norm@) =~= o + ref_sites(vars@.take(i as int), line, norm@)
            + (if normalized_var_name(vars@[i as int].text@) == norm@ {
            seq![(false, ref_range(vars@[i as int], line), vars@[i as int].text@)]
        } else {
            Seq::<Site>::empty()
        }));
        i += 1;
    }
    assert(vars@.take(vars.len() as int) == vars@);
}

fn item_sites_into(out: &mut SiteVec, item: &BodyItemModel, kw: bool, name: &String)
    ensures
        sites_view(final(out)@) == sites_view(old(out)@) + item_sites(*item, (kw, name@)),
    decreases *item,
{
    let ghost o = sites_view(out@);
    match item {
        BodyItemModel::KeywordCall { name: n, variables, position, .. } => {
            if kw {
                if str_eq(n.as_str(), name.as_str()) {
                    push_site(out, false, name_range_of(position, n), n.clone());
                } else {
                    assert(o + Seq::<Site>::empty() =~= o);
                }
            } else {
                refs_into(out, variables, position.line, name);
            }
        },
        BodyItemModel::Loop { body, .. } => {
            proof {
                assert(decreases_to!(*item => body@));
            }
            body_sites_into(out, body, kw, name);
        },
        BodyItemModel::Branches { branches, .. } => {
            proof {
                assert(decreases_to!(*item => branches@));
            }
            branches_sites_into(out, branches, kw, name);
        },
        _ => {
            assert(o + Seq::<Site>::empty() =~= o);
        },
    }
}

fn body_sites_into(out: &mut SiteVec, items: &Vec<BodyItemModel>, kw: bool, name: &String)
    ensures
        sites_view(final(out)@) == sites_view(old(out)@) + body_sites(items@, (kw, name@)),
    decreases items@,
{
    let ghost o = sites_view(out@);
    let mut i: usize = 0;
    assert(o + Seq::<Site>::empty() =~= o);
    while i < items.len()
        invariant
            i <= items.len(),
            sites_view(out@) == o + body_sites(items@.take(i as int), (kw, name@)),
        decreases items.len() - i,
    {
        assert(items@.take(i + 1).drop_last() == items@.take(i as int));
        assert(items@.take(i + 1).last() == items@[i as int]);
        proof {
            assert(decreases_to!(items@ => items@[i as int]));
        }
        item_sites_into(out, &items[i], kw, name);
        assert(o + body_sites(items@.take(i + 1), (kw, name@)) =~= o + body_sites(items@.take(i as int), (kw, name@))
            + item_sites(items@[i as int], (kw, name@)));
        i += 1;
    }
    assert(items@.take(items.len() as int) == items@);
}

fn branches_sites_into(out: &mut SiteVec, bs: &Vec<BranchModel>, kw: bool, name: &String)
    ensures
        sites_view(final(out)@) == sites_view(old(out)@) + branches_sites(bs@, (kw, name@)),
    decreases bs@,
{
    let ghost o = sites_view(out@);
    let mut i: usize = 0;
    assert(o + Seq::<Site>::empty() =~= o);
    while i < bs.len()
        invariant
            i <= bs.len(),
            sites_view(out@) == o + branches_sites(bs@.take(i as int), (kw, name@)),
        decreases bs.len() - i,
    {
        assert(bs@.take(i + 1).drop_last() == bs@.take(i as int));
        assert(bs@.take(i + 1).last() == bs@[i as int]);
        proof {
            assert(decreases_to!(bs@ => bs@[i as int].body@));
        }
        body_sites_into(out, &bs[i].body, kw, name);
        assert(o + branches_sites(bs@.take(i + 1), (kw, name@)) =~= o + branches_sites(bs@.take(i as int), (kw, name@))
            + body_sites(bs@[i as int].body@, (kw, name@)));
        i += 1;
    }
    assert(bs@.take(bs.len() as int) == bs@);
}

fn blocks_sites_into(out: &mut SiteVec, bs: &Vec<BlockModel>, kw: bool, name: &String, defs: bool, full: bool)
    ensures
        sites_view(final(out)@) == sites_view(old(out)@) + blocks_sites(bs@, (kw, name@), defs, full),
{
    let ghost o = sites_view(out@);
    let mut i: usize = 0;
    assert(o + Seq::<Site>::empty() =~= o);
    while i < bs.len()
        invariant
            i <= bs.len(),
            sites_view(out@) == o + blocks_sites(bs@.take(i as int), (kw, name@), defs, full),
        decreases bs.len() - i,
    {
        assert(bs@.take(i + 1).drop_last() == bs@.take(i as int));
        assert(bs@.take(i + 1).last() == bs@[i as int]);
        let ghost before = sites_view(out@);
        let b = &bs[i];
        if defs && kw && str_eq(b.name.as_str(), name.as_str()) {
            push_site(out, true, def_range_of(&b.position, &b.name, full), b.name.clone());
        } else {
            assert(before + Seq::<Site>::empty() =~= before);
        }
        body_sites_into(out, &b.body, kw, name);
        assert(o + blocks_sites(bs@.take(i + 1), (kw, name@), defs, full) =~= before + block_sites(
            bs@[i as int],
            (kw, name@),
            defs,
            full,
        ));
        i += 1;
    }
    assert(bs@.take(bs.len() as int) == bs@);
}

fn var_sites_into(out: &mut SiteVec, items: &Vec<VariableItemModel>, kw: bool, name: &String, full: bool)
    ensures
        sites_view(final(out)@) == sites_view(old(out)@) + var_sites(items@, (kw, name@), full),
{
    let ghost o = sites_view(out@);
    let mut i: usize = 0;
    assert(o + Seq::<Site>::empty() =~= o);
    while i < items.len()
        invariant
            i <= items.len(),
            sites_view(out@) == o + var_sites(items@.take(i as int), (kw, name@), full),
        decreases items.len() - i,
    {
        assert(items@.take(i + 1).drop_last() == items@.take(i as int));
        assert(items@.take(i + 1).last() == items@[i as int]);
        let ghost before = sites_view(out@);
        let mut hit = false;
        if let VariableItemModel::Variable { name: n, position, .. } = &items[i] {
            if !kw {
                let norm = normalize_var_name(n.as_str());
                if str_eq(norm.as_str(), name.as_str()) {
                    push_site(out, true, def_range_of(position, n, full), n.clone());
                    hit = true;
                }
            }
        }
        if !hit {
            assert(before + Seq::<Site>::empty() =~= before);
        }
        assert(o + var_sites(items@.take(i + 1), (kw, name@), full) =~= o + var_sites(
            items@.take(i as int),
            (kw, name@),
            full,
        ) + match items@[i as int] {
            VariableItemModel::Variable { name: vn, position, .. } => if !kw && normalized_var_name(vn@) == name@ {
                seq![(true, def_range(position, vn@, full), vn@)]
            } else {
                Seq::<Site>::empty()
            },
            _ => Seq::<Site>::empty(),
        });
        i += 1;
    }
    assert(items@.take(items.len() as int) == items@);
}

fn file_sites_of(file: &FileModel, kw: bool, name: &String, incl: bool, full: bool) -> (r: SiteVec)
    ensures
        sites_view(r@) == file_sites(file.sections@, (kw, name@), incl, full),
{
    let ss = &file.sections;
    let mut out: SiteVec = Vec::new();
    assert(sites_view(out@) =~= Seq::<Site>::empty());
    let mut i: usize = 0;
    while i < ss.len()
        invariant
            i <= ss.len(),
            sites_view(out@) == file_sites(ss@.take(i as int), (kw, name@), incl, full),
        decreases ss.len() - i,
    {
        assert(ss@.take(i + 1).drop_last() == ss@.take(i as int));
        assert(ss@.take(i + 1).last() == ss@[i as int]);
        let ghost before = sites_view(out@);
        match &ss[i] {
            SectionModel::TestCases { body, .. } => blocks_sites_into(&mut out, body, kw, name, false, full),
            SectionModel::Tasks { body, .. } => blocks_sites_into(&mut out, body, kw, name, false, full),
            SectionModel::Keywords { body, .. } => blocks_sites_into(&mut out, body, kw, name, incl, full),
            SectionModel::Variables { body, .. } => if incl {
                var_sites_into(&mut out, body, kw, name, full);
            } else {
                assert(before + Seq::<Site>::empty() =~= before);
            },
            _ => {
                assert(before + Seq::<Site>::empty() =~= before);
            },
        }
        assert(file_sites(ss@.take(i + 1), (kw, name@), incl, full) =~= before + section_sites(
            ss@[i as int],
            (kw, name@),
            incl,
            full,
        ));
        i += 1;
    }
    assert(ss@.take(ss.len() as int) == ss@);
    out
}

// ── References ───────────────────────────────────────────────────────────────

/// Locations as plain values.
pub open spec fn locations_view(v: Seq<Location>) -> Seq<LocationView> {
    v.map_values(|l: Location| (l.uri@, l.range))
}

/// The references in the document `uri` to the keyword or variable whose
/// name or definition is under `pos`: the calls of a keyword, by its name
/// as written, or the references to a variable, by its normalized name, in
/// the order the file holds them; with their definitions (the whole span)
/// when `incl` holds.  Nothing when nothing is under `pos`.
pub open spec fn references_spec(ss: Seq<SectionModel>, uri: Seq<char>, pos: Position, incl: bool) -> Seq<
    LocationView,
> {
    match lookup(ss, pos, names_lookup()) {
        Some(t) => file_sites(ss, t, incl, true).map_values(|s: Site| (uri, s.1)),
        None => Seq::empty(),
    }
}

proof fn lemma_locations_push(s: Seq<Location>, x: Location)
    ensures
        locations_view(s.push(x)) == locations_view(s).push((x.uri@, x.range)),
{
    assert(locations_view(s.push(x)) =~= locations_view(s).push((x.uri@, x.range)));
}

/// All references in `file` (the document `uri`) to the keyword or
/// variable at `pos`, with its definitions when `include_declaration`
/// holds.
pub fn references(file: &FileModel, uri: &str, pos: Position, include_declaration: bool) -> (r: Vec<Location>)
    ensures
        locations_view(r@) == references_spec(file.sections@, uri@, pos, include_declaration),
{
    let lk = Lookup { variables: false, strict: false, definitions: true };
    let mut r: Vec<Location> = Vec::new();
    match token_under(file, pos, lk) {
        None => {
            assert(locations_view(r@) =~= Seq::<LocationView>::empty());
        },
        Some((kw, name)) => {
            let sites = file_sites_of(file, kw, &name, include_declaration, true);
            let ghost all = sites_view(sites@).map_values(|s: Site| (uri@, s.1));
            let mut i: usize = 0;
            while i < sites.len()
                invariant
                    i <= sites.len(),
                    all == sites_view(sites@).map_values(|s: Site| (uri@, s.1)),
                    locations_view(r@) == all.take(i as int),
                decreases sites.len() - i,
            {
                let loc = Location { uri: uri.to_owned(), range: sites[i].1 };
                proof {
                    lemma_locations_push(r@, loc);
                    assert(all.take(i + 1) =~= all.take(i as int).push(all[i as int]));
                    assert(sites_view(sites@)[i as int] == (sites@[i as int].0, sites@[i as int].1, sites@[i as int].2@));
                }
                r.push(loc);
                i += 1;
            }
            assert(all.take(sites.len() as int) =~= all);
        },
    }
    r
}

// ── Rename ───────────────────────────────────────────────────────────────────

/// A char that decorates a variable name: a sigil or a brace.
pub open spec fn is_decor(c: char) -> bool {
    c == '{' || c == '}' || c == '$' || c == '@' || c == '&' || c == '%'
}

/// `s` without the decorating chars at its start.
pub open spec fn strip_decor_start(s: Seq<char>) -> Seq<char>
    decreases s.len(),
{
    if s.len() > 0 && is_decor(s[0]) {
        strip_decor_start(s.drop_first())
    } else {
        s
    }
}

/// `s` without the decorating chars at its end.
pub open spec fn strip_decor_end(s: Seq<char>) -> Seq<char>
    decreases s.len(),
{
    if s.len() > 0 && is_decor(s.last()) {
        strip_decor_end(s.drop_last())
    } else {
        s
    }
}

/// The new text of the variable written `old` renamed to `new_name`: the
/// sigil of `old` (`$` when it is empty), then `new_name` without its
/// decorations, in braces.
pub open spec fn renamed_variable(old: Seq<char>, new_name: Seq<char>) -> Seq<char> {
    seq![if old.len() > 0 { old[0] } else { '$' }, '{'] + strip_decor_end(strip_decor_start(new_name)) + seq!['}']
}

/// The text that replaces the occurrence `s` of `t`.
pub open spec fn edit_text(t: TokenView, s: Site, new_name: Seq<char>) -> Seq<char> {
    if t.0 {
        new_name
    } else {
        renamed_variable(s.2, new_name)
    }
}

/// The edits that rename the keyword or variable whose name or definition
/// is under `pos` to `new_name`: each occurrence (a definition by its name
/// only) with its new text.  Nothing when nothing is under `pos` or it
/// occurs nowhere.
pub open spec fn rename_edits(ss: Seq<SectionModel>, pos: Position, new_name: Seq<char>) -> Option<
    Seq<(Range, Seq<char>)>,
> {
    match lookup(ss, pos, names_lookup()) {
        Some(t) => {
            let es = file_sites(ss, t, true, false);
            if es.len() == 0 {
                None
            } else {
                Some(es.map_values(|s: Site| (s.1, edit_text(t, s, new_name))))
            }
        },
        None => None,
    }
}

/// Edits as plain values.
pub open spec fn edits_view(v: Seq<TextEdit>) -> Seq<(Range, Seq<char>)> {
    v.map_values(|e: TextEdit| (e.range, e.new_text@))
}

proof fn lemma_edits_push(s: Seq<TextEdit>, x: TextEdit)
    ensures
        edits_view(s.push(x)) == edits_view(s).push((x.range, x.new_text@)),
{
    assert(edits_view(s.push(x)) =~= edits_view(s).push((x.range, x.new_text@)));
}

fn is_decor_char(c: char) -> (r: bool)
    ensures
        r == is_decor(c),
{
    c == '{' || c == '}' || c == '$' || c == '@' || c == '&' || c == '%'
}

fn renamed_variable_of(old: &String, new_name: &str) -> (r: String)
    ensures
        r@ == renamed_variable(old@, new_name@),
{
    let o = chars_of(old.as_str());
    let sigil = if o.len() > 0 {
        o[0]
    } else {
        '$'
    };
    let n = chars_of(new_name);
    let mut a: usize = 0;
    assert(n@.skip(0) == n@);
    while a < n.len() && is_decor_char(n[a])
        invariant
            a <= n.len(),
            strip_decor_start(n@.skip(a as int)) == strip_decor_start(n@),
        decreases n.len() - a,
    {
        assert(n@.skip(a as int).drop_first() == n@.skip(a + 1));
        a += 1;
    }
    if a < n.len() {
        assert(n@.skip(a as int)[0] == n@[a as int]);
    }
    assert(strip_decor_start(n@) == n@.skip(a as int));
    let mut b: usize = n.len();
    assert(n@.subrange(a as int, b as int) == n@.skip(a as int));
    while b > a && is_decor_char(n[b - 1])
        invariant
            a <= b <= n.len(),
            strip_decor_end(n@.subrange(a as int, b as int)) == strip_decor_end(n@.skip(a as int)),
        decreases b - a,
    {
        assert(n@.subrange(a as int, b as int).drop_last() == n@.subrange(a as int, b - 1));
        b -= 1;
    }
    if b > a {
        assert(n@.subrange(a as int, b as int).last() == n@[b - 1]);
    }
    assert(strip_decor_end(strip_decor_start(n@)) == n@.subrange(a as int, b as int));
    let mut out: Vec<char> = Vec::new();
    out.push(sigil);
    out.push('{');
    let mut k: usize = a;
    while k < b
        invariant
            a <= k <= b <= n.len(),
            out@ == seq![sigil, '{'] + n@.subrange(a as int, k as int),
        decreases b - k,
    {
        out.push(n[k]);
        k += 1;
        assert(n@.subrange(a as int, k as int) == n@.subrange(a as int, k - 1).push(n@[k - 1]));
    }
    out.push('}');
    string_of(&out)
}

/// The edits in the document `uri` that rename the keyword or variable at
/// `pos` in `file` to `new_name`; nothing when there is nothing to rename.
pub fn rename(file: &FileModel, uri: &str, pos: Position, new_name: String) -> (r: Option<WorkspaceEdit>)
    ensures
        match rename_edits(file.sections@, pos, new_name@) {
            None => r is None,
            Some(es) => r matches Some(w) && w.changes matches Some(c) && c@.len() == 1 && c@[0].0@ == uri@
                && edits_view(c@[0].1@) == es,
        },
{
    let lk = Lookup { variables: false, strict: false, definitions: true };
    match token_under(file, pos, lk) {
        None => None,
        Some((kw, name)) => {
            let sites = file_sites_of(file, kw, &name, true, false);
            if sites.len() == 0 {
                return None;
            }
            let ghost t: TokenView = (kw, name@);
            let ghost all = sites_view(sites@).map_values(|s: Site| (s.1, edit_text(t, s, new_name@)));
            let mut edits: Vec<TextEdit> = Vec::new();
            let mut i: usize = 0;
            while i < sites.len()
                invariant
                    i <= sites.len(),
                    t == (kw, name@),
                    all == sites_view(sites@).map_values(|s: Site| (s.1, edit_text(t, s, new_name@))),
                    edits_view(edits@) == all.take(i as int),
                decreases sites.len() - i,
            {
                let text = if kw {
                    new_name.clone()
                } else {
                    renamed_variable_of(&sites[i].2, new_name.as_str())
                };
                let e = TextEdit { range: sites[i].1, new_text: text };
                proof {
                    lemma_edits_push(edits@, e);
                    assert(all.take(i + 1) =~= all.take(i as int).push(all[i as int]));
                    assert(sites_view(sites@)[i as int] == (sites@[i as int].0, sites@[i as int].1, sites@[i as int].2@));
                }
                edits.push(e);
                i += 1;
            }
            assert(all.take(sites.len() as int) =~= all);
            let mut changes: Vec<(String, Vec<TextEdit>)> = Vec::new();
            changes.push((uri.to_owned(), edits));
            Some(WorkspaceEdit { changes: Some(changes) })
        },
    }
}

// ── Highlights ───────────────────────────────────────────────────────────────

/// A definition is highlighted as text, any other occurrence as a read.
pub open spec fn highlight_kind(s: Site) -> DocumentHighlightKind {
    if s.0 {
        DocumentHighlightKind::Text
    } else {
        DocumentHighlightKind::Read
    }
}

/// The highlights of the keyword or variable under `pos`: its occurrences
/// in the file (definitions by their whole span), in order, each with its
/// kind.  Nothing when nothing is under `pos`.
pub open spec fn highlight_spec(ss: Seq<SectionModel>, pos: Position) -> Seq<
    (Range, Option<DocumentHighlightKind>),
> {
    match lookup(ss, pos, highlight_lookup()) {
        Some(t) => file_sites(ss, t, true, true).map_values(|s: Site| (s.1, Some(highlight_kind(s)))),
        None => Seq::empty(),
    }
}

/// Highlights as plain values.
pub open spec fn highlights_view(v: Seq<DocumentHighlight>) -> Seq<(Range, Option<DocumentHighlightKind>)> {
    v.map_values(|h: DocumentHighlight| (h.range, h.kind))
}

proof fn lemma_highlights_push(s: Seq<DocumentHighlight>, x: DocumentHighlight)
    ensures
        highlights_view(s.push(x)) == highlights_view(s).push((x.range, x.kind)),
{
    assert(highlights_view(s.push(x)) =~= highlights_view(s).push((x.range, x.kind)));
}

/// The highlights of every occurrence in `file` of the keyword or variable
/// under `pos`.
pub fn document_highlight(file: &FileModel, pos: Position) -> (r: Vec<DocumentHighlight>)
    ensures
        highlights_view(r@) == highlight_spec(file.sections@, pos),
{
    let lk = Lookup { variables: true, strict: true, definitions: true };
    let mut r: Vec<DocumentHighlight> = Vec::new();
    match token_under(file, pos, lk) {
        None => {
            assert(highlights_view(r@) =~= Seq::<(Range, Option<DocumentHighlightKind>)>::empty());
        },
        Some((kw, name)) => {
            let sites = file_sites_of(file, kw, &name, true, true);
            let ghost all = sites_view(sites@).map_values(|s: Site| (s.1, Some(highlight_kind(s))));
            let mut i: usize = 0;
            while i < sites.len()
                invariant
                    i <= sites.len(),
                    all == sites_view(sites@).map_values(|s: Site| (s.1, Some(highlight_kind(s)))),
                    highlights_view(r@) == all.take(i as int),
                decreases sites.len() - i,
            {
                let kind = if sites[i].0 {
                    DocumentHighlightKind::Text
                } else {
                    DocumentHighlightKind::Read
                };
                let h = DocumentHighlight { range: sites[i].1, kind: Some(kind) };
                proof {
                    lemma_highlights_push(r@, h);
                    assert(all.take(i + 1) =~= all.take(i as int).push(all[i as int]));
                    assert(sites_view(sites@)[i as int] == (sites@[i as int].0, sites@[i as int].1, sites@[i as int].2@));
                }
                r.push(h);
                i += 1;
            }
            assert(all.take(sites.len() as int) =~= all);
        },
    }
    r
}

// ── Every occurrence is found ────────────────────────────────────────────────

proof fn lemma_item_sites_hold(item: BodyItemModel, x: BodyItemModel, t: TokenView, st: Site)
    requires
        item_holds(item, x),
        item_sites(x, t).contains(st),
    ensures
        item_sites(item, t).contains(st),
    decreases item,
{
    if item != x {
        match item {
            BodyItemModel::Loop { body, .. } => {
                lemma_body_sites_hold(body@, x, t, st);
            },
            BodyItemModel::Branches { branches, .. } => {
                lemma_branches_sites_hold(branches@, x, t, st);
            },
            _ => {},
        }
    }
}

proof fn lemma_body_sites_hold(items: Seq<BodyItemModel>, x: BodyItemModel, t: TokenView, st: Site)
    requires
        body_holds(items, x),
        item_sites(x, t).contains(st),
    ensures
        body_sites(items, t).contains(st),
    decreases items,
{
    if body_holds(items.drop_last(), x) {
        lemma_body_sites_hold(items.drop_last(), x, t, st);
    } else {
        lemma_item_sites_hold(items.last(), x, t, st);
    }
    lemma_contains_add(body_sites(items.drop_last(), t), item_sites(items.last(), t), st);
}

proof fn lemma_branches_sites_hold(bs: Seq<BranchModel>, x: BodyItemModel, t: TokenView, st: Site)
    requires
        branches_hold(bs, x),
        item_sites(x, t).contains(st),
    ensures
        branches_sites(bs, t).contains(st),
    decreases bs,
{
    if branches_hold(bs.drop_last(), x) {
        lemma_branches_sites_hold(bs.drop_last(), x, t, st);
    } else {
        lemma_body_sites_hold(bs.last().body@, x, t, st);
    }
    lemma_contains_add(branches_sites(bs.drop_last(), t), body_sites(bs.last().body@, t), st);
}

proof fn lemma_blocks_sites_hold(bs: Seq<BlockModel>, j: int, x: BodyItemModel, t: TokenView, defs: bool, full: bool, st: Site)
    requires
        0 <= j < bs.len(),
        body_holds(bs[j].body@, x),
        item_sites(x, t).contains(st),
    ensures
        blocks_sites(bs, t, defs, full).contains(st),
    decreases bs.len(),
{
    let b = bs.last();
    let d = if defs && t.0 && b.name@ == t.1 {
        seq![(true, def_range(b.position, b.name@, full), b.name@)]
    } else {
        Seq::empty()
    };
    assert(block_sites(b, t, defs, full) == d + body_sites(b.body@, t));
    if j < bs.len() - 1 {
        assert(bs.drop_last()[j] == bs[j]);
        lemma_blocks_sites_hold(bs.drop_last(), j, x, t, defs, full, st);
    } else {
        lemma_body_sites_hold(b.body@, x, t, st);
        lemma_contains_add(d, body_sites(b.body@, t), st);
    }
    lemma_contains_add(blocks_sites(bs.drop_last(), t, defs, full), block_sites(b, t, defs, full), st);
}

proof fn lemma_file_sites_hold(ss: Seq<SectionModel>, k: int, j: int, x: BodyItemModel, t: TokenView, incl: bool, full: bool, st: Site)
    requires
        block_holds(ss, k, j, x),
        item_sites(x, t).contains(st),
    ensures
        file_sites(ss, t, incl, full).contains(st),
    decreases ss.len(),
{
    if k < ss.len() - 1 {
        assert(ss.drop_last()[k] == ss[k]);
        lemma_file_sites_hold(ss.drop_last(), k, j, x, t, incl, full, st);
    } else {
        let s = ss[k];
        match s {
            SectionModel::TestCases { body, .. } => lemma_blocks_sites_hold(body@, j, x, t, false, full, st),
            SectionModel::Tasks { body, .. } => lemma_blocks_sites_hold(body@, j, x, t, false, full, st),
            SectionModel::Keywords { body, .. } => lemma_blocks_sites_hold(body@, j, x, t, incl, full, st),
            _ => {},
        }
    }
    lemma_contains_add(file_sites(ss.drop_last(), t, incl, full), section_sites(ss.last(), t, incl, full), st);
}

proof fn lemma_ref_sites_hold(vars: Seq<VariableRefModel>, i: int, line: u32, norm: Seq<char>)
    requires
        0 <= i < vars.len(),
        normalized_var_name(vars[i].text@) == norm,
    ensures
        ref_sites(vars, line, norm).contains((false, ref_range(vars[i], line), vars[i].text@)),
    decreases vars.len(),
{
    let st = (false, ref_range(vars[i], line), vars[i].text@);
    let tail = if normalized_var_name(vars.last().text@) == norm {
        seq![(false, ref_range(vars.last(), line), vars.last().text@)]
    } else {
        Seq::<Site>::empty()
    };
    if i < vars.len() - 1 {
        assert(vars.drop_last()[i] == vars[i]);
        lemma_ref_sites_hold(vars.drop_last(), i, line, norm);
    } else {
        assert(tail[0] == st);
    }
    lemma_contains_add(ref_sites(vars.drop_last(), line, norm), tail, st);
}

proof fn lemma_mapped_contains<A, B>(s: Seq<A>, x: A, f: spec_fn(A) -> B)
    requires
        s.contains(x),
    ensures
        s.map_values(f).contains(f(x)),
{
    let i = choose|i: int| 0 <= i < s.len() && s[i] == x;
    assert(s.map_values(f)[i] == f(x));
}

/// The range of the name of a call at `p` named `name`.
pub open spec fn call_name_range(p: AstPosition, name: Seq<char>) -> Range {
    Range {
        start: Position { line: p.line, character: p.column },
        end: Position { line: p.line, character: wrapping_add(p.column, len32(name)) },
    }
}

/// When the keyword `name` is under the cursor, every call of it in the
/// file, at any depth inside loops and branches of a test case, task or
/// keyword, is among its references (by the range of its name), and rename
/// rewrites that range to the new name.
pub proof fn lemma_references_find_every_call(
    ss: Seq<SectionModel>,
    uri: Seq<char>,
    pos: Position,
    incl: bool,
    new_name: Seq<char>,
    k: int,
    j: int,
    name: String,
    args: Vec<String>,
    assigns: Vec<String>,
    variables: Vec<VariableRefModel>,
    position: AstPosition,
)
    requires
        lookup(ss, pos, names_lookup()) == Some((true, name@)),
        block_holds(ss, k, j, BodyItemModel::KeywordCall { name, args, assigns, variables, position }),
    ensures
        references_spec(ss, uri, pos, incl).contains((uri, call_name_range(position, name@))),
        rename_edits(ss, pos, new_name) matches Some(es) && es.contains((call_name_range(position, name@), new_name)),
{
    let x = BodyItemModel::KeywordCall { name, args, assigns, variables, position };
    let t: TokenView = (true, name@);
    let st: Site = (false, call_name_range(position, name@), name@);
    assert(item_sites(x, t)[0] == st);
    lemma_file_sites_hold(ss, k, j, x, t, incl, true, st);
    lemma_mapped_contains(file_sites(ss, t, incl, true), st, |s: Site| (uri, s.1));
    lemma_file_sites_hold(ss, k, j, x, t, true, false, st);
    lemma_mapped_contains(file_sites(ss, t, true, false), st, |s: Site| (s.1, edit_text(t, s, new_name)));
}

/// When a variable is under the cursor, every reference to it (by its
/// normalized name) in the arguments of a call, at any depth inside loops
/// and branches, is among its references and is highlighted where a
/// highlight finds that variable too.
pub proof fn lemma_references_find_every_variable(
    ss: Seq<SectionModel>,
    uri: Seq<char>,
    pos: Position,
    incl: bool,
    norm: Seq<char>,
    k: int,
    j: int,
    name: String,
    args: Vec<String>,
    assigns: Vec<String>,
    variables: Vec<VariableRefModel>,
    position: AstPosition,
    i: int,
)
    requires
        block_holds(ss, k, j, BodyItemModel::KeywordCall { name, args, assigns, variables, position }),
        0 <= i < variables@.len(),
        normalized_var_name(variables@[i].text@) == norm,
    ensures
        lookup(ss, pos, names_lookup()) == Some((false, norm)) ==> references_spec(ss, uri, pos, incl).contains(
            (
                uri,
                Range {
                    start: Position { line: position.line, character: wrapping_add(variables@[i].column, variables@[i].start) },
                    end: Position { line: position.line, character: wrapping_add(variables@[i].column, variables@[i].end) },
                },
            ),
        ),
        lookup(ss, pos, highlight_lookup()) == Some((false, norm)) ==> highlight_spec(ss, pos).contains(
            (
                Range {
                    start: Position { line: position.line, character: wrapping_add(variables@[i].column, variables@[i].start) },
                    end: Position { line: position.line, character: wrapping_add(variables@[i].column, variables@[i].end) },
                },
                Some(DocumentHighlightKind::Read),
            ),
        ),
{
    let x = BodyItemModel::KeywordCall { name, args, assigns, variables, position };
    let t: TokenView = (false, norm);
    let v = variables@[i];
    let st: Site = (false, ref_range(v, position.line), v.text@);
    lemma_ref_sites_hold(variables@, i, position.line, norm);
    lemma_file_sites_hold(ss, k, j, x, t, incl, true, st);
    lemma_mapped_contains(file_sites(ss, t, incl, true), st, |s: Site| (uri, s.1));
    lemma_file_sites_hold(ss, k, j, x, t, true, true, st);
    lemma_mapped_contains(file_sites(ss, t, true, true), st, |s: Site| (s.1, Some(highlight_kind(s))));
}

/// When the keyword `name` is under the cursor for a highlight, every call
/// of it in the file, at any depth, is highlighted as a read.
pub proof fn lemma_highlight_finds_every_call(
    ss: Seq<SectionModel>,
    pos: Position,
    k: int,
    j: int,
    name: String,
    args: Vec<String>,
    assigns: Vec<String>,
    variables: Vec<VariableRefModel>,
    position: AstPosition,
)
    requires
        lookup(ss, pos, highlight_lookup()) == Some((true, name@)),
        block_holds(ss, k, j, BodyItemModel::KeywordCall { name, args, assigns, variables, position }),
    ensures
        highlight_spec(ss, pos).contains((call_name_range(position, name@), Some(DocumentHighlightKind::Read))),
{
    let x = BodyItemModel::KeywordCall { name, args, assigns, variables, position };
    let t: TokenView = (true, name@);
    let st: Site = (false, call_name_range(position, name@), name@);
    assert(item_sites(x, t)[0] == st);
    lemma_file_sites_hold(ss, k, j, x, t, true, true, st);
    lemma_mapped_contains(file_sites(ss, t, true, true), st, |s: Site| (s.1, Some(highlight_kind(s))));
}

// ── Every definition is found ────────────────────────────────────────────────

proof fn lemma_section_sites_in_file(ss: Seq<SectionModel>, k: int, t: TokenView, incl: bool, full: bool, st: Site)
    requires
        0 <= k < ss.len(),
        section_sites(ss[k], t, incl, full).contains(st),
    ensures
        file_sites(ss, t, incl, full).contains(st),
    decreases ss.len(),
{
    if k < ss.len() - 1 {
        assert(ss.drop_last()[k] == ss[k]);
        lemma_section_sites_in_file(ss.drop_last(), k, t, incl, full, st);
    }
    lemma_contains_add(file_sites(ss.drop_last(), t, incl, full), section_sites(ss.last(), t, incl, full), st);
}

proof fn lemma_blocks_def_hold(bs: Seq<BlockModel>, j: int, t: TokenView, full: bool)
    requires
        0 <= j < bs.len(),
        t.0,
        bs[j].name@ == t.1,
    ensures
        blocks_sites(bs, t, true, full).contains((true, def_range(bs[j].position, bs[j].name@, full), bs[j].name@)),
    decreases bs.len(),
{
    let st: Site = (true, def_range(bs[j].position, bs[j].name@, full), bs[j].name@);
    let b = bs.last();
    let d = if t.0 && b.name@ == t.1 {
        seq![(true, def_range(b.position, b.name@, full), b.name@)]
    } else {
        Seq::empty()
    };
    assert(block_sites(b, t, true, full) == d + body_sites(b.body@, t));
    if j < bs.len() - 1 {
        assert(bs.drop_last()[j] == bs[j]);
        lemma_blocks_def_hold(bs.drop_last(), j, t, full);
    } else {
        assert(d[0] == st);
        lemma_contains_add(d, body_sites(b.body@, t), st);
    }
    lemma_contains_add(blocks_sites(bs.drop_last(), t, true, full), block_sites(b, t, true, full), st);
}

proof fn lemma_var_def_hold(
    items: Seq<VariableItemModel>,
    i: int,
    t: TokenView,
    full: bool,
    name: String,
    value: Vec<String>,
    position: AstPosition,
)
    requires
        0 <= i < items.len(),
        items[i] == (VariableItemModel::Variable { name, value, position }),
        !t.0,
        normalized_var_name(name@) == t.1,
    ensures
        var_sites(items, t, full).contains((true, def_range(position, name@, full), name@)),
    decreases items.len(),
{
    let st: Site = (true, def_range(position, name@, full), name@);
    let tail = match items.last() {
        VariableItemModel::Variable { name: vn, position: vp, .. } => if !t.0 && normalized_var_name(vn@) == t.1 {
            seq![(true, def_range(vp, vn@, full), vn@)]
        } else {
            Seq::<Site>::empty()
        },
        _ => Seq::<Site>::empty(),
    };
    if i < items.len() - 1 {
        assert(items.drop_last()[i] == items[i]);
        lemma_var_def_hold(items.drop_last(), i, t, full, name, value, position);
    } else {
        assert(tail[0] == st);
    }
    lemma_contains_add(var_sites(items.drop_last(), t, full), tail, st);
}

/// When the keyword `name` is under the cursor, every keyword of the file
/// named `name` is among its references with the declaration (its whole
/// span), is highlighted as text, and rename rewrites its name.
pub proof fn lemma_references_find_every_definition(
    ss: Seq<SectionModel>,
    uri: Seq<char>,
    pos: Position,
    new_name: Seq<char>,
    k: int,
    j: int,
)
    requires
        0 <= k < ss.len(),
        ss[k] is Keywords,
        0 <= j < section_blocks(ss[k]).len(),
        lookup(ss, pos, names_lookup()) == Some((true, section_blocks(ss[k])[j].name@)),
    ensures
        references_spec(ss, uri, pos, true).contains((uri, ast_range(section_blocks(ss[k])[j].position))),
        rename_edits(ss, pos, new_name) matches Some(es) && es.contains(
            (call_name_range(section_blocks(ss[k])[j].position, section_blocks(ss[k])[j].name@), new_name),
        ),
{
    let b = section_blocks(ss[k])[j];
    let t: TokenView = (true, b.name@);
    lemma_blocks_def_hold(section_blocks(ss[k]), j, t, true);
    lemma_blocks_def_hold(section_blocks(ss[k]), j, t, false);
    let s1: Site = (true, def_range(b.position, b.name@, true), b.name@);
    let s2: Site = (true, def_range(b.position, b.name@, false), b.name@);
    lemma_section_sites_in_file(ss, k, t, true, true, s1);
    lemma_section_sites_in_file(ss, k, t, true, false, s2);
    lemma_mapped_contains(file_sites(ss, t, true, true), s1, |s: Site| (uri, s.1));
    lemma_mapped_contains(file_sites(ss, t, true, false), s2, |s: Site| (s.1, edit_text(t, s, new_name)));
}

/// When a variable is under the cursor, every definition of it (by its
/// normalized name) in a variables section is among its references with the
/// declaration, and rename rewrites its name keeping its sigil.
pub proof fn lemma_references_find_every_variable_definition(
    ss: Seq<SectionModel>,
    uri: Seq<char>,
    pos: Position,
    new_name: Seq<char>,
    k: int,
    i: int,
    name: String,
    value: Vec<String>,
    position: AstPosition,
)
    requires
        0 <= k < ss.len(),
        ss[k] matches SectionModel::Variables { body, .. } && 0 <= i < body@.len() && body@[i] == (VariableItemModel::Variable { name, value, position }),
        lookup(ss, pos, names_lookup()) == Some((false, normalized_var_name(name@))),
    ensures
        references_spec(ss, uri, pos, true).contains((uri, ast_range(position))),
        rename_edits(ss, pos, new_name) matches Some(es) && es.contains(
            (call_name_range(position, name@), renamed_variable(name@, new_name)),
        ),
{
    let t: TokenView = (false, normalized_var_name(name@));
    if let SectionModel::Variables { body, .. } = ss[k] {
        lemma_var_def_hold(body@, i, t, true, name, value, position);
        lemma_var_def_hold(body@, i, t, false, name, value, position);
    }
    let s1: Site = (true, def_range(position, name@, true), name@);
    let s2: Site = (true, def_range(position, name@, false), name@);
    lemma_section_sites_in_file(ss, k, t, true, true, s1);
    lemma_section_sites_in_file(ss, k, t, true, false, s2);
    lemma_mapped_contains(file_sites(ss, t, true, true), s1, |s: Site| (uri, s.1));
    lemma_mapped_contains(file_sites(ss, t, true, false), s2, |s: Site| (s.1, edit_text(t, s, new_name)));
}

// ── A call under the cursor is always found ──────────────────────────────────

/// `x` is a call whose name is under `pos` as the lookup `lk` sees calls.
pub open spec fn call_seen(x: BodyItemModel, pos: Position, lk: Lookup) -> bool {
    x matches BodyItemModel::KeywordCall { name, position, .. } && position.line == pos.line && (!lk.strict
        || range_holds_closed(ast_range(position), pos)) && on_call_name(position, name@, pos)
}

proof fn lemma_item_token_found(item: BodyItemModel, x: BodyItemModel, pos: Position, lk: Lookup)
    requires
        item_holds(item, x),
        call_seen(x, pos, lk),
    ensures
        item_token(item, pos, lk) is Some,
    decreases item,
{
    if item != x {
        match item {
            BodyItemModel::Loop { body, .. } => lemma_body_token_found(body@, x, pos, lk),
            BodyItemModel::Branches { branches, .. } => lemma_branches_token_found(branches@, x, pos, lk),
            _ => {},
        }
    }
}

proof fn lemma_body_token_found(items: Seq<BodyItemModel>, x: BodyItemModel, pos: Position, lk: Lookup)
    requires
        body_holds(items, x),
        call_seen(x, pos, lk),
    ensures
        body_token(items, pos, lk) is Some,
    decreases items,
{
    if body_holds(items.drop_last(), x) {
        lemma_body_token_found(items.drop_last(), x, pos, lk);
    } else {
        lemma_item_token_found(items.last(), x, pos, lk);
    }
}

proof fn lemma_branches_token_found(bs: Seq<BranchModel>, x: BodyItemModel, pos: Position, lk: Lookup)
    requires
        branches_hold(bs, x),
        call_seen(x, pos, lk),
    ensures
        branches_token(bs, pos, lk) is Some,
    decreases bs,
{
    if branches_hold(bs.drop_last(), x) {
        lemma_branches_token_found(bs.drop_last(), x, pos, lk);
    } else {
        lemma_body_token_found(bs.last().body@, x, pos, lk);
    }
}

proof fn lemma_blocks_token_found(bs: Seq<BlockModel>, j: int, x: BodyItemModel, pos: Position, lk: Lookup, defs: bool)
    requires
        0 <= j < bs.len(),
        body_holds(bs[j].body@, x),
        call_seen(x, pos, lk),
    ensures
        blocks_token(bs, pos, lk, defs) is Some,
    decreases bs.len(),
{
    if j < bs.len() - 1 {
        assert(bs.drop_last()[j] == bs[j]);
        lemma_blocks_token_found(bs.drop_last(), j, x, pos, lk, defs);
    } else {
        lemma_body_token_found(bs.last().body@, x, pos, lk);
    }
}

proof fn lemma_lookup_found(ss: Seq<SectionModel>, k: int, j: int, x: BodyItemModel, pos: Position, lk: Lookup)
    requires
        block_holds(ss, k, j, x),
        call_seen(x, pos, lk),
    ensures
        lookup(ss, pos, lk) is Some,
    decreases ss.len(),
{
    if k < ss.len() - 1 {
        assert(ss.drop_last()[k] == ss[k]);
        lemma_lookup_found(ss.drop_last(), k, j, x, pos, lk);
    } else if lookup(ss.drop_last(), pos, lk) is None {
        match ss[k] {
            SectionModel::TestCases { body, .. } => lemma_blocks_token_found(body@, j, x, pos, lk, false),
            SectionModel::Tasks { body, .. } => lemma_blocks_token_found(body@, j, x, pos, lk, false),
            SectionModel::Keywords { body, .. } => lemma_blocks_token_found(body@, j, x, pos, lk, lk.definitions),
            _ => {},
        }
    }
}

/// Whenever the cursor is on the name of a keyword call, at any depth
/// inside loops and branches, references and rename find something under
/// it, and so do highlights when the call's span holds the cursor, and so
/// does hover.
pub proof fn lemma_call_under_cursor_looked_up(ss: Seq<SectionModel>, pos: Position, k: int, j: int, x: BodyItemModel)
    requires
        block_holds(ss, k, j, x),
        call_seen(x, pos, names_lookup()),
    ensures
        lookup(ss, pos, names_lookup()) is Some,
        lookup(ss, pos, hover_lookup()) is Some,
        call_seen(x, pos, highlight_lookup()) ==> lookup(ss, pos, highlight_lookup()) is Some,
{
    lemma_lookup_found(ss, k, j, x, pos, names_lookup());
    lemma_lookup_found(ss, k, j, x, pos, hover_lookup());
    if call_seen(x, pos, highlight_lookup()) {
        lemma_lookup_found(ss, k, j, x, pos, highlight_lookup());
    }
}

} // verus!
