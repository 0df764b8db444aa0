//! Signature help: the signature of a called keyword, with the argument
//! being typed marked active.
use vstd::prelude::*;

use crate::ast::{block_holds, body_holds, branches_hold, item_holds, section_blocks, BlockModel, BodyItemModel, BranchModel, FileModel, SectionModel};
use crate::inlay::len32;
use crate::lsp::Position;
use crate::path::utf8_byte_len;
use vstd::wrapping::u32_specs::{wrapping_add, wrapping_mul};
use crate::completion::{body_arguments, local_keywords, strings_view, KeywordModel};
use crate::keywords::{format_signature_label, signature_label};
use crate::lsp_items::{ParameterInformation, SignatureHelp, SignatureInformation};
use crate::text::str_eq;

verus! {

/// A signature as plain values: label, documentation, parameter names and
/// the active parameter.
pub struct SignatureView {
    pub label: Seq<char>,
    pub documentation: Option<Seq<char>>,
    pub parameters: Seq<Seq<char>>,
    pub active: Option<u32>,
}

/// `h` offers the one signature `v`, active, with `v`'s active parameter.
pub open spec fn is_signature_help(h: SignatureHelp, v: SignatureView) -> bool {
    &&& h.signatures@.len() == 1
    &&& h.active_signature == Some(0u32)
    &&& h.active_parameter == v.active
    &&& h.signatures@[0].label@ == v.label
    &&& h.signatures@[0].documentation matches Some(d) ==> v.documentation == Some(d@)
    &&& h.signatures@[0].documentation is None ==> v.documentation is None
    &&& h.signatures@[0].active_parameter == v.active
    &&& h.signatures@[0].parameters matches Some(ps) && ps@.len() == v.parameters.len() && forall|j: int|
        0 <= j < ps@.len() ==> (#[trigger] ps@[j]).label@ == v.parameters[j] && ps@[j].documentation is None
}

/// The active parameter for argument `arg_index` among `n` parameters: that
/// argument when it exists, else the last parameter (its index as `u32`,
/// wrapping), none without parameters.
pub open spec fn active_parameter(arg_index: u32, n: nat) -> Option<u32> {
    if arg_index < n {
        Some(arg_index)
    } else if n > 0 {
        Some(vstd::wrapping::u32_specs::wrapping_sub(n as u32, 1u32))
    } else {
        None
    }
}

/// The signature of keyword `name` with arguments `args` and documentation
/// `doc`.
pub open spec fn signature_of(name: Seq<char>, args: Seq<Seq<char>>, doc: Option<Seq<char>>, arg_index: u32) -> SignatureView {
    SignatureView {
        label: signature_label(name, args),
        documentation: doc,
        parameters: args,
        active: active_parameter(arg_index, args.len()),
    }
}

/// The first of `bs` named exactly `name`.
pub open spec fn first_named(bs: Seq<BlockModel>, name: Seq<char>) -> Option<BlockModel>
    decreases bs.len(),
{
    if bs.len() == 0 {
        None
    } else {
        match first_named(bs.drop_last(), name) {
            Some(b) => Some(b),
            None => if bs.last().name@ == name {
                Some(bs.last())
            } else {
                None
            },
        }
    }
}

/// The signature for a call of `name` with the cursor in argument
/// `arg_index`: that of the keyword the namespace found (`ns_found`), with
/// its documentation when it has some; else that of the file's first
/// keyword named `name`, without documentation.
pub open spec fn signature_spec(
    ns_found: Option<KeywordModel>,
    ss: Seq<SectionModel>,
    name: Seq<char>,
    arg_index: u32,
) -> Option<SignatureView> {
    match ns_found {
        Some(k) => Some(
            signature_of(
                k.name@,
                strings_view(k.args@),
                if k.doc@.len() == 0 {
                    None
                } else {
                    Some(k.doc@)
                },
                arg_index,
            ),
        ),
        None => match first_named(local_keywords(ss), name) {
            Some(b) => Some(signature_of(b.name@, body_arguments(b.body@), None, arg_index)),
            None => None,
        },
    }
}

fn active_of(arg_index: u32, n: usize) -> (r: Option<u32>)
    ensures
        r == active_parameter(arg_index, n as nat),
{
    if (arg_index as usize) < n {
        Some(arg_index)
    } else if n > 0 {
        Some((n as u32).wrapping_sub(1))
    } else {
        None
    }
}

fn help_of(name: &String, args: &Vec<String>, doc: Option<String>, arg_index: u32) -> (h: SignatureHelp)
    ensures
        is_signature_help(h, signature_of(name@, strings_view(args@), opt_seq(doc), arg_index)),
{
    let label = format_signature_label(name.as_str(), args.as_slice());
    assert(args@.map_values(|a: String| a@) == strings_view(args@));
    let mut params: Vec<ParameterInformation> = Vec::new();
    let mut i: usize = 0;
    while i < args.len()
        invariant
            i <= args.len(),
            params@.len() == i,
            forall|j: int| 0 <= j < i ==> (#[trigger] params@[j]).label@ == args@[j]@ && params@[j].documentation is None,
        decreases args.len() - i,
    {
        params.push(ParameterInformation { label: args[i].clone(), documentation: None });
        i += 1;
    }
    let active = active_of(arg_index, args.len());
    SignatureHelp {
        signatures: vec![SignatureInformation { label, documentation: doc, parameters: Some(params), active_parameter: active }],
        active_signature: Some(0),
        active_parameter: active,
    }
}

pub open spec fn opt_seq(s: Option<String>) -> Option<Seq<char>> {
    match s {
        Some(x) => Some(x@),
        None => None,
    }
}

pub(crate) fn find_named<'a>(ss: &'a Vec<SectionModel>, name: &str) -> (r: Option<&'a BlockModel>)
    ensures
        match first_named(local_keywords(ss@), name@) {
            Some(b) => r == Some(&b),
            None => r is None,
        },
{
    let mut k: usize = 0;
    while k < ss.len()
        invariant
            k <= ss.len(),
            first_named(local_keywords(ss@.take(k as int)), name@) is None,
        decreases ss.len() - k,
    {
        assert(ss@.take(k + 1).drop_last() == ss@.take(k as int));
        assert(ss@.take(k + 1).last() == ss@[k as int]);
        if let SectionModel::Keywords { body, .. } = &ss[k] {
            let ghost pre = local_keywords(ss@.take(k as int));
            assert(local_keywords(ss@.take(k + 1)) == pre + body@);
            let mut j: usize = 0;
            while j < body.len()
                invariant
                    j <= body.len(),
                    k < ss.len(),
                    local_keywords(ss@.take(k + 1)) == pre + body@,
                    first_named(pre + body@.take(j as int), name@) is None,
                decreases body.len() - j,
            {
                assert((pre + body@.take(j + 1)).drop_last() == pre + body@.take(j as int));
                assert((pre + body@.take(j + 1)).last() == body@[j as int]);
                if str_eq(body[j].name.as_str(), name) {
                    proof {
                        assert(first_named(pre + body@.take(j + 1), name@) == Some(body@[j as int]));
                        assert((pre + body@).take((pre + body@.take(j + 1)).len() as int) == pre + body@.take(j + 1));
                        lemma_named_extends(ss@, k as int + 1, pre + body@.take(j + 1), name@);
                    }
                    return Some(&body[j]);
                }
                j += 1;
            }
            assert(body@.take(body.len() as int) == body@);
        }
        k += 1;
    }
    assert(ss@.take(ss.len() as int) == ss@);
    None
}

/// A match in a prefix is the match.
proof fn lemma_first_named_prefix(bs: Seq<BlockModel>, k: int, name: Seq<char>)
    requires
        0 <= k <= bs.len(),
        first_named(bs.take(k), name) is Some,
    ensures
        first_named(bs, name) == first_named(bs.take(k), name),
    decreases bs.len() - k,
{
    if k < bs.len() {
        assert(bs.take(k + 1).drop_last() == bs.take(k));
        lemma_first_named_prefix(bs, k + 1, name);
    } else {
        assert(bs.take(k) == bs);
    }
}

/// The local keywords of a prefix of the sections are a prefix of those of
/// all of them, and a match found there stays the match.
proof fn lemma_named_extends(ss: Seq<SectionModel>, k: int, found_in: Seq<BlockModel>, name: Seq<char>)
    requires
        0 <= k <= ss.len(),
        first_named(found_in, name) is Some,
        found_in.len() <= local_keywords(ss.take(k)).len(),
        found_in == local_keywords(ss.take(k)).take(found_in.len() as int),
    ensures
        first_named(local_keywords(ss), name) == first_named(found_in, name),
    decreases ss.len() - k,
{
    if k < ss.len() {
        assert(ss.take(k + 1).drop_last() == ss.take(k));
        let lk = local_keywords(ss.take(k));
        let lk1 = local_keywords(ss.take(k + 1));
        assert(lk1.take(lk.len() as int) == lk);
        assert(lk1.take(found_in.len() as int) == lk.take(found_in.len() as int));
        lemma_named_extends(ss, k + 1, found_in, name);
    } else {
        assert(ss.take(k) == ss);
        lemma_first_named_prefix(local_keywords(ss), found_in.len() as int, name);
    }
}

/// The signature help for a call of `kw_name` with the cursor in argument
/// `arg_index`, given what the namespace found for that name (`ns_found`).
pub fn build_signature(ns_found: &Option<KeywordModel>, file: &FileModel, kw_name: &str, arg_index: u32) -> (r: Option<SignatureHelp>)
    ensures
        match signature_spec(*ns_found, file.sections@, kw_name@, arg_index) {
            Some(v) => r matches Some(h) && is_signature_help(h, v),
            None => r is None,
        },
{
    match ns_found {
        Some(k) => {
            let doc = if k.doc.as_str().unicode_len() == 0 {
                None
            } else {
                Some(k.doc.clone())
            };
            Some(help_of(&k.name, &k.args, doc, arg_index))
        },
        None => match find_named(&file.sections, kw_name) {
            Some(b) => {
                let h = match crate::completion::first_arguments(&b.body) {
                    Some(args) => help_of(&b.name, args, None, arg_index),
                    None => {
                        let none: Vec<String> = Vec::new();
                        assert(strings_view(none@) =~= Seq::<Seq<char>>::empty());
                        help_of(&b.name, &none, None, arg_index)
                    },
                };
                Some(h)
            },
            None => None,
        },
    }
}

// ── The call at a position ───────────────────────────────────────────────────

/// The index of the argument the cursor is in, `rel` columns after the
/// keyword name of a call with `n` arguments, estimating each argument as
/// twelve columns wide: the first `i` from `from` whose estimated columns
/// hold `rel` (the last one holding all beyond), else 0 (32-bit wrapping
/// arithmetic).
pub open spec fn arg_index_from(from: nat, n: nat, rel: u32) -> u32
    decreases n - from,
{
    if from >= n {
        0
    } else if rel >= wrapping_mul(from as u32, 12) && (from + 1 >= n || rel < wrapping_mul(
        wrapping_add(from as u32, 1),
        12,
    )) {
        from as u32
    } else {
        arg_index_from(from + 1, n, rel)
    }
}

/// The call of `item` whose arguments `pos` is in: on its line, after the
/// end of its keyword name.
pub open spec fn call_here(item: BodyItemModel, pos: Position) -> Option<(Seq<char>, u32)>
    decreases item,
{
    match item {
        BodyItemModel::KeywordCall { name, args, position, .. } => {
            let name_end = wrapping_add(position.column, len32(name@));
            if position.line == pos.line && pos.character > name_end {
                Some((name@, arg_index_from(0, args@.len(), (pos.character - name_end) as u32)))
            } else {
                None
            }
        },
        BodyItemModel::Loop { body, .. } => call_in(body@, pos),
        BodyItemModel::Branches { branches, .. } => call_in_branches(branches@, pos),
        _ => None,
    }
}

/// The first call of a body whose arguments `pos` is in.
pub open spec fn call_in(items: Seq<BodyItemModel>, pos: Position) -> Option<(Seq<char>, u32)>
    decreases items,
{
    if items.len() == 0 {
        None
    } else {
        match call_in(items.drop_last(), pos) {
            Some(c) => Some(c),
            None => call_here(items.last(), pos),
        }
    }
}

/// The first call in the bodies of `bs` whose arguments `pos` is in.
pub open spec fn call_in_branches(bs: Seq<BranchModel>, pos: Position) -> Option<(Seq<char>, u32)>
    decreases bs,
{
    if bs.len() == 0 {
        None
    } else {
        match call_in_branches(bs.drop_last(), pos) {
            Some(c) => Some(c),
            None => call_in(bs.last().body@, pos),
        }
    }
}

/// The first call in the bodies of the blocks `bs` whose arguments `pos`
/// is in.
pub open spec fn call_in_blocks(bs: Seq<BlockModel>, pos: Position) -> Option<(Seq<char>, u32)>
    decreases bs.len(),
{
    if bs.len() == 0 {
        None
    } else {
        match call_in_blocks(bs.drop_last(), pos) {
            Some(c) => Some(c),
            None => call_in(bs.last().body@, pos),
        }
    }
}

/// The keyword call whose arguments `pos` is in, with the argument index:
/// the first such call of the test cases, tasks and keywords of `ss`.
pub open spec fn call_at_spec(ss: Seq<SectionModel>, pos: Position) -> Option<(Seq<char>, u32)>
    decreases ss.len(),
{
    if ss.len() == 0 {
        None
    } else {
        match call_at_spec(ss.drop_last(), pos) {
            Some(c) => Some(c),
            None => match ss.last() {
                SectionModel::TestCases { body, .. } => call_in_blocks(body@, pos),
                SectionModel::Tasks { body, .. } => call_in_blocks(body@, pos),
                SectionModel::Keywords { body, .. } => call_in_blocks(body@, pos),
                _ => None,
            },
        }
    }
}

fn arg_index_of(n: usize, rel: u32) -> (r: u32)
    ensures
        r == arg_index_from(0, n as nat, rel),
{
    let mut i: usize = 0;
    while i < n
        invariant
            i <= n,
            arg_index_from(0, n as nat, rel) == arg_index_from(i as nat, n as nat, rel),
        decreases n - i,
    {
        let est = (i as u32).wrapping_mul(12);
        if rel >= est && (i + 1 >= n || rel < (i as u32).wrapping_add(1).wrapping_mul(12)) {
            return i as u32;
        }
        i += 1;
    }
    0
}

fn here_of(item: &BodyItemModel, pos: Position) -> (r: Option<(String, u32)>)
    ensures
        match call_here(*item, pos) {
            Some(c) => r matches Some(x) && x.0@ == c.0 && x.1 == c.1,
            None => r is None,
        },
    decreases *item,
{
    match item {
        BodyItemModel::KeywordCall { name, args, position, .. } => {
            let name_end = position.column.wrapping_add(utf8_byte_len(name.as_str()) as u32);
            if position.line == pos.line && pos.character > name_end {
                Some((name.clone(), arg_index_of(args.len(), pos.character - name_end)))
            } else {
                None
            }
        },
        BodyItemModel::Loop { body, .. } => {
            proof {
                assert(decreases_to!(*item => body@));
            }
            in_body_of(body, pos)
        },
        BodyItemModel::Branches { branches, .. } => {
            proof {
                assert(decreases_to!(*item => branches@));
            }
            in_branches_of(branches, pos)
        },
        _ => None,
    }
}

proof fn lemma_call_in_prefix(items: Seq<BodyItemModel>, k: int, pos: Position)
    requires
        0 <= k <= items.len(),
        call_in(items.take(k), pos) is Some,
    ensures
        call_in(items, pos) == call_in(items.take(k), pos),
    decreases items.len() - k,
{
    if k < items.len() {
        assert(items.take(k + 1).drop_last() == items.take(k));
        lemma_call_in_prefix(items, k + 1, pos);
    } else {
        assert(items.take(k) == items);
    }
}

proof fn lemma_call_branches_prefix(bs: Seq<BranchModel>, k: int, pos: Position)
    requires
        0 <= k <= bs.len(),
        call_in_branches(bs.take(k), pos) is Some,
    ensures
        call_in_branches(bs, pos) == call_in_branches(bs.take(k), pos),
    decreases bs.len() - k,
{
    if k < bs.len() {
        assert(bs.take(k + 1).drop_last() == bs.take(k));
        lemma_call_branches_prefix(bs, k + 1, pos);
    } else {
        assert(bs.take(k) == bs);
    }
}

proof fn lemma_call_blocks_prefix(bs: Seq<BlockModel>, k: int, pos: Position)
    requires
        0 <= k <= bs.len(),
        call_in_blocks(bs.take(k), pos) is Some,
    ensures
        call_in_blocks(bs, pos) == call_in_blocks(bs.take(k), pos),
    decreases bs.len() - k,
{
    if k < bs.len() {
        assert(bs.take(k + 1).drop_last() == bs.take(k));
        lemma_call_blocks_prefix(bs, k + 1, pos);
    } else {
        assert(bs.take(k) == bs);
    }
}

proof fn lemma_call_at_prefix(ss: Seq<SectionModel>, k: int, pos: Position)
    requires
        0 <= k <= ss.len(),
        call_at_spec(ss.take(k), pos) is Some,
    ensures
        call_at_spec(ss, pos) == call_at_spec(ss.take(k), pos),
    decreases ss.len() - k,
{
    if k < ss.len() {
        assert(ss.take(k + 1).drop_last() == ss.take(k));
        lemma_call_at_prefix(ss, k + 1, pos);
    } else {
        assert(ss.take(k) == ss);
    }
}

fn in_body_of(items: &Vec<BodyItemModel>, pos: Position) -> (r: Option<(String, u32)>)
    ensures
        match call_in(items@, pos) {
            Some(c) => r matches Some(x) && x.0@ == c.0 && x.1 == c.1,
            None => r is None,
        },
    decreases items@,
{
    let mut i: usize = 0;
    while i < items.len()
        invariant
            i <= items.len(),
            call_in(items@.take(i as int), pos) is None,
        decreases items.len() - i,
    {
        assert(items@.take(i + 1).drop_last() == items@.take(i as int));
        assert(items@.take(i + 1).last() == items@[i as int]);
        proof {
            assert(decreases_to!(items@ => items@[i as int]));
        }
        let f = here_of(&items[i], pos);
        if f.is_some() {
            proof {
                lemma_call_in_prefix(items@, i as int + 1, pos);
            }
            return f;
        }
        i += 1;
    }
    assert(items@.take(items.len() as int) == items@);
    None
}

fn in_branches_of(bs: &Vec<BranchModel>, pos: Position) -> (r: Option<(String, u32)>)
    ensures
        match call_in_branches(bs@, pos) {
            Some(c) => r matches Some(x) && x.0@ == c.0 && x.1 == c.1,
            None => r is None,
        },
    decreases bs@,
{
    let mut i: usize = 0;
    while i < bs.len()
        invariant
            i <= bs.len(),
            call_in_branches(bs@.take(i as int), pos) is None,
        decreases bs.len() - i,
    {
        assert(bs@.take(i + 1).drop_last() == bs@.take(i as int));
        assert(bs@.take(i + 1).last() == bs@[i as int]);
        proof {
            assert(decreases_to!(bs@ => bs@[i as int].body@));
        }
        let f = in_body_of(&bs[i].body, pos);
        if f.is_some() {
            proof {
                lemma_call_branches_prefix(bs@, i as int + 1, pos);
            }
            return f;
        }
        i += 1;
    }
    assert(bs@.take(bs.len() as int) == bs@);
    None
}

fn in_blocks_of(bs: &Vec<BlockModel>, pos: Position) -> (r: Option<(String, u32)>)
    ensures
        match call_in_blocks(bs@, pos) {
            Some(c) => r matches Some(x) && x.0@ == c.0 && x.1 == c.1,
            None => r is None,
        },
{
    let mut i: usize = 0;
    while i < bs.len()
        invariant
            i <= bs.len(),
            call_in_blocks(bs@.take(i as int), pos) is None,
        decreases bs.len() - i,
    {
        assert(bs@.take(i + 1).drop_last() == bs@.take(i as int));
        assert(bs@.take(i + 1).last() == bs@[i as int]);
        let f = in_body_of(&bs[i].body, pos);
        if f.is_some() {
            proof {
                lemma_call_blocks_prefix(bs@, i as int + 1, pos);
            }
            return f;
        }
        i += 1;
    }
    assert(bs@.take(bs.len() as int) == bs@);
    None
}

/// The keyword call whose arguments `pos` is in, with the index of the
/// argument the cursor is in.
pub fn keyword_call_at(file: &FileModel, pos: Position) -> (r: Option<(String, u32)>)
    ensures
        match call_at_spec(file.sections@, pos) {
            Some(c) => r matches Some(x) && x.0@ == c.0 && x.1 == c.1,
            None => r is None,
        },
{
    let ss = &file.sections;
    let mut k: usize = 0;
    while k < ss.len()
        invariant
            k <= ss.len(),
            ss@ == file.sections@,
            call_at_spec(ss@.take(k as int), pos) is None,
        decreases ss.len() - k,
    {
        assert(ss@.take(k + 1).drop_last() == ss@.take(k as int));
        assert(ss@.take(k + 1).last() == ss@[k as int]);
        let f = match &ss[k] {
            SectionModel::TestCases { body, .. } | SectionModel::Tasks { body, .. } | SectionModel::Keywords {
                body,
                ..
            } => in_blocks_of(body, pos),
            _ => None,
        };
        if f.is_some() {
            proof {
                lemma_call_at_prefix(ss@, k as int + 1, pos);
            }
            return f;
        }
        k += 1;
    }
    assert(ss@.take(ss.len() as int) == ss@);
    None
}

/// The signature help at `pos`: that of the keyword call whose arguments
/// the cursor is in, with the argument there active.  `ns_found` is what
/// the namespace found for that call's keyword (`keyword_call_at` names
/// it).
pub fn signature_help(file: &FileModel, ns_found: &Option<KeywordModel>, pos: Position) -> (r: Option<SignatureHelp>)
    ensures
        match call_at_spec(file.sections@, pos) {
            None => r is None,
            Some(c) => match signature_spec(*ns_found, file.sections@, c.0, c.1) {
                Some(v) => r matches Some(h) && is_signature_help(h, v),
                None => r is None,
            },
        },
{
    match keyword_call_at(file, pos) {
        None => None,
        Some((name, idx)) => build_signature(ns_found, file, name.as_str(), idx),
    }
}

// ── A call whose arguments hold the cursor is always found ───────────────────

/// `x` is a keyword call on the cursor's line whose name ends before the
/// cursor.
pub open spec fn args_under(x: BodyItemModel, pos: Position) -> bool {
    x matches BodyItemModel::KeywordCall { name, position, .. } && position.line == pos.line && pos.character
        > wrapping_add(position.column, len32(name@))
}

proof fn lemma_item_args_found(item: BodyItemModel, x: BodyItemModel, pos: Position)
    requires
        item_holds(item, x),
        args_under(x, pos),
    ensures
        call_here(item, pos) is Some,
    decreases item,
{
    if item != x {
        match item {
            BodyItemModel::Loop { body, .. } => lemma_body_args_found(body@, x, pos),
            BodyItemModel::Branches { branches, .. } => lemma_branches_args_found(branches@, x, pos),
            _ => {},
        }
    }
}

proof fn lemma_body_args_found(items: Seq<BodyItemModel>, x: BodyItemModel, pos: Position)
    requires
        body_holds(items, x),
        args_under(x, pos),
    ensures
        call_in(items, pos) is Some,
    decreases items,
{
    if body_holds(items.drop_last(), x) {
        lemma_body_args_found(items.drop_last(), x, pos);
    } else {
        lemma_item_args_found(items.last(), x, pos);
    }
}

proof fn lemma_branches_args_found(bs: Seq<BranchModel>, x: BodyItemModel, pos: Position)
    requires
        branches_hold(bs, x),
        args_under(x, pos),
    ensures
        call_in_branches(bs, pos) is Some,
    decreases bs,
{
    if branches_hold(bs.drop_last(), x) {
        lemma_branches_args_found(bs.drop_last(), x, pos);
    } else {
        lemma_body_args_found(bs.last().body@, x, pos);
    }
}

proof fn lemma_blocks_args_found(bs: Seq<BlockModel>, j: int, x: BodyItemModel, pos: Position)
    requires
        0 <= j < bs.len(),
        body_holds(bs[j].body@, x),
        args_under(x, pos),
    ensures
        call_in_blocks(bs, pos) is Some,
    decreases bs.len(),
{
    if j < bs.len() - 1 {
        assert(bs.drop_last()[j] == bs[j]);
        lemma_blocks_args_found(bs.drop_last(), j, x, pos);
    } else {
        lemma_body_args_found(bs.last().body@, x, pos);
    }
}

/// Whenever the cursor is on the line of a keyword call after its name, at
/// any depth inside loops and branches of a test case, task or keyword,
/// signature help finds a call there.
pub proof fn lemma_call_with_args_found(ss: Seq<SectionModel>, pos: Position, k: int, j: int, x: BodyItemModel)
    requires
        block_holds(ss, k, j, x),
        args_under(x, pos),
    ensures
        call_at_spec(ss, pos) is Some,
    decreases ss.len(),
{
    if k < ss.len() - 1 {
        assert(ss.drop_last()[k] == ss[k]);
        lemma_call_with_args_found(ss.drop_last(), pos, k, j, x);
    } else if call_at_spec(ss.drop_last(), pos) is None {
        lemma_blocks_args_found(section_blocks(ss[k]), j, x, pos);
    }
}

} // verus!
