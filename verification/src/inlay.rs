//! Inlay hints: the parameter name shown before each positional argument
//! of a keyword call, `My Keyword    arg1: value1    arg2: value2`.
use vstd::prelude::*;

use crate::ast::{block_holds, body_holds, branches_hold, item_holds, lemma_contains_add, section_blocks, BlockModel, BodyItemModel, BranchModel, FileModel, SectionModel};
use crate::completion::{body_arguments, local_keywords, strings_view};
use crate::keywords::{strip_sigils, trim_braces, undecorated_var_name};
use crate::lsp::{position_in_range, range_holds_closed, Position, Range};
use crate::lsp_items::{InlayHint, InlayHintKind};
use crate::path::utf8_byte_len;
use crate::signature::first_named;
use crate::text::{contains_chars, contains_seq, chars_of, str_eq, string_of, utf8_len_seq};

use vstd::wrapping::u32_specs::{wrapping_add, wrapping_mul};

verus! {

/// A hint as plain values: where it stands and its text.
pub type HintView = (Position, Seq<char>);

/// `h` is the parameter hint `v`, padded on its right.
pub open spec fn is_hint(h: InlayHint, v: HintView) -> bool {
    &&& h.position == v.0
    &&& h.label@ == v.1
    &&& h.kind == Some(InlayHintKind::Parameter)
    &&& h.padding_left == Some(false)
    &&& h.padding_right == Some(true)
}

/// `v` holds the hints `hs`, in order.
pub open spec fn hints_match(v: Seq<InlayHint>, hs: Seq<HintView>) -> bool {
    v.len() == hs.len() && forall|j: int| 0 <= j < v.len() ==> is_hint(#[trigger] v[j], hs[j])
}

/// The byte length of `s` as a `u32` (wrapping, as `len() as u32`).
pub open spec fn len32(s: Seq<char>) -> u32 {
    utf8_len_seq(s) as u32
}

/// The width taken by the first `i` arguments of `args`, each followed by
/// a four-space separator, in 32-bit wrapping arithmetic.
pub open spec fn args_width(args: Seq<Seq<char>>, i: nat) -> u32
    decreases i,
{
    if i == 0 {
        0
    } else {
        wrapping_add(args_width(args, (i - 1) as nat), wrapping_add(len32(args[i - 1]), 4))
    }
}

/// The column of the hint for argument `i` of a call of `name` at column
/// `column`: after the name, `i + 1` separators and the arguments before
/// it (an estimate; 32-bit wrapping arithmetic).
pub open spec fn hint_column(column: u32, name: Seq<char>, args: Seq<Seq<char>>, i: nat) -> u32 {
    wrapping_add(
        wrapping_add(wrapping_add(column, len32(name)), wrapping_mul(wrapping_add(i as u32, 1), 4)),
        args_width(args, i),
    )
}

/// The hint text for parameter `p`: its name without sigil and braces,
/// then a colon.
pub open spec fn hint_label(p: Seq<char>) -> Seq<char> {
    trim_braces(strip_sigils(p)) + seq![':']
}

/// The hints for the first `k` arguments of a call of `name` at `line` and
/// `column` whose parameters are `params`: one per argument that has a
/// parameter and is not written `name=value`.
pub open spec fn call_hints(line: u32, column: u32, name: Seq<char>, args: Seq<Seq<char>>, params: Seq<Seq<char>>, k: nat) -> Seq<HintView>
    decreases k,
{
    if k == 0 {
        Seq::empty()
    } else {
        let i = (k - 1) as nat;
        call_hints(line, column, name, args, params, i) + if i < params.len() && !contains_seq(args[i as int], seq!['=']) {
            seq![(Position { line, character: hint_column(column, name, args, i) }, hint_label(params[i as int]))]
        } else {
            Seq::empty()
        }
    }
}

/// The parameter names of keyword `name`: those the namespace gives
/// (`ns`, pairs of a called name and its parameters), else those of the
/// file's first keyword of that name, else none.
pub open spec fn ns_lookup(ns: Seq<(String, Vec<String>)>, name: Seq<char>) -> Option<Seq<Seq<char>>>
    decreases ns.len(),
{
    if ns.len() == 0 {
        None
    } else if ns[0].0@ == name {
        Some(strings_view(ns[0].1@))
    } else {
        ns_lookup(ns.drop_first(), name)
    }
}

/// The parameter names for a call of `name`.
pub open spec fn params_for(ns: Seq<(String, Vec<String>)>, ss: Seq<SectionModel>, name: Seq<char>) -> Seq<Seq<char>> {
    match ns_lookup(ns, name) {
        Some(ps) => ps,
        None => match first_named(local_keywords(ss), name) {
            Some(b) => body_arguments(b.body@),
            None => Seq::empty(),
        },
    }
}

/// The hints of a body whose calls start inside `range`, looking inside
/// loops and branches.
pub open spec fn body_hints(items: Seq<BodyItemModel>, ns: Seq<(String, Vec<String>)>, ss: Seq<SectionModel>, range: Range) -> Seq<HintView>
    decreases items,
{
    if items.len() == 0 {
        Seq::empty()
    } else {
        body_hints(items.drop_last(), ns, ss, range) + item_hints(items.last(), ns, ss, range)
    }
}

/// The hints of a body item.
pub open spec fn item_hints(item: BodyItemModel, ns: Seq<(String, Vec<String>)>, ss: Seq<SectionModel>, range: Range) -> Seq<HintView>
    decreases item,
{
    match item {
        BodyItemModel::KeywordCall { name, args, position, .. } => if range_holds_closed(
            range,
            Position { line: position.line, character: position.column },
        ) {
            call_hints(
                position.line,
                position.column,
                name@,
                strings_view(args@),
                params_for(ns, ss, name@),
                args@.len(),
            )
        } else {
            Seq::empty()
        },
        BodyItemModel::Loop { body, .. } => body_hints(body@, ns, ss, range),
        BodyItemModel::Branches { branches, .. } => branch_hints(branches@, ns, ss, range),
        _ => Seq::empty(),
    }
}

/// The hints of the bodies of `bs`.
pub open spec fn branch_hints(bs: Seq<BranchModel>, ns: Seq<(String, Vec<String>)>, ss: Seq<SectionModel>, range: Range) -> Seq<HintView>
    decreases bs,
{
    if bs.len() == 0 {
        Seq::empty()
    } else {
        branch_hints(bs.drop_last(), ns, ss, range) + body_hints(bs.last().body@, ns, ss, range)
    }
}

/// The hints of the bodies of the blocks `bs`.
pub open spec fn blocks_hints(bs: Seq<BlockModel>, ns: Seq<(String, Vec<String>)>, ss: Seq<SectionModel>, range: Range) -> Seq<HintView>
    decreases bs.len(),
{
    if bs.len() == 0 {
        Seq::empty()
    } else {
        blocks_hints(bs.drop_last(), ns, ss, range) + body_hints(bs.last().body@, ns, ss, range)
    }
}

/// The hints of the test cases, tasks and keywords of `sections`; `ss` is
/// the whole file, whose keywords give parameters.
pub open spec fn file_hints(sections: Seq<SectionModel>, ns: Seq<(String, Vec<String>)>, ss: Seq<SectionModel>, range: Range) -> Seq<HintView>
    decreases sections.len(),
{
    if sections.len() == 0 {
        Seq::empty()
    } else {
        file_hints(sections.drop_last(), ns, ss, range) + match sections.last() {
            SectionModel::TestCases { body, .. } => blocks_hints(body@, ns, ss, range),
            SectionModel::Tasks { body, .. } => blocks_hints(body@, ns, ss, range),
            SectionModel::Keywords { body, .. } => blocks_hints(body@, ns, ss, range),
            _ => Seq::empty(),
        }
    }
}

// ── Computation ──────────────────────────────────────────────────────────────

fn lookup_params(ns: &Vec<(String, Vec<String>)>, file: &FileModel, name: &String) -> (r: Vec<String>)
    ensures
        strings_view(r@) == params_for(ns@, file.sections@, name@),
{
    let mut i: usize = 0;
    assert(ns@.skip(0) == ns@);
    while i < ns.len()
        invariant
            i <= ns.len(),
            ns_lookup(ns@, name@) == ns_lookup(ns@.skip(i as int), name@),
        decreases ns.len() - i,
    {
        assert(ns@.skip(i as int)[0] == ns@[i as int]);
        assert(ns@.skip(i as int).drop_first() == ns@.skip(i + 1));
        if str_eq(ns[i].0.as_str(), name.as_str()) {
            return copy_strings(&ns[i].1);
        }
        i += 1;
    }
    match crate::signature::find_named(&file.sections, name.as_str()) {
        Some(b) => match crate::completion::first_arguments(&b.body) {
            Some(a) => copy_strings(a),
            None => {
                let v: Vec<String> = Vec::new();
                assert(strings_view(v@) =~= Seq::<Seq<char>>::empty());
                v
            },
        },
        None => {
            let v: Vec<String> = Vec::new();
            assert(strings_view(v@) =~= Seq::<Seq<char>>::empty());
            v
        },
    }
}

fn copy_strings(v: &Vec<String>) -> (r: Vec<String>)
    ensures
        strings_view(r@) == strings_view(v@),
{
    let mut r: Vec<String> = Vec::new();
    let mut i: usize = 0;
    while i < v.len()
        invariant
            i <= v.len(),
            r@ == v@.take(i as int),
        decreases v.len() - i,
    {
        r.push(v[i].clone());
        i += 1;
        assert(r@ =~= v@.take(i as int));
    }
    assert(v@.take(v.len() as int) == v@);
    r
}

fn push_hint(out: &mut Vec<InlayHint>, position: Position, param: &String)
    ensures
        final(out)@.len() == old(out)@.len() + 1,
        forall|j: int| 0 <= j < old(out)@.len() ==> #[trigger] final(out)@[j] == old(out)@[j],
        is_hint(final(out)@[old(out)@.len() as int], (position, hint_label(param@))),
{
    let mut label = undecorated_var_name(param.as_str());
    label.push(':');
    assert(label@ =~= hint_label(param@));
    out.push(
        InlayHint {
            position,
            label: string_of(&label),
            kind: Some(InlayHintKind::Parameter),
            padding_left: Some(false),
            padding_right: Some(true),
        },
    );
}

fn call_hints_into(out: &mut Vec<InlayHint>, line: u32, column: u32, name: &String, args: &Vec<String>, params: &Vec<String>)
    ensures
        final(out)@.len() == old(out)@.len() + call_hints(line, column, name@, strings_view(args@), strings_view(params@), args@.len()).len(),
        forall|j: int| 0 <= j < old(out)@.len() ==> #[trigger] final(out)@[j] == old(out)@[j],
        forall|j: int|
            0 <= j < call_hints(line, column, name@, strings_view(args@), strings_view(params@), args@.len()).len() ==> is_hint(
                #[trigger] final(out)@[old(out)@.len() + j],
                call_hints(line, column, name@, strings_view(args@), strings_view(params@), args@.len())[j],
            ),
{
    let ghost o = out@;
    let ghost a = strings_view(args@);
    let ghost ps = strings_view(params@);
    let name_len = utf8_byte_len(name.as_str()) as u32;
    let base = column.wrapping_add(name_len);
    let mut width: u32 = 0;
    let mut i: usize = 0;
    let eq = vec!['='];
    while i < args.len()
        invariant
            i <= args.len(),
            eq@ == seq!['='],
            a == strings_view(args@),
            ps == strings_view(params@),
            base == wrapping_add(column, len32(name@)),
            width == args_width(a, i as nat),
            out@.len() == o.len() + call_hints(line, column, name@, a, ps, i as nat).len(),
            forall|j: int| 0 <= j < o.len() ==> #[trigger] out@[j] == o[j],
            forall|j: int|
                0 <= j < call_hints(line, column, name@, a, ps, i as nat).len() ==> is_hint(
                    #[trigger] out@[o.len() + j],
                    call_hints(line, column, name@, a, ps, i as nat)[j],
                ),
        decreases args.len() - i,
    {
        let ghost before = out@;
        let ac = chars_of(args[i].as_str());
        if i < params.len() && !contains_chars(&ac, &eq) {
            let col = base.wrapping_add(((i as u32).wrapping_add(1)).wrapping_mul(4)).wrapping_add(width);
            assert(col == hint_column(column, name@, a, i as nat));
            push_hint(out, Position { line, character: col }, &params[i]);
        }
        let arg_len = utf8_byte_len(args[i].as_str()) as u32;
        width = width.wrapping_add(arg_len.wrapping_add(4));
        i += 1;
        let ghost hs = call_hints(line, column, name@, a, ps, i as nat);
        assert forall|j: int| 0 <= j < hs.len() implies is_hint(#[trigger] out@[o.len() + j], hs[j]) by {
            if o.len() + j < before.len() {
                assert(out@[o.len() + j] == before[o.len() + j]);
            }
        }
    }
}

fn body_hints_into(out: &mut Vec<InlayHint>, items: &Vec<BodyItemModel>, ns: &Vec<(String, Vec<String>)>, file: &FileModel, range: Range)
    ensures
        final(out)@.len() == old(out)@.len() + body_hints(items@, ns@, file.sections@, range).len(),
        forall|j: int| 0 <= j < old(out)@.len() ==> #[trigger] final(out)@[j] == old(out)@[j],
        forall|j: int|
            0 <= j < body_hints(items@, ns@, file.sections@, range).len() ==> is_hint(
                #[trigger] final(out)@[old(out)@.len() + j],
                body_hints(items@, ns@, file.sections@, range)[j],
            ),
    decreases items@,
{
    let ghost o = out@;
    let ghost ss = file.sections@;
    let mut i: usize = 0;
    while i < items.len()
        invariant
            i <= items.len(),
            ss == file.sections@,
            out@.len() == o.len() + body_hints(items@.take(i as int), ns@, ss, range).len(),
            forall|j: int| 0 <= j < o.len() ==> #[trigger] out@[j] == o[j],
            forall|j: int|
                0 <= j < body_hints(items@.take(i as int), ns@, ss, range).len() ==> is_hint(
                    #[trigger] out@[o.len() + j],
                    body_hints(items@.take(i as int), ns@, ss, range)[j],
                ),
        decreases items.len() - i,
    {
        assert(items@.take(i + 1).drop_last() == items@.take(i as int));
        assert(items@.take(i + 1).last() == items@[i as int]);
        let ghost before = out@;
        let ghost prev = body_hints(items@.take(i as int), ns@, ss, range);
        let ghost added = item_hints(items@[i as int], ns@, ss, range);
        match &items[i] {
            BodyItemModel::KeywordCall { name, args, position, .. } => {
                let at = Position { line: position.line, character: position.column };
                if position_in_range(at, range) {
                    let params = lookup_params(ns, file, name);
                    call_hints_into(out, position.line, position.column, name, args, &params);
                }
            },
            BodyItemModel::Loop { body, .. } => {
                proof {
                    assert(decreases_to!(items@ => body@));
                }
                body_hints_into(out, body, ns, file, range);
            },
            BodyItemModel::Branches { branches, .. } => {
                proof {
                    assert(decreases_to!(items@ => branches@));
                }
                branch_hints_into(out, branches, ns, file, range);
            },
            _ => {},
        }
        assert(out@.len() == before.len() + added.len());
        i += 1;
        let ghost hs = body_hints(items@.take(i as int), ns@, ss, range);
        assert(hs == prev + added);
        assert forall|j: int| 0 <= j < hs.len() implies is_hint(#[trigger] out@[o.len() + j], hs[j]) by {
            if j < prev.len() {
                assert(out@[o.len() + j] == before[o.len() + j]);
            } else {
                assert(out@[o.len() + j] == out@[before.len() + (j - prev.len())]);
            }
        }
    }
    assert(items@.take(items.len() as int) == items@);
}

fn branch_hints_into(out: &mut Vec<InlayHint>, bs: &Vec<BranchModel>, ns: &Vec<(String, Vec<String>)>, file: &FileModel, range: Range)
    ensures
        final(out)@.len() == old(out)@.len() + branch_hints(bs@, ns@, file.sections@, range).len(),
        forall|j: int| 0 <= j < old(out)@.len() ==> #[trigger] final(out)@[j] == old(out)@[j],
        forall|j: int|
            0 <= j < branch_hints(bs@, ns@, file.sections@, range).len() ==> is_hint(
                #[trigger] final(out)@[old(out)@.len() + j],
                branch_hints(bs@, ns@, file.sections@, range)[j],
            ),
    decreases bs@,
{
    let ghost o = out@;
    let ghost ss = file.sections@;
    let mut i: usize = 0;
    while i < bs.len()
        invariant
            i <= bs.len(),
            ss == file.sections@,
            out@.len() == o.len() + branch_hints(bs@.take(i as int), ns@, ss, range).len(),
            forall|j: int| 0 <= j < o.len() ==> #[trigger] out@[j] == o[j],
            forall|j: int|
                0 <= j < branch_hints(bs@.take(i as int), ns@, ss, range).len() ==> is_hint(
                    #[trigger] out@[o.len() + j],
                    branch_hints(bs@.take(i as int), ns@, ss, range)[j],
                ),
        decreases bs.len() - i,
    {
        assert(bs@.take(i + 1).drop_last() == bs@.take(i as int));
        assert(bs@.take(i + 1).last() == bs@[i as int]);
        let ghost before = out@;
        let ghost prev = branch_hints(bs@.take(i as int), ns@, ss, range);
        let ghost added = body_hints(bs@[i as int].body@, ns@, ss, range);
        proof {
            assert(decreases_to!(bs@ => bs@[i as int].body@));
        }
        body_hints_into(out, &bs[i].body, ns, file, range);
        i += 1;
        let ghost hs = branch_hints(bs@.take(i as int), ns@, ss, range);
        assert(hs == prev + added);
        assert forall|j: int| 0 <= j < hs.len() implies is_hint(#[trigger] out@[o.len() + j], hs[j]) by {
            if j < prev.len() {
                assert(out@[o.len() + j] == before[o.len() + j]);
            } else {
                assert(out@[o.len() + j] == out@[before.len() + (j - prev.len())]);
            }
        }
    }
    assert(bs@.take(bs.len() as int) == bs@);
}

fn blocks_hints_into(out: &mut Vec<InlayHint>, bs: &Vec<BlockModel>, ns: &Vec<(String, Vec<String>)>, file: &FileModel, range: Range)
    ensures
        final(out)@.len() == old(out)@.len() + blocks_hints(bs@, ns@, file.sections@, range).len(),
        forall|j: int| 0 <= j < old(out)@.len() ==> #[trigger] final(out)@[j] == old(out)@[j],
        forall|j: int|
            0 <= j < blocks_hints(bs@, ns@, file.sections@, range).len() ==> is_hint(
                #[trigger] final(out)@[old(out)@.len() + j],
                blocks_hints(bs@, ns@, file.sections@, range)[j],
            ),
{
    let ghost o = out@;
    let ghost ss = file.sections@;
    let mut i: usize = 0;
    while i < bs.len()
        invariant
            i <= bs.len(),
            ss == file.sections@,
            out@.len() == o.len() + blocks_hints(bs@.take(i as int), ns@, ss, range).len(),
            forall|j: int| 0 <= j < o.len() ==> #[trigger] out@[j] == o[j],
            forall|j: int|
                0 <= j < blocks_hints(bs@.take(i as int), ns@, ss, range).len() ==> is_hint(
                    #[trigger] out@[o.len() + j],
                    blocks_hints(bs@.take(i as int), ns@, ss, range)[j],
                ),
        decreases bs.len() - i,
    {
        assert(bs@.take(i + 1).drop_last() == bs@.take(i as int));
        assert(bs@.take(i + 1).last() == bs@[i as int]);
        let ghost before = out@;
        let ghost prev = blocks_hints(bs@.take(i as int), ns@, ss, range);
        let ghost added = body_hints(bs@[i as int].body@, ns@, ss, range);
        body_hints_into(out, &bs[i].body, ns, file, range);
        i += 1;
        let ghost hs = blocks_hints(bs@.take(i as int), ns@, ss, range);
        assert(hs == prev + added);
        assert forall|j: int| 0 <= j < hs.len() implies is_hint(#[trigger] out@[o.len() + j], hs[j]) by {
            if j < prev.len() {
                assert(out@[o.len() + j] == before[o.len() + j]);
            } else {
                assert(out@[o.len() + j] == out@[before.len() + (j - prev.len())]);
            }
        }
    }
    assert(bs@.take(bs.len() as int) == bs@);
}

/// The parameter hints for the keyword calls of `file` that start inside
/// `range`.  `ns_params` holds, for the keyword names the namespace finds,
/// the name and its parameter names; other names take the parameters of
/// the file's keyword of that name.
pub fn inlay_hints(file: &FileModel, ns_params: &Vec<(String, Vec<String>)>, range: Range) -> (r: Vec<InlayHint>)
    ensures
        hints_match(r@, file_hints(file.sections@, ns_params@, file.sections@, range)),
{
    let ss = &file.sections;
    let ghost all = file.sections@;
    let mut out: Vec<InlayHint> = Vec::new();
    let mut k: usize = 0;
    while k < ss.len()
        invariant
            k <= ss.len(),
            ss@ == all,
            all == file.sections@,
            hints_match(out@, file_hints(ss@.take(k as int), ns_params@, all, range)),
        decreases ss.len() - k,
    {
        assert(ss@.take(k + 1).drop_last() == ss@.take(k as int));
        assert(ss@.take(k + 1).last() == ss@[k as int]);
        let ghost before = out@;
        let ghost prev = file_hints(ss@.take(k as int), ns_params@, all, range);
        match &ss[k] {
            SectionModel::TestCases { body, .. } => blocks_hints_into(&mut out, body, ns_params, file, range),
            SectionModel::Tasks { body, .. } => blocks_hints_into(&mut out, body, ns_params, file, range),
            SectionModel::Keywords { body, .. } => blocks_hints_into(&mut out, body, ns_params, file, range),
            _ => {},
        }
        k += 1;
        let ghost hs = file_hints(ss@.take(k as int), ns_params@, all, range);
        assert forall|j: int| 0 <= j < hs.len() implies is_hint(#[trigger] out@[j], hs[j]) by {
            if j < prev.len() {
                assert(out@[j] == before[j]);
            } else {
                assert(out@[j] == out@[before.len() + (j - prev.len())]);
            }
        }
    }
    assert(ss@.take(ss.len() as int) == ss@);
    out
}

// ── Every call in the range has its hints ────────────────────────────────────

proof fn lemma_item_hints_hold(item: BodyItemModel, x: BodyItemModel, ns: Seq<(String, Vec<String>)>, ss: Seq<SectionModel>, range: Range, h: HintView)
    requires
        item_holds(item, x),
        item_hints(x, ns, ss, range).contains(h),
    ensures
        item_hints(item, ns, ss, range).contains(h),
    decreases item,
{
    if item != x {
        match item {
            BodyItemModel::Loop { body, .. } => lemma_body_hints_hold(body@, x, ns, ss, range, h),
            BodyItemModel::Branches { branches, .. } => lemma_branch_hints_hold(branches@, x, ns, ss, range, h),
            _ => {},
        }
    }
}

proof fn lemma_body_hints_hold(items: Seq<BodyItemModel>, x: BodyItemModel, ns: Seq<(String, Vec<String>)>, ss: Seq<SectionModel>, range: Range, h: HintView)
    requires
        body_holds(items, x),
        item_hints(x, ns, ss, range).contains(h),
    ensures
        body_hints(items, ns, ss, range).contains(h),
    decreases items,
{
    if body_holds(items.drop_last(), x) {
        lemma_body_hints_hold(items.drop_last(), x, ns, ss, range, h);
    } else {
        lemma_item_hints_hold(items.last(), x, ns, ss, range, h);
    }
    lemma_contains_add(body_hints(items.drop_last(), ns, ss, range), item_hints(items.last(), ns, ss, range), h);
}

proof fn lemma_branch_hints_hold(bs: Seq<BranchModel>, x: BodyItemModel, ns: Seq<(String, Vec<String>)>, ss: Seq<SectionModel>, range: Range, h: HintView)
    requires
        branches_hold(bs, x),
        item_hints(x, ns, ss, range).contains(h),
    ensures
        branch_hints(bs, ns, ss, range).contains(h),
    decreases bs,
{
    if branches_hold(bs.drop_last(), x) {
        lemma_branch_hints_hold(bs.drop_last(), x, ns, ss, range, h);
    } else {
        lemma_body_hints_hold(bs.last().body@, x, ns, ss, range, h);
    }
    lemma_contains_add(branch_hints(bs.drop_last(), ns, ss, range), body_hints(bs.last().body@, ns, ss, range), h);
}

proof fn lemma_blocks_hints_hold(bs: Seq<BlockModel>, j: int, x: BodyItemModel, ns: Seq<(String, Vec<String>)>, ss: Seq<SectionModel>, range: Range, h: HintView)
    requires
        0 <= j < bs.len(),
        body_holds(bs[j].body@, x),
        item_hints(x, ns, ss, range).contains(h),
    ensures
        blocks_hints(bs, ns, ss, range).contains(h),
    decreases bs.len(),
{
    if j < bs.len() - 1 {
        assert(bs.drop_last()[j] == bs[j]);
        lemma_blocks_hints_hold(bs.drop_last(), j, x, ns, ss, range, h);
    } else {
        lemma_body_hints_hold(bs.last().body@, x, ns, ss, range, h);
    }
    lemma_contains_add(blocks_hints(bs.drop_last(), ns, ss, range), body_hints(bs.last().body@, ns, ss, range), h);
}

proof fn lemma_file_hints_hold(sections: Seq<SectionModel>, k: int, j: int, x: BodyItemModel, ns: Seq<(String, Vec<String>)>, ss: Seq<SectionModel>, range: Range, h: HintView)
    requires
        block_holds(sections, k, j, x),
        item_hints(x, ns, ss, range).contains(h),
    ensures
        file_hints(sections, ns, ss, range).contains(h),
    decreases sections.len(),
{
    let tail = match sections.last() {
        SectionModel::TestCases { body, .. } => blocks_hints(body@, ns, ss, range),
        SectionModel::Tasks { body, .. } => blocks_hints(body@, ns, ss, range),
        SectionModel::Keywords { body, .. } => blocks_hints(body@, ns, ss, range),
        _ => Seq::empty(),
    };
    if k < sections.len() - 1 {
        assert(sections.drop_last()[k] == sections[k]);
        lemma_file_hints_hold(sections.drop_last(), k, j, x, ns, ss, range, h);
    } else {
        lemma_blocks_hints_hold(section_blocks(sections[k]), j, x, ns, ss, range, h);
    }
    lemma_contains_add(file_hints(sections.drop_last(), ns, ss, range), tail, h);
}

/// Every keyword call that starts inside `range`, at any depth inside loops
/// and branches of a test case, task or keyword, has all of its parameter
/// hints among the file's hints.
pub proof fn lemma_calls_have_hints(
    ss: Seq<SectionModel>,
    ns: Seq<(String, Vec<String>)>,
    range: Range,
    k: int,
    j: int,
    name: String,
    args: Vec<String>,
    assigns: Vec<String>,
    variables: Vec<crate::ast::VariableRefModel>,
    position: crate::ast::AstPosition,
    h: HintView,
)
    requires
        block_holds(ss, k, j, BodyItemModel::KeywordCall { name, args, assigns, variables, position }),
        range_holds_closed(range, Position { line: position.line, character: position.column }),
        call_hints(position.line, position.column, name@, strings_view(args@), params_for(ns, ss, name@), args@.len()).contains(h),
    ensures
        file_hints(ss, ns, ss, range).contains(h),
{
    lemma_file_hints_hold(ss, k, j, BodyItemModel::KeywordCall { name, args, assigns, variables, position }, ns, ss, range, h);
}

} // verus!
