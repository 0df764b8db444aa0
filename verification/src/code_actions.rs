//! Code actions: quick fixes that replace an unknown keyword by a close
//! keyword name, and the refactoring that extracts the keyword calls of a
//! selection into a new keyword.
//!
//! Keyword names are compared in the normalized form Robot Framework gives
//! them; the caller hands in that form for each name (`normalized`), and a
//! name it does not list stands for itself.
use vstd::prelude::*;

use crate::ast::{lemma_contains_add, section_blocks, BlockModel, BodyItemModel, FileModel, SectionHeader, SectionModel};
use crate::completion::{local_keywords, opt_view, strings_view};
use crate::hover::{join_strings, push_text};
use crate::keywords::{extract_keyword_name_from_diagnostic, quoted_name, rank_suggestions, string_pairs, suggestions};
use crate::lsp::{Position, Range, TextEdit};
use crate::lsp_items::{CodeAction, CodeActionKind, Diagnostic, DiagnosticSeverity, WorkspaceEdit};
use crate::occurrences::edits_view;
use crate::text::{chars_of, extend_chars, join, str_eq, string_of};
use vstd::wrapping::u32_specs::wrapping_add;

verus! {

/// A diagnostic as plain values.
pub type DiagView = (Range, Option<DiagnosticSeverity>, Option<Seq<char>>, Option<Seq<char>>, Seq<char>);

pub open spec fn diag_view(d: Diagnostic) -> DiagView {
    (d.range, d.severity, opt_view(d.code), opt_view(d.source), d.message@)
}

/// A code action as plain values: its title, kind, the diagnostics it
/// resolves, and its edits in the one document it changes.
pub type ActionView = (Seq<char>, Option<CodeActionKind>, Option<Seq<DiagView>>, Seq<(Range, Seq<char>)>);

/// `a` is the action `v` on the document `uri`.
pub open spec fn action_is(a: CodeAction, uri: Seq<char>, v: ActionView) -> bool {
    &&& a.title@ == v.0
    &&& a.kind == v.1
    &&& match v.2 {
        Some(ds) => a.diagnostics matches Some(x) && x@.map_values(|d: Diagnostic| diag_view(d)) == ds,
        None => a.diagnostics is None,
    }
    &&& a.edit matches Some(w) && w.changes matches Some(c) && c@.len() == 1 && c@[0].0@ == uri && edits_view(
        c@[0].1@,
    ) == v.3
}

/// `r` holds the actions `vs` on the document `uri`, in order.
pub open spec fn actions_are(r: Seq<CodeAction>, uri: Seq<char>, vs: Seq<ActionView>) -> bool {
    r.len() == vs.len() && forall|i: int| 0 <= i < r.len() ==> action_is(#[trigger] r[i], uri, vs[i])
}

// ── Quick fixes ──────────────────────────────────────────────────────────────

/// The normalized form of `name`: the first that `table` lists for it, else
/// the name itself.
pub open spec fn norm_of(table: Seq<(Seq<char>, Seq<char>)>, name: Seq<char>) -> Seq<char>
    decreases table.len(),
{
    if table.len() == 0 {
        name
    } else if table[0].0 == name {
        table[0].1
    } else {
        norm_of(table.drop_first(), name)
    }
}

/// The keyword names a fix may suggest: the namespace's, then the file's.
pub open spec fn candidates(ss: Seq<SectionModel>, ns_names: Seq<Seq<char>>) -> Seq<Seq<char>> {
    ns_names + local_keywords(ss).map_values(|b: BlockModel| b.name@)
}

/// Each candidate with its normalized form.
pub open spec fn candidate_pairs(table: Seq<(Seq<char>, Seq<char>)>, cands: Seq<Seq<char>>) -> Seq<
    (Seq<char>, Seq<char>),
> {
    cands.map_values(|c: Seq<char>| (c, norm_of(table, c)))
}

/// The title of the fix that suggests `s`.
pub open spec fn fix_title(s: Seq<char>) -> Seq<char> {
    "Did you mean '"@ + s + "'?"@
}

/// The fix of the diagnostic `d` that replaces its range by `s`.
pub open spec fn fix_view(d: Diagnostic, s: Seq<char>) -> ActionView {
    (fix_title(s), Some(CodeActionKind::QuickFix), Some(seq![diag_view(d)]), seq![(d.range, s)])
}

/// The fixes of one diagnostic: for an unknown keyword whose name the
/// message quotes, one replacement of the diagnostic's range by each of
/// the (at most three) closest candidates.
pub open spec fn fix_actions(d: Diagnostic, table: Seq<(Seq<char>, Seq<char>)>, cands: Seq<Seq<char>>) -> Seq<
    ActionView,
> {
    if opt_view(d.code) == Some("KeywordNotFound"@) {
        match quoted_name(d.message@) {
            Some(n) => suggestions(norm_of(table, n), candidate_pairs(table, cands), 3).map_values(
                |s: Seq<char>| fix_view(d, s),
            ),
            None => Seq::empty(),
        }
    } else {
        Seq::empty()
    }
}

/// The fixes of the diagnostics `ds`, in order.
pub open spec fn quick_fixes(ds: Seq<Diagnostic>, table: Seq<(Seq<char>, Seq<char>)>, cands: Seq<Seq<char>>) -> Seq<
    ActionView,
>
    decreases ds.len(),
{
    if ds.len() == 0 {
        Seq::empty()
    } else {
        quick_fixes(ds.drop_last(), table, cands) + fix_actions(ds.last(), table, cands)
    }
}

// ── Extracting a keyword ─────────────────────────────────────────────────────

/// A call written as a line: the name, then the arguments joined by four
/// spaces when that is not empty.
pub open spec fn call_text(name: Seq<char>, args: Seq<Seq<char>>) -> Seq<char> {
    if join(args, "    "@).len() == 0 {
        name
    } else {
        name + "    "@ + join(args, "    "@)
    }
}

/// The calls among `items` that start on a line of `range`, as lines.
pub open spec fn calls_in_range(items: Seq<BodyItemModel>, range: Range) -> Seq<Seq<char>>
    decreases items.len(),
{
    if items.len() == 0 {
        Seq::empty()
    } else {
        calls_in_range(items.drop_last(), range) + match items.last() {
            BodyItemModel::KeywordCall { name, args, position, .. } => if range.start.line <= position.line
                <= range.end.line {
                seq![call_text(name@, strings_view(args@))]
            } else {
                Seq::empty()
            },
            _ => Seq::empty(),
        }
    }
}

/// The calls in the bodies of `bs` that start on a line of `range`.
pub open spec fn blocks_calls_in_range(bs: Seq<BlockModel>, range: Range) -> Seq<Seq<char>>
    decreases bs.len(),
{
    if bs.len() == 0 {
        Seq::empty()
    } else {
        blocks_calls_in_range(bs.drop_last(), range) + calls_in_range(bs.last().body@, range)
    }
}

/// The calls of test cases and keywords that start on a line of `range`,
/// in order.
pub open spec fn items_in_range(ss: Seq<SectionModel>, range: Range) -> Seq<Seq<char>>
    decreases ss.len(),
{
    if ss.len() == 0 {
        Seq::empty()
    } else {
        items_in_range(ss.drop_last(), range) + match ss.last() {
            SectionModel::TestCases { body, .. } => blocks_calls_in_range(body@, range),
            SectionModel::Keywords { body, .. } => blocks_calls_in_range(body@, range),
            _ => Seq::empty(),
        }
    }
}

/// The last line of a keyword, as its last body item gives it: the end of a
/// final call or comment, else the end of its name line.
pub open spec fn keyword_end(b: BlockModel) -> u32 {
    if b.body@.len() == 0 {
        b.position.end_line
    } else {
        match b.body@.last() {
            BodyItemModel::KeywordCall { position, .. } => position.end_line,
            BodyItemModel::Comment { position, .. } => position.end_line,
            _ => b.position.end_line,
        }
    }
}

/// The last line of a keywords section: that of its last keyword, else
/// that of its header.
pub open spec fn keywords_end(header: SectionHeader, body: Seq<BlockModel>) -> u32 {
    if body.len() == 0 {
        header.position.end_line
    } else {
        keyword_end(body.last())
    }
}

/// The line after the first keywords section of `ss`, if there is one.
pub open spec fn after_keywords(ss: Seq<SectionModel>) -> Option<u32>
    decreases ss.len(),
{
    if ss.len() == 0 {
        None
    } else {
        match after_keywords(ss.drop_last()) {
            Some(l) => Some(l),
            None => match ss.last() {
                SectionModel::Keywords { header, body } => Some(wrapping_add(keywords_end(header, body@), 1)),
                _ => None,
            },
        }
    }
}

/// The last line of a section's header; 0 for text before any header.
pub open spec fn header_end(s: SectionModel) -> u32 {
    match s {
        SectionModel::Settings { header, .. } => header.position.end_line,
        SectionModel::Variables { header, .. } => header.position.end_line,
        SectionModel::TestCases { header, .. } => header.position.end_line,
        SectionModel::Tasks { header, .. } => header.position.end_line,
        SectionModel::Keywords { header, .. } => header.position.end_line,
        SectionModel::Comments { header, .. } => header.position.end_line,
        SectionModel::Invalid => 0,
    }
}

/// Where an extracted keyword goes: after the first keywords section, else
/// after the header of the last section (line 1 in an empty file).
pub open spec fn insert_line(ss: Seq<SectionModel>) -> u32 {
    match after_keywords(ss) {
        Some(l) => l,
        None => wrapping_add(
            if ss.len() == 0 {
                0
            } else {
                header_end(ss.last())
            },
            1,
        ),
    }
}

/// The body of the extracted keyword: each line indented by four spaces.
pub open spec fn body_text(lines: Seq<Seq<char>>) -> Seq<char>
    decreases lines.len(),
{
    if lines.len() == 0 {
        Seq::empty()
    } else {
        body_text(lines.drop_last()) + "    "@ + lines.last() + "\n"@
    }
}

/// The extraction of the calls on the lines of `range` into a keyword
/// `Extracted Keyword`, when there are two of them at least: the selection
/// becomes a call of it, and its definition goes where `insert_line` says.
pub open spec fn extract_action(ss: Seq<SectionModel>, range: Range) -> Option<ActionView> {
    let lines = items_in_range(ss, range);
    if lines.len() < 2 {
        None
    } else {
        let l = insert_line(ss);
        Some(
            (
                "Extract keyword"@,
                Some(CodeActionKind::RefactorExtract),
                None,
                seq![
                    (range, "    Extracted Keyword"@),
                    (
                        Range { start: Position { line: l, character: 0 }, end: Position { line: l, character: 0 } },
                        "\nExtracted Keyword\n"@ + body_text(lines),
                    ),
                ],
            ),
        )
    }
}

/// The code actions for `range` in `ss` with the diagnostics `ds`: the
/// quick fixes of each diagnostic, then the extraction.
pub open spec fn code_actions_spec(
    ss: Seq<SectionModel>,
    range: Range,
    ds: Seq<Diagnostic>,
    ns_names: Seq<Seq<char>>,
    table: Seq<(Seq<char>, Seq<char>)>,
) -> Seq<ActionView> {
    quick_fixes(ds, table, candidates(ss, ns_names)) + match extract_action(ss, range) {
        Some(a) => seq![a],
        None => Seq::empty(),
    }
}

// ── Computation ──────────────────────────────────────────────────────────────

proof fn lemma_actions_push(r: Seq<CodeAction>, uri: Seq<char>, vs: Seq<ActionView>, a: CodeAction, v: ActionView)
    requires
        actions_are(r, uri, vs),
        action_is(a, uri, v),
    ensures
        actions_are(r.push(a), uri, vs.push(v)),
{
    assert forall|i: int| 0 <= i < r.len() + 1 implies action_is(#[trigger] r.push(a)[i], uri, vs.push(v)[i]) by {
        if i < r.len() {
            assert(r.push(a)[i] == r[i]);
            assert(vs.push(v)[i] == vs[i]);
        }
    }
}

fn norm_lookup(table: &Vec<(String, String)>, name: &String) -> (r: String)
    ensures
        r@ == norm_of(string_pairs(table@), name@),
{
    let ghost t = string_pairs(table@);
    let mut i: usize = 0;
    assert(t.skip(0) == t);
    while i < table.len()
        invariant
            i <= table.len(),
            t == string_pairs(table@),
            norm_of(t.skip(i as int), name@) == norm_of(t, name@),
        decreases table.len() - i,
    {
        assert(t.skip(i as int)[0] == (table@[i as int].0@, table@[i as int].1@));
        if str_eq(table[i].0.as_str(), name.as_str()) {
            return table[i].1.clone();
        }
        assert(t.skip(i as int).drop_first() == t.skip(i + 1));
        i += 1;
    }
    assert(t.skip(i as int).len() == 0);
    name.clone()
}

proof fn lemma_pairs_push(table: Seq<(Seq<char>, Seq<char>)>, c: Seq<Seq<char>>, x: Seq<char>)
    ensures
        candidate_pairs(table, c.push(x)) == candidate_pairs(table, c).push((x, norm_of(table, x))),
{
    assert(candidate_pairs(table, c.push(x)) =~= candidate_pairs(table, c).push((x, norm_of(table, x))));
}

proof fn lemma_string_pairs_push(v: Seq<(String, String)>, x: (String, String))
    ensures
        string_pairs(v.push(x)) == string_pairs(v).push((x.0@, x.1@)),
{
    assert(string_pairs(v.push(x)) =~= string_pairs(v).push((x.0@, x.1@)));
}

fn candidate_list(ss: &Vec<SectionModel>, ns_names: &Vec<String>, table: &Vec<(String, String)>) -> (r: Vec<
    (String, String),
>)
    ensures
        string_pairs(r@) == candidate_pairs(string_pairs(table@), candidates(ss@, strings_view(ns_names@))),
{
    let ghost t = string_pairs(table@);
    let mut r: Vec<(String, String)> = Vec::new();
    let mut i: usize = 0;
    assert(string_pairs(r@) =~= candidate_pairs(t, strings_view(ns_names@).take(0)));
    while i < ns_names.len()
        invariant
            i <= ns_names.len(),
            t == string_pairs(table@),
            string_pairs(r@) == candidate_pairs(t, strings_view(ns_names@).take(i as int)),
        decreases ns_names.len() - i,
    {
        let x = (ns_names[i].clone(), norm_lookup(table, &ns_names[i]));
        proof {
            lemma_string_pairs_push(r@, x);
            lemma_pairs_push(t, strings_view(ns_names@).take(i as int), ns_names@[i as int]@);
            assert(strings_view(ns_names@).take(i + 1) =~= strings_view(ns_names@).take(i as int).push(
                ns_names@[i as int]@,
            ));
        }
        r.push(x);
        i += 1;
    }
    assert(strings_view(ns_names@).take(ns_names.len() as int) == strings_view(ns_names@));
    let ghost ns = strings_view(ns_names@);
    let mut k: usize = 0;
    assert(local_keywords(ss@.take(0)).map_values(|b: BlockModel| b.name@) =~= Seq::<Seq<char>>::empty());
    assert(ns + Seq::<Seq<char>>::empty() =~= ns);
    while k < ss.len()
        invariant
            k <= ss.len(),
            t == string_pairs(table@),
            ns == strings_view(ns_names@),
            string_pairs(r@) == candidate_pairs(t, ns + local_keywords(ss@.take(k as int)).map_values(
                |b: BlockModel| b.name@,
            )),
        decreases ss.len() - k,
    {
        assert(ss@.take(k + 1).drop_last() == ss@.take(k as int));
        assert(ss@.take(k + 1).last() == ss@[k as int]);
        let ghost pre = ns + local_keywords(ss@.take(k as int)).map_values(|b: BlockModel| b.name@);
        if let SectionModel::Keywords { body, .. } = &ss[k] {
            let mut j: usize = 0;
            assert(pre + body@.take(0).map_values(|b: BlockModel| b.name@) =~= pre);
            while j < body.len()
                invariant
                    j <= body.len(),
                    t == string_pairs(table@),
                    string_pairs(r@) == candidate_pairs(t, pre + body@.take(j as int).map_values(|b: BlockModel| b.name@)),
                decreases body.len() - j,
            {
                let x = (body[j].name.clone(), norm_lookup(table, &body[j].name));
                proof {
                    lemma_string_pairs_push(r@, x);
                    lemma_pairs_push(t, pre + body@.take(j as int).map_values(|b: BlockModel| b.name@), body@[j as int].name@);
                    assert(pre + body@.take(j + 1).map_values(|b: BlockModel| b.name@) =~= (pre + body@.take(
                        j as int,
                    ).map_values(|b: BlockModel| b.name@)).push(body@[j as int].name@));
                }
                r.push(x);
                j += 1;
            }
            assert(body@.take(body.len() as int) == body@);
            assert(ns + local_keywords(ss@.take(k + 1)).map_values(|b: BlockModel| b.name@) =~= pre + body@.map_values(
                |b: BlockModel| b.name@,
            ));
        } else {
            assert(ns + local_keywords(ss@.take(k + 1)).map_values(|b: BlockModel| b.name@) =~= pre);
        }
        k += 1;
    }
    assert(ss@.take(ss.len() as int) == ss@);
    r
}

fn clone_pairs(v: &Vec<(String, String)>) -> (r: Vec<(String, String)>)
    ensures
        string_pairs(r@) == string_pairs(v@),
{
    let mut r: Vec<(String, String)> = Vec::new();
    let mut i: usize = 0;
    while i < v.len()
        invariant
            i <= v.len(),
            string_pairs(r@) == string_pairs(v@).take(i as int),
        decreases v.len() - i,
    {
        let x = (v[i].0.clone(), v[i].1.clone());
        proof {
            lemma_string_pairs_push(r@, x);
            assert(string_pairs(v@).take(i + 1) =~= string_pairs(v@).take(i as int).push(string_pairs(v@)[i as int]));
        }
        r.push(x);
        i += 1;
    }
    assert(string_pairs(v@).take(v.len() as int) == string_pairs(v@));
    r
}

fn copy_opt(s: &Option<String>) -> (r: Option<String>)
    ensures
        opt_view(r) == opt_view(*s),
{
    match s {
        Some(x) => Some(x.clone()),
        None => None,
    }
}

fn copy_diagnostic(d: &Diagnostic) -> (r: Diagnostic)
    ensures
        diag_view(r) == diag_view(*d),
{
    Diagnostic {
        range: d.range,
        severity: d.severity,
        code: copy_opt(&d.code),
        source: copy_opt(&d.source),
        message: d.message.clone(),
    }
}

fn one_edit(uri: &str, range: Range, text: String) -> (w: WorkspaceEdit)
    ensures
        w.changes matches Some(c) && c@.len() == 1 && c@[0].0@ == uri@ && edits_view(c@[0].1@) == seq![(range, text@)],
{
    let edits = vec![TextEdit { range, new_text: text }];
    assert(edits_view(edits@) =~= seq![(range, edits@[0].new_text@)]);
    WorkspaceEdit { changes: Some(vec![(uri.to_owned(), edits)]) }
}

fn quick_fix(d: &Diagnostic, uri: &str, s: &String) -> (a: CodeAction)
    ensures
        action_is(a, uri@, fix_view(*d, s@)),
{
    let mut title: Vec<char> = Vec::new();
    push_text(&mut title, "Did you mean '");
    push_text(&mut title, s.as_str());
    push_text(&mut title, "'?");
    assert(title@ =~= fix_title(s@));
    let ds = vec![copy_diagnostic(d)];
    assert(ds@.map_values(|x: Diagnostic| diag_view(x)) =~= seq![diag_view(*d)]);
    CodeAction {
        title: string_of(&title),
        kind: Some(CodeActionKind::QuickFix),
        diagnostics: Some(ds),
        edit: Some(one_edit(uri, d.range, s.clone())),
    }
}

fn is_keyword_not_found(code: &Option<String>) -> (r: bool)
    ensures
        r == (opt_view(*code) == Some("KeywordNotFound"@)),
{
    match code {
        Some(c) => str_eq(c.as_str(), "KeywordNotFound"),
        None => false,
    }
}

fn fixes_into(
    out: &mut Vec<CodeAction>,
    d: &Diagnostic,
    uri: &str,
    table: &Vec<(String, String)>,
    cands: &Vec<(String, String)>,
    Ghost(c): Ghost<Seq<Seq<char>>>,
    Ghost(vs): Ghost<Seq<ActionView>>,
)
    requires
        actions_are(old(out)@, uri@, vs),
        string_pairs(cands@) == candidate_pairs(string_pairs(table@), c),
    ensures
        actions_are(final(out)@, uri@, vs + fix_actions(*d, string_pairs(table@), c)),
{
    let ghost t = string_pairs(table@);
    if !is_keyword_not_found(&d.code) {
        assert(vs + fix_actions(*d, t, c) =~= vs);
        return;
    }
    match extract_keyword_name_from_diagnostic(d.message.as_str()) {
        None => {
            assert(vs + fix_actions(*d, t, c) =~= vs);
        },
        Some(n) => {
            let norm = norm_lookup(table, &n);
            let sugg = rank_suggestions(norm.as_str(), clone_pairs(cands), 3);
            let ghost all = fix_actions(*d, t, c);
            assert(sugg@.map_values(|x: String| x@) == suggestions(norm_of(t, n@), candidate_pairs(t, c), 3));
            assert(all == sugg@.map_values(|x: String| x@).map_values(|x: Seq<char>| fix_view(*d, x)));
            let mut j: usize = 0;
            assert(vs + all.take(0) =~= vs);
            while j < sugg.len()
                invariant
                    j <= sugg.len(),
                    all == sugg@.map_values(|x: String| x@).map_values(|x: Seq<char>| fix_view(*d, x)),
                    actions_are(out@, uri@, vs + all.take(j as int)),
                decreases sugg.len() - j,
            {
                let a = quick_fix(d, uri, &sugg[j]);
                proof {
                    lemma_actions_push(out@, uri@, vs + all.take(j as int), a, fix_view(*d, sugg@[j as int]@));
                    assert(vs + all.take(j + 1) =~= (vs + all.take(j as int)).push(fix_view(*d, sugg@[j as int]@)));
                }
                out.push(a);
                j += 1;
            }
            assert(all.take(sugg.len() as int) =~= all);
        },
    }
}

fn call_text_of(name: &String, args: &Vec<String>) -> (r: String)
    ensures
        r@ == call_text(name@, strings_view(args@)),
{
    let j = join_strings(args, "    ");
    if j.len() == 0 {
        return name.clone();
    }
    let mut out = chars_of(name.as_str());
    push_text(&mut out, "    ");
    extend_chars(&mut out, j.as_slice());
    string_of(&out)
}

proof fn lemma_strings_push(v: Seq<String>, x: String)
    ensures
        strings_view(v.push(x)) == strings_view(v).push(x@),
{
    assert(strings_view(v.push(x)) =~= strings_view(v).push(x@));
}

fn calls_into(out: &mut Vec<String>, items: &Vec<BodyItemModel>, range: Range)
    ensures
        strings_view(final(out)@) == strings_view(old(out)@) + calls_in_range(items@, range),
{
    let ghost o = strings_view(out@);
    let mut i: usize = 0;
    assert(o + Seq::<Seq<char>>::empty() =~= o);
    while i < items.len()
        invariant
            i <= items.len(),
            strings_view(out@) == o + calls_in_range(items@.take(i as int), range),
        decreases items.len() - i,
    {
        assert(items@.take(i + 1).drop_last() == items@.take(i as int));
        assert(items@.take(i + 1).last() == items@[i as int]);
        let ghost before = strings_view(out@);
        let mut pushed = false;
        if let BodyItemModel::KeywordCall { name, args, position, .. } = &items[i] {
            if range.start.line <= position.line && position.line <= range.end.line {
                let line = call_text_of(name, args);
                proof {
                    lemma_strings_push(out@, line);
                }
                out.push(line);
                pushed = true;
            }
        }
        if !pushed {
            assert(before + Seq::<Seq<char>>::empty() =~= before);
        }
        assert(o + calls_in_range(items@.take(i + 1), range) =~= o + calls_in_range(items@.take(i as int), range)
            + match items@[i as int] {
            BodyItemModel::KeywordCall { name, args, position, .. } => if range.start.line <= position.line
                <= range.end.line {
                seq![call_text(name@, strings_view(args@))]
            } else {
                Seq::<Seq<char>>::empty()
            },
            _ => Seq::<Seq<char>>::empty(),
        });
        i += 1;
    }
    assert(items@.take(items.len() as int) == items@);
}

fn blocks_calls_into(out: &mut Vec<String>, bs: &Vec<BlockModel>, range: Range)
    ensures
        strings_view(final(out)@) == strings_view(old(out)@) + blocks_calls_in_range(bs@, range),
{
    let ghost o = strings_view(out@);
    let mut i: usize = 0;
    assert(o + Seq::<Seq<char>>::empty() =~= o);
    while i < bs.len()
        invariant
            i <= bs.len(),
            strings_view(out@) == o + blocks_calls_in_range(bs@.take(i as int), range),
        decreases bs.len() - i,
    {
        assert(bs@.take(i + 1).drop_last() == bs@.take(i as int));
        assert(bs@.take(i + 1).last() == bs@[i as int]);
        calls_into(out, &bs[i].body, range);
        assert(o + blocks_calls_in_range(bs@.take(i + 1), range) =~= o + blocks_calls_in_range(bs@.take(i as int), range)
            + calls_in_range(bs@[i as int].body@, range));
        i += 1;
    }
    assert(bs@.take(bs.len() as int) == bs@);
}

/// The calls of test cases and keywords in `file` that start on a line of
/// `range`, each written as a line: name and arguments set off by four
/// spaces.
pub fn collect_items_in_range(file: &FileModel, range: Range) -> (r: Vec<String>)
    ensures
        strings_view(r@) == items_in_range(file.sections@, range),
{
    let ss = &file.sections;
    let mut out: Vec<String> = Vec::new();
    let mut i: usize = 0;
    assert(strings_view(out@) =~= Seq::<Seq<char>>::empty());
    while i < ss.len()
        invariant
            i <= ss.len(),
            strings_view(out@) == items_in_range(ss@.take(i as int), range),
        decreases ss.len() - i,
    {
        assert(ss@.take(i + 1).drop_last() == ss@.take(i as int));
        assert(ss@.take(i + 1).last() == ss@[i as int]);
        let ghost before = strings_view(out@);
        match &ss[i] {
            SectionModel::TestCases { body, .. } => blocks_calls_into(&mut out, body, range),
            SectionModel::Keywords { body, .. } => blocks_calls_into(&mut out, body, range),
            _ => {
                assert(before + Seq::<Seq<char>>::empty() =~= before);
            },
        }
        i += 1;
    }
    assert(ss@.take(ss.len() as int) == ss@);
    out
}

/// The line where an extracted keyword goes in `file`: after its first
/// keywords section, else after the header of its last section.
pub fn find_or_create_keywords_section_line(file: &FileModel) -> (r: u32)
    ensures
        r == insert_line(file.sections@),
{
    let ss = &file.sections;
    let mut found: Option<u32> = None;
    let mut i: usize = 0;
    while i < ss.len()
        invariant
            i <= ss.len(),
            found == after_keywords(ss@.take(i as int)),
        decreases ss.len() - i,
    {
        assert(ss@.take(i + 1).drop_last() == ss@.take(i as int));
        assert(ss@.take(i + 1).last() == ss@[i as int]);
        if found.is_none() {
            if let SectionModel::Keywords { header, body } = &ss[i] {
                let end = if body.len() == 0 {
                    header.position.end_line
                } else {
                    let kw = &body[body.len() - 1];
                    if kw.body.len() == 0 {
                        kw.position.end_line
                    } else {
                        match &kw.body[kw.body.len() - 1] {
                            BodyItemModel::KeywordCall { position, .. } => position.end_line,
                            BodyItemModel::Comment { position, .. } => position.end_line,
                            _ => kw.position.end_line,
                        }
                    }
                };
                found = Some(end.wrapping_add(1));
            }
        }
        i += 1;
    }
    assert(ss@.take(ss.len() as int) == ss@);
    match found {
        Some(l) => l,
        None => {
            let last: u32 = if ss.len() == 0 {
                0
            } else {
                match &ss[ss.len() - 1] {
                    SectionModel::Settings { header, .. } => header.position.end_line,
                    SectionModel::Variables { header, .. } => header.position.end_line,
                    SectionModel::TestCases { header, .. } => header.position.end_line,
                    SectionModel::Tasks { header, .. } => header.position.end_line,
                    SectionModel::Keywords { header, .. } => header.position.end_line,
                    SectionModel::Comments { header, .. } => header.position.end_line,
                    SectionModel::Invalid => 0,
                }
            };
            last.wrapping_add(1)
        },
    }
}

fn body_text_of(lines: &Vec<String>) -> (r: Vec<char>)
    ensures
        r@ == body_text(strings_view(lines@)),
{
    let mut out: Vec<char> = Vec::new();
    let mut i: usize = 0;
    while i < lines.len()
        invariant
            i <= lines.len(),
            out@ == body_text(strings_view(lines@).take(i as int)),
        decreases lines.len() - i,
    {
        let ghost before = out@;
        push_text(&mut out, "    ");
        push_text(&mut out, lines[i].as_str());
        push_text(&mut out, "\n");
        assert(strings_view(lines@).take(i + 1).drop_last() =~= strings_view(lines@).take(i as int));
        assert(out@ =~= before + "    "@ + lines@[i as int]@ + "\n"@);
        i += 1;
    }
    assert(strings_view(lines@).take(lines.len() as int) == strings_view(lines@));
    out
}

/// The action that extracts the calls on the lines of `range` in `file`
/// (the document `uri`) into a new keyword, when there are two at least.
pub fn extract_keyword_action(file: &FileModel, uri: &str, range: Range) -> (r: Option<CodeAction>)
    ensures
        match extract_action(file.sections@, range) {
            Some(v) => r matches Some(a) && action_is(a, uri@, v),
            None => r is None,
        },
{
    let lines = collect_items_in_range(file, range);
    if lines.len() < 2 {
        return None;
    }
    let l = find_or_create_keywords_section_line(file);
    let mut def: Vec<char> = Vec::new();
    push_text(&mut def, "\nExtracted Keyword\n");
    let body = body_text_of(&lines);
    extend_chars(&mut def, body.as_slice());
    let insert = Range { start: Position { line: l, character: 0 }, end: Position { line: l, character: 0 } };
    let edits = vec![
        TextEdit { range, new_text: "    Extracted Keyword".to_owned() },
        TextEdit { range: insert, new_text: string_of(&def) },
    ];
    assert(edits_view(edits@) =~= seq![
        (range, "    Extracted Keyword"@),
        (insert, "\nExtracted Keyword\n"@ + body_text(strings_view(lines@))),
    ]);
    Some(
        CodeAction {
            title: "Extract keyword".to_owned(),
            kind: Some(CodeActionKind::RefactorExtract),
            diagnostics: None,
            edit: Some(WorkspaceEdit { changes: Some(vec![(uri.to_owned(), edits)]) }),
        },
    )
}

/// The code actions for `range` in `file` (the document `uri`) with the
/// diagnostics reported there: for each unknown keyword, a fix per close
/// keyword name among the namespace's keywords (`ns_keyword_names`) and the
/// file's, then the extraction of the selected calls into a keyword.
/// `normalized` gives the normalized form of keyword names.
pub fn code_actions(
    file: &FileModel,
    uri: &str,
    range: Range,
    diagnostics: &Vec<Diagnostic>,
    ns_keyword_names: &Vec<String>,
    normalized: &Vec<(String, String)>,
) -> (r: Vec<CodeAction>)
    ensures
        actions_are(
            r@,
            uri@,
            code_actions_spec(file.sections@, range, diagnostics@, strings_view(ns_keyword_names@), string_pairs(normalized@)),
        ),
{
    let ghost t = string_pairs(normalized@);
    let ghost c = candidates(file.sections@, strings_view(ns_keyword_names@));
    let cands = candidate_list(&file.sections, ns_keyword_names, normalized);
    let mut out: Vec<CodeAction> = Vec::new();
    let mut i: usize = 0;
    while i < diagnostics.len()
        invariant
            i <= diagnostics.len(),
            t == string_pairs(normalized@),
            string_pairs(cands@) == candidate_pairs(t, c),
            actions_are(out@, uri@, quick_fixes(diagnostics@.take(i as int), t, c)),
        decreases diagnostics.len() - i,
    {
        assert(diagnostics@.take(i + 1).drop_last() == diagnostics@.take(i as int));
        assert(diagnostics@.take(i + 1).last() == diagnostics@[i as int]);
        fixes_into(
            &mut out,
            &diagnostics[i],
            uri,
            normalized,
            &cands,
            Ghost(c),
            Ghost(quick_fixes(diagnostics@.take(i as int), t, c)),
        );
        i += 1;
    }
    assert(diagnostics@.take(diagnostics.len() as int) == diagnostics@);
    let ghost fixes = quick_fixes(diagnostics@, t, c);
    match extract_keyword_action(file, uri, range) {
        Some(a) => {
            proof {
                lemma_actions_push(out@, uri@, fixes, a, extract_action(file.sections@, range)->Some_0);
            }
            out.push(a);
            assert(fixes.push(extract_action(file.sections@, range)->Some_0) =~= fixes + seq![
                extract_action(file.sections@, range)->Some_0,
            ]);
        },
        None => {
            assert(fixes + Seq::<ActionView>::empty() =~= fixes);
        },
    }
    out
}

// ── Laws ─────────────────────────────────────────────────────────────────────

proof fn lemma_calls_in_range_has(items: Seq<BodyItemModel>, i: int, range: Range)
    requires
        0 <= i < items.len(),
        items[i] matches BodyItemModel::KeywordCall { position, .. } && range.start.line <= position.line
            <= range.end.line,
    ensures
        items[i] matches BodyItemModel::KeywordCall { name, args, .. } && calls_in_range(items, range).contains(
            call_text(name@, strings_view(args@)),
        ),
    decreases items.len(),
{
    if let BodyItemModel::KeywordCall { name, args, .. } = items[i] {
        let c = call_text(name@, strings_view(args@));
        let tail = match items.last() {
            BodyItemModel::KeywordCall { name, args, position, .. } => if range.start.line <= position.line
                <= range.end.line {
                seq![call_text(name@, strings_view(args@))]
            } else {
                Seq::<Seq<char>>::empty()
            },
            _ => Seq::<Seq<char>>::empty(),
        };
        if i < items.len() - 1 {
            assert(items.drop_last()[i] == items[i]);
            lemma_calls_in_range_has(items.drop_last(), i, range);
        } else {
            assert(tail[0] == c);
        }
        lemma_contains_add(calls_in_range(items.drop_last(), range), tail, c);
    }
}

proof fn lemma_blocks_calls_has(bs: Seq<BlockModel>, j: int, range: Range, c: Seq<char>)
    requires
        0 <= j < bs.len(),
        calls_in_range(bs[j].body@, range).contains(c),
    ensures
        blocks_calls_in_range(bs, range).contains(c),
    decreases bs.len(),
{
    if j < bs.len() - 1 {
        assert(bs.drop_last()[j] == bs[j]);
        lemma_blocks_calls_has(bs.drop_last(), j, range, c);
    }
    lemma_contains_add(blocks_calls_in_range(bs.drop_last(), range), calls_in_range(bs.last().body@, range), c);
}

proof fn lemma_items_in_range_has(ss: Seq<SectionModel>, k: int, j: int, range: Range, c: Seq<char>)
    requires
        0 <= k < ss.len(),
        ss[k] is TestCases || ss[k] is Keywords,
        0 <= j < section_blocks(ss[k]).len(),
        calls_in_range(section_blocks(ss[k])[j].body@, range).contains(c),
    ensures
        items_in_range(ss, range).contains(c),
    decreases ss.len(),
{
    let tail = match ss.last() {
        SectionModel::TestCases { body, .. } => blocks_calls_in_range(body@, range),
        SectionModel::Keywords { body, .. } => blocks_calls_in_range(body@, range),
        _ => Seq::empty(),
    };
    if k < ss.len() - 1 {
        assert(ss.drop_last()[k] == ss[k]);
        lemma_items_in_range_has(ss.drop_last(), k, j, range, c);
    } else {
        lemma_blocks_calls_has(section_blocks(ss[k]), j, range, c);
    }
    lemma_contains_add(items_in_range(ss.drop_last(), range), tail, c);
}

/// Every call written directly in the body of a test case or keyword on a
/// line of the selection is among the calls an extraction takes, as its
/// line of name and arguments.
pub proof fn lemma_selected_calls_collected(ss: Seq<SectionModel>, range: Range, k: int, j: int, i: int)
    requires
        0 <= k < ss.len(),
        ss[k] is TestCases || ss[k] is Keywords,
        0 <= j < section_blocks(ss[k]).len(),
        0 <= i < section_blocks(ss[k])[j].body@.len(),
        section_blocks(ss[k])[j].body@[i] matches BodyItemModel::KeywordCall { position, .. } && range.start.line
            <= position.line <= range.end.line,
    ensures
        section_blocks(ss[k])[j].body@[i] matches BodyItemModel::KeywordCall { name, args, .. } && items_in_range(
            ss,
            range,
        ).contains(call_text(name@, strings_view(args@))),
{
    lemma_calls_in_range_has(section_blocks(ss[k])[j].body@, i, range);
    if let BodyItemModel::KeywordCall { name, args, .. } = section_blocks(ss[k])[j].body@[i] {
        lemma_items_in_range_has(ss, k, j, range, call_text(name@, strings_view(args@)));
    }
}

proof fn lemma_quick_fixes_has(ds: Seq<Diagnostic>, i: int, table: Seq<(Seq<char>, Seq<char>)>, cands: Seq<Seq<char>>, a: ActionView)
    requires
        0 <= i < ds.len(),
        fix_actions(ds[i], table, cands).contains(a),
    ensures
        quick_fixes(ds, table, cands).contains(a),
    decreases ds.len(),
{
    if i < ds.len() - 1 {
        assert(ds.drop_last()[i] == ds[i]);
        lemma_quick_fixes_has(ds.drop_last(), i, table, cands, a);
    }
    lemma_contains_add(quick_fixes(ds.drop_last(), table, cands), fix_actions(ds.last(), table, cands), a);
}

/// For every diagnostic of an unknown keyword whose name the message
/// quotes, each suggested keyword name (the closest candidates) is offered
/// as a fix that replaces the diagnostic's range by it.
pub proof fn lemma_every_suggestion_offered(
    ss: Seq<SectionModel>,
    range: Range,
    ds: Seq<Diagnostic>,
    ns_names: Seq<Seq<char>>,
    table: Seq<(Seq<char>, Seq<char>)>,
    i: int,
    s: Seq<char>,
)
    requires
        0 <= i < ds.len(),
        opt_view(ds[i].code) == Some("KeywordNotFound"@),
        quoted_name(ds[i].message@) matches Some(n) && suggestions(norm_of(table, n), candidate_pairs(table, candidates(ss, ns_names)), 3).contains(s),
    ensures
        code_actions_spec(ss, range, ds, ns_names, table).contains(
            (
                "Did you mean '"@ + s + "'?"@,
                Some(CodeActionKind::QuickFix),
                Some(seq![diag_view(ds[i])]),
                seq![(ds[i].range, s)],
            ),
        ),
{
    let c = candidates(ss, ns_names);
    let n = quoted_name(ds[i].message@)->Some_0;
    let sg = suggestions(norm_of(table, n), candidate_pairs(table, c), 3);
    let m = choose|m: int| 0 <= m < sg.len() && sg[m] == s;
    assert(fix_actions(ds[i], table, c)[m] == fix_view(ds[i], s));
    assert(fix_actions(ds[i], table, c).contains(fix_view(ds[i], s)));
    lemma_quick_fixes_has(ds, i, table, c, fix_view(ds[i], s));
    let ex = match extract_action(ss, range) {
        Some(a) => seq![a],
        None => Seq::<ActionView>::empty(),
    };
    lemma_contains_add(quick_fixes(ds, table, c), ex, fix_view(ds[i], s));
}

} // verus!
