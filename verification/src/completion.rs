//! Completions: keyword completions (the BDD prefixes, the keywords of the
//! namespace, that is the libraries and resources a file imports, and the
//! file's own keywords, each completing to a snippet with its arguments as
//! placeholders), variable completions (the built-in variables, the
//! namespace's variables and the file's own) and setting completions, as
//! the line under the cursor calls for.
use vstd::prelude::*;

use crate::ast::{lemma_contains_add, section_blocks, BlockModel, BodyItemModel, FileModel, SectionModel, SettingItemModel, VariableItemModel};
use crate::folding::setting_position;
use crate::handlers::{setting_completions, setting_table};
use crate::lsp::Position;
use crate::decimal::{dec_digits, usize_to_decimal};
use crate::lsp_items::{CompletionItem, CompletionItemKind, InsertTextFormat};
use crate::text::{chars_of, extend_chars, join, join_chars, str_eq, string_of};

verus! {

/// A keyword of the namespace, as completion reads it.
#[derive(Debug, Clone)]
pub struct KeywordModel {
    pub name: String,
    /// The library that provides it, if any.
    pub library_name: Option<String>,
    pub doc: String,
    /// The names of its arguments.
    pub args: Vec<String>,
    /// Whether it is marked deprecated.
    pub deprecated: bool,
}

/// A completion item as plain values.
pub struct CompletionView {
    pub label: Seq<char>,
    pub kind: Option<CompletionItemKind>,
    pub detail: Option<Seq<char>>,
    pub documentation: Option<Seq<char>>,
    pub insert_text: Option<Seq<char>>,
    pub insert_text_format: Option<InsertTextFormat>,
    pub deprecated: Option<bool>,
}

pub open spec fn opt_view(s: Option<String>) -> Option<Seq<char>> {
    match s {
        Some(x) => Some(x@),
        None => None,
    }
}

/// A completion item as plain values.
pub open spec fn completion_view(c: CompletionItem) -> CompletionView {
    CompletionView {
        label: c.label@,
        kind: c.kind,
        detail: opt_view(c.detail),
        documentation: opt_view(c.documentation),
        insert_text: opt_view(c.insert_text),
        insert_text_format: c.insert_text_format,
        deprecated: c.deprecated,
    }
}

/// The BDD prefixes offered first.
pub open spec fn bdd_prefixes() -> Seq<Seq<char>> {
    seq!["Given "@, "When "@, "Then "@, "And "@, "But "@]
}

/// A prefix completing to itself.
pub open spec fn prefix_item(p: Seq<char>) -> CompletionView {
    CompletionView {
        label: p,
        kind: Some(CompletionItemKind::Keyword),
        detail: None,
        documentation: None,
        insert_text: Some(p),
        insert_text_format: None,
        deprecated: None,
    }
}

/// The snippet placeholder `${i:name}`.
pub open spec fn placeholder(i: nat, name: Seq<char>) -> Seq<char> {
    "${"@ + dec_digits(i) + ":"@ + name + "}"@
}

/// The placeholders of `args`, numbered from 1.
pub open spec fn placeholders(args: Seq<Seq<char>>) -> Seq<Seq<char>> {
    Seq::new(args.len(), |i: int| placeholder((i + 1) as nat, args[i]))
}

/// The snippet a keyword call completes to: the name, then its arguments
/// as placeholders, separated by four spaces.
pub open spec fn snippet(name: Seq<char>, args: Seq<Seq<char>>) -> Seq<char> {
    if args.len() == 0 {
        name
    } else {
        name + "    "@ + join(placeholders(args), "    "@)
    }
}

pub open spec fn strings_view(v: Seq<String>) -> Seq<Seq<char>> {
    v.map_values(|s: String| s@)
}

/// The completion of a namespace keyword: labelled `Library.Name` when a
/// library provides it; documented when it has documentation.
pub open spec fn namespace_item(k: KeywordModel) -> CompletionView {
    CompletionView {
        label: match k.library_name {
            Some(lib) => lib@ + "."@ + k.name@,
            None => k.name@,
        },
        kind: Some(CompletionItemKind::Function),
        detail: Some(
            match k.library_name {
                Some(lib) => lib@,
                None => Seq::empty(),
            },
        ),
        documentation: if k.doc@.len() == 0 {
            None
        } else {
            Some(k.doc@)
        },
        insert_text: Some(snippet(k.name@, strings_view(k.args@))),
        insert_text_format: Some(InsertTextFormat::Snippet),
        deprecated: Some(k.deprecated),
    }
}

/// The argument names of the first `[Arguments]` item of a body.
pub open spec fn body_arguments(items: Seq<BodyItemModel>) -> Seq<Seq<char>>
    decreases items.len(),
{
    if items.len() == 0 {
        Seq::empty()
    } else {
        match items[0] {
            BodyItemModel::Arguments { args, .. } => strings_view(args@),
            _ => body_arguments(items.drop_first()),
        }
    }
}

/// The completion of a keyword of the file.
pub open spec fn local_item(b: BlockModel) -> CompletionView {
    CompletionView {
        label: b.name@,
        kind: Some(CompletionItemKind::Function),
        detail: Some("local keyword"@),
        documentation: None,
        insert_text: Some(snippet(b.name@, body_arguments(b.body@))),
        insert_text_format: Some(InsertTextFormat::Snippet),
        deprecated: None,
    }
}

/// The keywords of the keyword sections of `ss`, in order.
pub open spec fn local_keywords(ss: Seq<SectionModel>) -> Seq<BlockModel>
    decreases ss.len(),
{
    if ss.len() == 0 {
        Seq::empty()
    } else {
        local_keywords(ss.drop_last()) + match ss.last() {
            SectionModel::Keywords { body, .. } => body@,
            _ => Seq::empty(),
        }
    }
}

/// Some item of `items` has the label `label`.
pub open spec fn has_label(items: Seq<CompletionView>, label: Seq<char>) -> bool {
    exists|j: int| 0 <= j < items.len() && (#[trigger] items[j]).label == label
}

/// `items` followed by the file's keywords `bs` whose name no earlier item
/// has as its label.
pub open spec fn add_locals(items: Seq<CompletionView>, bs: Seq<BlockModel>) -> Seq<CompletionView>
    decreases bs.len(),
{
    if bs.len() == 0 {
        items
    } else {
        let before = add_locals(items, bs.drop_last());
        if has_label(before, bs.last().name@) {
            before
        } else {
            before.push(local_item(bs.last()))
        }
    }
}

/// The keyword completions of `ss` with the namespace's keywords `ns`.
pub open spec fn kw_completions_spec(ss: Seq<SectionModel>, ns: Seq<KeywordModel>) -> Seq<CompletionView> {
    add_locals(
        bdd_prefixes().map_values(|p: Seq<char>| prefix_item(p)) + ns.map_values(|k: KeywordModel| namespace_item(k)),
        local_keywords(ss),
    )
}

// ── Computation ──────────────────────────────────────────────────────────────

fn placeholder_chars(i: usize, name: &String) -> (r: Vec<char>)
    ensures
        r@ == placeholder(i as nat, name@),
{
    let mut r = vec!['$', '{'];
    let d = usize_to_decimal(i);
    extend_chars(&mut r, &d);
    r.push(':');
    let n = chars_of(name.as_str());
    extend_chars(&mut r, &n);
    r.push('}');
    proof {
        reveal_strlit("${");
        reveal_strlit(":");
        reveal_strlit("}");
    }
    assert(r@ =~= placeholder(i as nat, name@));
    r
}

fn snippet_of(name: &String, args: &Vec<String>) -> (r: String)
    ensures
        r@ == snippet(name@, strings_view(args@)),
{
    let mut r = chars_of(name.as_str());
    if args.len() == 0 {
        return string_of(&r);
    }
    let mut parts: Vec<Vec<char>> = Vec::new();
    let mut i: usize = 0;
    while i < args.len()
        invariant
            i <= args.len(),
            parts@.len() == i,
            forall|j: int| 0 <= j < i ==> (#[trigger] parts@[j])@ == placeholder((j + 1) as nat, args@[j]@),
        decreases args.len() - i,
    {
        parts.push(placeholder_chars(i + 1, &args[i]));
        i += 1;
    }
    let sep = vec![' ', ' ', ' ', ' '];
    proof {
        reveal_strlit("    ");
    }
    assert(sep@ == "    "@);
    assert(parts@.map_values(|p: Vec<char>| p@) =~= placeholders(strings_view(args@)));
    let joined = join_chars(&parts, &sep);
    extend_chars(&mut r, &sep);
    extend_chars(&mut r, &joined);
    string_of(&r)
}

pub(crate) fn first_arguments(items: &Vec<BodyItemModel>) -> (r: Option<&Vec<String>>)
    ensures
        match r {
            Some(a) => strings_view(a@) == body_arguments(items@),
            None => body_arguments(items@).len() == 0,
        },
{
    let mut i: usize = 0;
    assert(items@.skip(0) == items@);
    while i < items.len()
        invariant
            i <= items.len(),
            body_arguments(items@) == body_arguments(items@.skip(i as int)),
        decreases items.len() - i,
    {
        assert(items@.skip(i as int)[0] == items@[i as int]);
        assert(items@.skip(i as int).drop_first() == items@.skip(i + 1));
        if let BodyItemModel::Arguments { args, .. } = &items[i] {
            return Some(args);
        }
        i += 1;
    }
    assert(items@.skip(i as int).len() == 0);
    None
}

fn prefix_completion(p: &str) -> (c: CompletionItem)
    ensures
        completion_view(c) == prefix_item(p@),
{
    CompletionItem {
        label: p.to_owned(),
        kind: Some(CompletionItemKind::Keyword),
        detail: None,
        documentation: None,
        insert_text: Some(p.to_owned()),
        insert_text_format: None,
        deprecated: None,
    }
}

fn namespace_completion(k: &KeywordModel) -> (c: CompletionItem)
    ensures
        completion_view(c) == namespace_item(*k),
{
    let label = match &k.library_name {
        Some(lib) => {
            let mut l = chars_of(lib.as_str());
            l.push('.');
            let n = chars_of(k.name.as_str());
            extend_chars(&mut l, &n);
            proof {
                reveal_strlit(".");
            }
            assert(l@ =~= lib@ + "."@ + k.name@);
            string_of(&l)
        },
        None => k.name.clone(),
    };
    let detail = match &k.library_name {
        Some(lib) => lib.clone(),
        None => String::new(),
    };
    let doc = if k.doc.as_str().unicode_len() == 0 {
        None
    } else {
        Some(k.doc.clone())
    };
    CompletionItem {
        label,
        kind: Some(CompletionItemKind::Function),
        detail: Some(detail),
        documentation: doc,
        insert_text: Some(snippet_of(&k.name, &k.args)),
        insert_text_format: Some(InsertTextFormat::Snippet),
        deprecated: Some(k.deprecated),
    }
}

fn local_completion(b: &BlockModel) -> (c: CompletionItem)
    ensures
        completion_view(c) == local_item(*b),
{
    let insert = match first_arguments(&b.body) {
        Some(args) => snippet_of(&b.name, args),
        None => b.name.clone(),
    };
    CompletionItem {
        label: b.name.clone(),
        kind: Some(CompletionItemKind::Function),
        detail: Some("local keyword".to_owned()),
        documentation: None,
        insert_text: Some(insert),
        insert_text_format: Some(InsertTextFormat::Snippet),
        deprecated: None,
    }
}

pub open spec fn views(items: Seq<CompletionItem>) -> Seq<CompletionView> {
    items.map_values(|c: CompletionItem| completion_view(c))
}

fn label_taken(items: &Vec<CompletionItem>, label: &String) -> (r: bool)
    ensures
        r == has_label(views(items@), label@),
{
    let mut j: usize = 0;
    while j < items.len()
        invariant
            j <= items.len(),
            forall|m: int| 0 <= m < j ==> (#[trigger] views(items@)[m]).label != label@,
        decreases items.len() - j,
    {
        if str_eq(items[j].label.as_str(), label.as_str()) {
            assert(views(items@)[j as int].label == label@);
            return true;
        }
        j += 1;
    }
    false
}

/// The keyword completions for `file`, given the keywords of its namespace
/// `ns_keywords`: the BDD prefixes, then the namespace's keywords, then the
/// file's keywords whose name no earlier item has as its label.
pub fn keyword_completions(file: &FileModel, ns_keywords: &Vec<KeywordModel>) -> (r: Vec<CompletionItem>)
    ensures
        views(r@) == kw_completions_spec(file.sections@, ns_keywords@),
{
    let mut items: Vec<CompletionItem> = Vec::new();
    items.push(prefix_completion("Given "));
    items.push(prefix_completion("When "));
    items.push(prefix_completion("Then "));
    items.push(prefix_completion("And "));
    items.push(prefix_completion("But "));
    let ghost bdd = bdd_prefixes().map_values(|p: Seq<char>| prefix_item(p));
    assert(views(items@) =~= bdd);
    let mut i: usize = 0;
    while i < ns_keywords.len()
        invariant
            i <= ns_keywords.len(),
            views(items@) == bdd + ns_keywords@.take(i as int).map_values(|k: KeywordModel| namespace_item(k)),
        decreases ns_keywords.len() - i,
    {
        let ghost prev = items@;
        items.push(namespace_completion(&ns_keywords[i]));
        assert(views(items@) =~= views(prev).push(namespace_item(ns_keywords@[i as int])));
        assert(ns_keywords@.take(i + 1).map_values(|k: KeywordModel| namespace_item(k)) =~= ns_keywords@.take(
            i as int,
        ).map_values(|k: KeywordModel| namespace_item(k)).push(namespace_item(ns_keywords@[i as int])));
        i += 1;
        assert(views(items@) =~= bdd + ns_keywords@.take(i as int).map_values(
            |k: KeywordModel| namespace_item(k),
        ));
    }
    assert(ns_keywords@.take(ns_keywords.len() as int) == ns_keywords@);
    let ghost base = views(items@);
    let ss = &file.sections;
    let mut k: usize = 0;
    while k < ss.len()
        invariant
            k <= ss.len(),
            views(items@) == add_locals(base, local_keywords(ss@.take(k as int))),
        decreases ss.len() - k,
    {
        assert(ss@.take(k + 1).drop_last() == ss@.take(k as int));
        assert(ss@.take(k + 1).last() == ss@[k as int]);
        if let SectionModel::Keywords { body, .. } = &ss[k] {
            let ghost pre = local_keywords(ss@.take(k as int));
            let mut j: usize = 0;
            while j < body.len()
                invariant
                    j <= body.len(),
                    views(items@) == add_locals(base, pre + body@.take(j as int)),
                decreases body.len() - j,
            {
                assert((pre + body@.take(j + 1)).drop_last() == pre + body@.take(j as int));
                assert((pre + body@.take(j + 1)).last() == body@[j as int]);
                let b = &body[j];
                let ghost prev = items@;
                if !label_taken(&items, &b.name) {
                    items.push(local_completion(b));
                    assert(views(items@) =~= views(prev).push(local_item(*b)));
                }
                j += 1;
            }
            assert(body@.take(body.len() as int) == body@);
        }
        k += 1;
    }
    assert(ss@.take(ss.len() as int) == ss@);
    items
}

// ── Variable completions ─────────────────────────────────────────────────────

/// A variable of the namespace: its name and the name of its scope.
#[derive(Debug, Clone)]
pub struct NamespaceVariableModel {
    pub name: String,
    pub scope: String,
}

/// The variables Robot Framework always defines.
pub open spec fn builtin_variables() -> Seq<Seq<char>> {
    seq![
        "${EMPTY}"@,
        "${SPACE}"@,
        "${TRUE}"@,
        "${FALSE}"@,
        "${NONE}"@,
        "${TEST NAME}"@,
        "${TEST STATUS}"@,
        "${SUITE NAME}"@,
        "${SUITE STATUS}"@,
        "${OUTPUT DIR}"@,
        "${LOG FILE}"@,
        "${REPORT FILE}"@,
        "${PREV TEST NAME}"@,
        "${PREV TEST STATUS}"@,
        "${PREV TEST MESSAGE}"@,
    ]
}

/// A plain completion labelled `label` of kind `kind` with the detail
/// `detail`.
pub open spec fn variable_item(label: Seq<char>, kind: CompletionItemKind, detail: Seq<char>) -> CompletionView {
    CompletionView {
        label,
        kind: Some(kind),
        detail: Some(detail),
        documentation: None,
        insert_text: None,
        insert_text_format: None,
        deprecated: None,
    }
}

/// The completion of a built-in variable.
pub open spec fn builtin_item(name: Seq<char>) -> CompletionView {
    variable_item(name, CompletionItemKind::Constant, "built-in variable"@)
}

/// `items` followed by those of the namespace's variables `vs` whose name
/// no earlier item has as its label, each detailed by its scope.
pub open spec fn add_ns_variables(items: Seq<CompletionView>, vs: Seq<NamespaceVariableModel>) -> Seq<CompletionView>
    decreases vs.len(),
{
    if vs.len() == 0 {
        items
    } else {
        let before = add_ns_variables(items, vs.drop_last());
        if has_label(before, vs.last().name@) {
            before
        } else {
            before.push(variable_item(vs.last().name@, CompletionItemKind::Variable, vs.last().scope@ + " variable"@))
        }
    }
}

/// The names of the variables defined in `items`, in order.
pub open spec fn variable_names(items: Seq<VariableItemModel>) -> Seq<Seq<char>>
    decreases items.len(),
{
    if items.len() == 0 {
        Seq::empty()
    } else {
        variable_names(items.drop_last()) + match items.last() {
            VariableItemModel::Variable { name, .. } => seq![name@],
            _ => Seq::empty(),
        }
    }
}

/// The names of the variables defined in the variables sections of `ss`,
/// in order.
pub open spec fn local_variables(ss: Seq<SectionModel>) -> Seq<Seq<char>>
    decreases ss.len(),
{
    if ss.len() == 0 {
        Seq::empty()
    } else {
        local_variables(ss.drop_last()) + match ss.last() {
            SectionModel::Variables { body, .. } => variable_names(body@),
            _ => Seq::empty(),
        }
    }
}

/// `items` followed by the file's variables `names` that no earlier item
/// has as its label.
pub open spec fn add_local_variables(items: Seq<CompletionView>, names: Seq<Seq<char>>) -> Seq<CompletionView>
    decreases names.len(),
{
    if names.len() == 0 {
        items
    } else {
        let before = add_local_variables(items, names.drop_last());
        if has_label(before, names.last()) {
            before
        } else {
            before.push(variable_item(names.last(), CompletionItemKind::Variable, "suite variable"@))
        }
    }
}

/// The variable completions of `ss` with the namespace's variables `vs`:
/// the built-in variables, then the namespace's, then the file's, each
/// label offered once.
pub open spec fn var_completions_spec(ss: Seq<SectionModel>, vs: Seq<NamespaceVariableModel>) -> Seq<CompletionView> {
    add_local_variables(
        add_ns_variables(builtin_variables().map_values(|n: Seq<char>| builtin_item(n)), vs),
        local_variables(ss),
    )
}

// ── The completion context ───────────────────────────────────────────────────

/// What the position asks to complete.
#[derive(Clone, Copy, Debug, PartialEq, Eq, Structural)]
pub enum CompletionContext {
    Keyword,
    Variable,
    Setting,
    Unknown,
}

/// Some item of `items` starts on `line`.
pub open spec fn setting_on_line(items: Seq<SettingItemModel>, line: u32) -> bool
    decreases items.len(),
{
    items.len() > 0 && (setting_on_line(items.drop_last(), line) || setting_position(items.last()).line == line)
}

/// `line` is the header line or an item line of a settings section of `ss`.
pub open spec fn on_settings_line(ss: Seq<SectionModel>, line: u32) -> bool
    decreases ss.len(),
{
    ss.len() > 0 && (on_settings_line(ss.drop_last(), line) || match ss.last() {
        SectionModel::Settings { header, body } => header.position.line == line || setting_on_line(body@, line),
        _ => false,
    })
}

/// The context of `pos`: a setting on a line of a settings section, a
/// keyword on any other line from the fifth column on, else unknown.
pub open spec fn context_spec(ss: Seq<SectionModel>, pos: Position) -> CompletionContext {
    if on_settings_line(ss, pos.line) {
        CompletionContext::Setting
    } else if pos.character >= 4 {
        CompletionContext::Keyword
    } else {
        CompletionContext::Unknown
    }
}

/// The completion of a setting and its snippet.
pub open spec fn setting_view(p: (Seq<char>, Seq<char>)) -> CompletionView {
    CompletionView {
        label: p.0,
        kind: Some(CompletionItemKind::Keyword),
        detail: None,
        documentation: None,
        insert_text: Some(p.1),
        insert_text_format: Some(InsertTextFormat::Snippet),
        deprecated: None,
    }
}

/// The completions at `pos` in `ss`, given the namespace's keywords `ns`
/// and variables `vs`: as the context asks, and where it is unknown the
/// keyword completions followed by the variable completions.
pub open spec fn completions_spec(
    ss: Seq<SectionModel>,
    ns: Seq<KeywordModel>,
    vs: Seq<NamespaceVariableModel>,
    pos: Position,
) -> Seq<CompletionView> {
    match context_spec(ss, pos) {
        CompletionContext::Keyword => kw_completions_spec(ss, ns),
        CompletionContext::Variable => var_completions_spec(ss, vs),
        CompletionContext::Setting => setting_table().map_values(|p: (Seq<char>, Seq<char>)| setting_view(p)),
        CompletionContext::Unknown => kw_completions_spec(ss, ns) + var_completions_spec(ss, vs),
    }
}

fn plain_item(label: String, kind: CompletionItemKind, detail: String) -> (c: CompletionItem)
    ensures
        completion_view(c) == variable_item(label@, kind, detail@),
{
    CompletionItem {
        label,
        kind: Some(kind),
        detail: Some(detail),
        documentation: None,
        insert_text: None,
        insert_text_format: None,
        deprecated: None,
    }
}

fn push_if_new(items: &mut Vec<CompletionItem>, c: CompletionItem)
    ensures
        final(items)@ == if has_label(views(old(items)@), c.label@) {
            old(items)@
        } else {
            old(items)@.push(c)
        },
{
    if !label_taken(items, &c.label) {
        items.push(c);
    }
}

proof fn lemma_views_push(s: Seq<CompletionItem>, c: CompletionItem)
    ensures
        views(s.push(c)) == views(s).push(completion_view(c)),
{
    assert(views(s.push(c)) =~= views(s).push(completion_view(c)));
}

/// The variable completions for `file`, given the variables of its
/// namespace `ns_variables`: the built-in variables, then the namespace's,
/// then the file's, each label offered once.
pub fn variable_completions(file: &FileModel, ns_variables: &Vec<NamespaceVariableModel>) -> (r: Vec<CompletionItem>)
    ensures
        views(r@) == var_completions_spec(file.sections@, ns_variables@),
{
    let names = [
        "${EMPTY}",
        "${SPACE}",
        "${TRUE}",
        "${FALSE}",
        "${NONE}",
        "${TEST NAME}",
        "${TEST STATUS}",
        "${SUITE NAME}",
        "${SUITE STATUS}",
        "${OUTPUT DIR}",
        "${LOG FILE}",
        "${REPORT FILE}",
        "${PREV TEST NAME}",
        "${PREV TEST STATUS}",
        "${PREV TEST MESSAGE}",
    ];
    let ghost bv = builtin_variables();
    assert(names@.len() == 15);
    assert(forall|j: int| 0 <= j < 15 ==> (#[trigger] names@[j])@ == bv[j]);
    let mut items: Vec<CompletionItem> = Vec::new();
    let mut i: usize = 0;
    while i < 15
        invariant
            i <= 15,
            names@.len() == 15,
            bv == builtin_variables(),
            forall|j: int| 0 <= j < 15 ==> (#[trigger] names@[j])@ == bv[j],
            views(items@) == bv.take(i as int).map_values(|n: Seq<char>| builtin_item(n)),
        decreases 15 - i,
    {
        let c = plain_item(names[i].to_owned(), CompletionItemKind::Constant, "built-in variable".to_owned());
        proof {
            lemma_views_push(items@, c);
            assert(bv.take(i + 1).map_values(|n: Seq<char>| builtin_item(n)) =~= bv.take(i as int).map_values(
                |n: Seq<char>| builtin_item(n),
            ).push(builtin_item(bv[i as int])));
        }
        items.push(c);
        i += 1;
    }
    assert(bv.take(15) == bv);
    let ghost base = views(items@);
    let mut k: usize = 0;
    while k < ns_variables.len()
        invariant
            k <= ns_variables.len(),
            views(items@) == add_ns_variables(base, ns_variables@.take(k as int)),
        decreases ns_variables.len() - k,
    {
        assert(ns_variables@.take(k + 1).drop_last() == ns_variables@.take(k as int));
        assert(ns_variables@.take(k + 1).last() == ns_variables@[k as int]);
        let v = &ns_variables[k];
        let mut detail = chars_of(v.scope.as_str());
        let suffix = chars_of(" variable");
        extend_chars(&mut detail, suffix.as_slice());
        let c = plain_item(v.name.clone(), CompletionItemKind::Variable, string_of(&detail));
        proof {
            lemma_views_push(items@, c);
        }
        push_if_new(&mut items, c);
        k += 1;
    }
    assert(ns_variables@.take(ns_variables.len() as int) == ns_variables@);
    let ghost mid = views(items@);
    let ss = &file.sections;
    let mut s: usize = 0;
    while s < ss.len()
        invariant
            s <= ss.len(),
            views(items@) == add_local_variables(mid, local_variables(ss@.take(s as int))),
        decreases ss.len() - s,
    {
        assert(ss@.take(s + 1).drop_last() == ss@.take(s as int));
        assert(ss@.take(s + 1).last() == ss@[s as int]);
        if let SectionModel::Variables { body, .. } = &ss[s] {
            let ghost pre = local_variables(ss@.take(s as int));
            let mut j: usize = 0;
            while j < body.len()
                invariant
                    j <= body.len(),
                    s < ss.len(),
                    ss@[s as int] matches SectionModel::Variables { body: b, .. } && b == body,
                    views(items@) == add_local_variables(mid, pre + variable_names(body@.take(j as int))),
                decreases body.len() - j,
            {
                assert(body@.take(j + 1).drop_last() == body@.take(j as int));
                assert(body@.take(j + 1).last() == body@[j as int]);
                let ghost names_before = pre + variable_names(body@.take(j as int));
                if let VariableItemModel::Variable { name, .. } = &body[j] {
                    assert(pre + variable_names(body@.take(j + 1)) =~= names_before.push(name@));
                    assert(names_before.push(name@).drop_last() =~= names_before);
                    let c = plain_item(name.clone(), CompletionItemKind::Variable, "suite variable".to_owned());
                    proof {
                        lemma_views_push(items@, c);
                    }
                    push_if_new(&mut items, c);
                } else {
                    assert(pre + variable_names(body@.take(j + 1)) =~= names_before);
                }
                j += 1;
            }
            assert(body@.take(body.len() as int) == body@);
            assert(local_variables(ss@.take(s + 1)) == pre + variable_names(body@));
        } else {
            assert(local_variables(ss@.take(s + 1)) =~= local_variables(ss@.take(s as int)));
        }
        s += 1;
    }
    assert(ss@.take(ss.len() as int) == ss@);
    items
}

fn settings_line_in(items: &Vec<SettingItemModel>, line: u32) -> (r: bool)
    ensures
        r == setting_on_line(items@, line),
{
    let mut found = false;
    let mut i: usize = 0;
    while i < items.len()
        invariant
            i <= items.len(),
            found == setting_on_line(items@.take(i as int), line),
        decreases items.len() - i,
    {
        assert(items@.take(i + 1).drop_last() == items@.take(i as int));
        assert(items@.take(i + 1).last() == items@[i as int]);
        let l = match &items[i] {
            SettingItemModel::LibraryImport { position, .. } => position.line,
            SettingItemModel::ResourceImport { position, .. } => position.line,
            SettingItemModel::VariablesImport { position, .. } => position.line,
            SettingItemModel::Documentation { position, .. } => position.line,
            SettingItemModel::Fixture { position, .. } => position.line,
            SettingItemModel::Metadata { position } => position.line,
            SettingItemModel::Tags { position, .. } => position.line,
            SettingItemModel::Comment { position, .. } => position.line,
            SettingItemModel::Other { position } => position.line,
        };
        found = found || l == line;
        i += 1;
    }
    assert(items@.take(items.len() as int) == items@);
    found
}

/// What `pos` in `file` asks to complete: a setting on a line of a settings
/// section, a keyword on any other line from the fifth column on, else
/// unknown.
pub fn determine_context(file: &FileModel, pos: Position) -> (r: CompletionContext)
    ensures
        r == context_spec(file.sections@, pos),
{
    let ss = &file.sections;
    let mut found = false;
    let mut i: usize = 0;
    while i < ss.len()
        invariant
            i <= ss.len(),
            found == on_settings_line(ss@.take(i as int), pos.line),
        decreases ss.len() - i,
    {
        assert(ss@.take(i + 1).drop_last() == ss@.take(i as int));
        assert(ss@.take(i + 1).last() == ss@[i as int]);
        let here = match &ss[i] {
            SectionModel::Settings { header, body } => header.position.line == pos.line || settings_line_in(body, pos.line),
            _ => false,
        };
        found = found || here;
        i += 1;
    }
    assert(ss@.take(ss.len() as int) == ss@);
    if found {
        CompletionContext::Setting
    } else if pos.character >= 4 {
        CompletionContext::Keyword
    } else {
        CompletionContext::Unknown
    }
}

/// The completions at `pos` in `file`, given the keywords (`ns_keywords`)
/// and variables (`ns_variables`) of its namespace: settings on a settings
/// line, keywords where a keyword is called, and elsewhere the keyword
/// completions followed by the variable completions.
pub fn completions(
    file: &FileModel,
    ns_keywords: &Vec<KeywordModel>,
    ns_variables: &Vec<NamespaceVariableModel>,
    pos: Position,
) -> (r: Vec<CompletionItem>)
    ensures
        views(r@) == completions_spec(file.sections@, ns_keywords@, ns_variables@, pos),
{
    match determine_context(file, pos) {
        CompletionContext::Keyword => keyword_completions(file, ns_keywords),
        CompletionContext::Variable => variable_completions(file, ns_variables),
        CompletionContext::Setting => {
            let items = setting_completions();
            assert(views(items@) =~= setting_table().map_values(|p: (Seq<char>, Seq<char>)| setting_view(p)));
            items
        },
        CompletionContext::Unknown => {
            let mut items = keyword_completions(file, ns_keywords);
            let mut vars = variable_completions(file, ns_variables);
            let ghost a = items@;
            let ghost b = vars@;
            items.append(&mut vars);
            assert(views(items@) =~= views(a) + views(b));
            items
        },
    }
}

// ── Every variable of the file is offered ────────────────────────────────────

proof fn lemma_label_push(items: Seq<CompletionView>, c: CompletionView, label: Seq<char>)
    requires
        has_label(items, label) || c.label == label,
    ensures
        has_label(items.push(c), label),
{
    if has_label(items, label) {
        let j = choose|j: int| 0 <= j < items.len() && (#[trigger] items[j]).label == label;
        assert(items.push(c)[j] == items[j]);
    } else {
        assert(items.push(c)[items.len() as int] == c);
    }
}

proof fn lemma_add_locals_offers(items: Seq<CompletionView>, names: Seq<Seq<char>>, label: Seq<char>)
    requires
        has_label(items, label) || names.contains(label),
    ensures
        has_label(add_local_variables(items, names), label),
    decreases names.len(),
{
    if names.len() > 0 {
        let before = add_local_variables(items, names.drop_last());
        if has_label(items, label) || names.drop_last().contains(label) {
            if names.drop_last().contains(label) && !has_label(items, label) {
                let j = choose|j: int| 0 <= j < names.drop_last().len() && names.drop_last()[j] == label;
                assert(names.drop_last()[j] == label);
            }
            lemma_add_locals_offers(items, names.drop_last(), label);
        } else {
            let j = choose|j: int| 0 <= j < names.len() && names[j] == label;
            if j < names.len() - 1 {
                assert(names.drop_last()[j] == label);
            }
            assert(names.last() == label);
        }
        if !has_label(before, names.last()) {
            lemma_label_push(before, variable_item(names.last(), CompletionItemKind::Variable, "suite variable"@), label);
        }
    }
}

proof fn lemma_variable_names_has(items: Seq<VariableItemModel>, i: int, name: String, value: Vec<String>, position: crate::ast::AstPosition)
    requires
        0 <= i < items.len(),
        items[i] == (VariableItemModel::Variable { name, value, position }),
    ensures
        variable_names(items).contains(name@),
    decreases items.len(),
{
    let tail = match items.last() {
        VariableItemModel::Variable { name, .. } => seq![name@],
        _ => Seq::empty(),
    };
    if i < items.len() - 1 {
        assert(items.drop_last()[i] == items[i]);
        lemma_variable_names_has(items.drop_last(), i, name, value, position);
    } else {
        assert(tail[0] == name@);
    }
    lemma_contains_add(variable_names(items.drop_last()), tail, name@);
}

proof fn lemma_local_variables_has(ss: Seq<SectionModel>, k: int, i: int, name: String, value: Vec<String>, position: crate::ast::AstPosition)
    requires
        0 <= k < ss.len(),
        ss[k] matches SectionModel::Variables { body, .. } && 0 <= i < body@.len() && body@[i] == (VariableItemModel::Variable { name, value, position }),
    ensures
        local_variables(ss).contains(name@),
    decreases ss.len(),
{
    let tail = match ss.last() {
        SectionModel::Variables { body, .. } => variable_names(body@),
        _ => Seq::empty(),
    };
    if k < ss.len() - 1 {
        assert(ss.drop_last()[k] == ss[k]);
        lemma_local_variables_has(ss.drop_last(), k, i, name, value, position);
    } else {
        if let SectionModel::Variables { body, .. } = ss[k] {
            lemma_variable_names_has(body@, i, name, value, position);
        }
    }
    lemma_contains_add(local_variables(ss.drop_last()), tail, name@);
}

/// Every variable defined in a variables section of the file is offered
/// by the variable completions, whatever the namespace holds, and by the
/// completions wherever the context is unknown.
pub proof fn lemma_file_variables_offered(
    ss: Seq<SectionModel>,
    ns: Seq<KeywordModel>,
    vs: Seq<NamespaceVariableModel>,
    pos: Position,
    k: int,
    i: int,
    name: String,
    value: Vec<String>,
    position: crate::ast::AstPosition,
)
    requires
        0 <= k < ss.len(),
        ss[k] matches SectionModel::Variables { body, .. } && 0 <= i < body@.len() && body@[i] == (VariableItemModel::Variable { name, value, position }),
    ensures
        has_label(var_completions_spec(ss, vs), name@),
        context_spec(ss, pos) == CompletionContext::Unknown ==> has_label(completions_spec(ss, ns, vs, pos), name@),
{
    lemma_local_variables_has(ss, k, i, name, value, position);
    let base = add_ns_variables(builtin_variables().map_values(|n: Seq<char>| builtin_item(n)), vs);
    lemma_add_locals_offers(base, local_variables(ss), name@);
    let a = kw_completions_spec(ss, ns);
    let b = var_completions_spec(ss, vs);
    let j = choose|j: int| 0 <= j < b.len() && (#[trigger] b[j]).label == name@;
    assert((a + b)[a.len() + j] == b[j]);
    assert(has_label(a + b, name@));
}

proof fn lemma_add_ns_offers(items: Seq<CompletionView>, vs: Seq<NamespaceVariableModel>, label: Seq<char>)
    requires
        has_label(items, label) || exists|i: int| 0 <= i < vs.len() && (#[trigger] vs[i]).name@ == label,
    ensures
        has_label(add_ns_variables(items, vs), label),
    decreases vs.len(),
{
    if vs.len() > 0 {
        let before = add_ns_variables(items, vs.drop_last());
        if has_label(items, label) || exists|i: int| 0 <= i < vs.drop_last().len() && (#[trigger] vs.drop_last()[i]).name@ == label {
            lemma_add_ns_offers(items, vs.drop_last(), label);
        } else {
            let i = choose|i: int| 0 <= i < vs.len() && (#[trigger] vs[i]).name@ == label;
            if i < vs.len() - 1 {
                assert(vs.drop_last()[i] == vs[i]);
            }
        }
        if !has_label(before, vs.last().name@) {
            lemma_label_push(
                before,
                variable_item(vs.last().name@, CompletionItemKind::Variable, vs.last().scope@ + " variable"@),
                label,
            );
        }
    }
}

proof fn lemma_add_locals_kw_offers(items: Seq<CompletionView>, bs: Seq<BlockModel>, label: Seq<char>)
    requires
        has_label(items, label) || exists|i: int| 0 <= i < bs.len() && (#[trigger] bs[i]).name@ == label,
    ensures
        has_label(add_locals(items, bs), label),
    decreases bs.len(),
{
    if bs.len() > 0 {
        let before = add_locals(items, bs.drop_last());
        if has_label(items, label) || exists|i: int| 0 <= i < bs.drop_last().len() && (#[trigger] bs.drop_last()[i]).name@ == label {
            lemma_add_locals_kw_offers(items, bs.drop_last(), label);
        } else {
            let i = choose|i: int| 0 <= i < bs.len() && (#[trigger] bs[i]).name@ == label;
            if i < bs.len() - 1 {
                assert(bs.drop_last()[i] == bs[i]);
            }
        }
        if !has_label(before, bs.last().name@) {
            lemma_label_push(before, local_item(bs.last()), label);
        }
    }
}

/// The variable completions offer every built-in variable and every
/// variable of the namespace, by label.
pub proof fn lemma_variables_offered(ss: Seq<SectionModel>, vs: Seq<NamespaceVariableModel>, i: int)
    ensures
        0 <= i < builtin_variables().len() ==> has_label(var_completions_spec(ss, vs), builtin_variables()[i]),
        0 <= i < vs.len() ==> has_label(var_completions_spec(ss, vs), vs[i].name@),
{
    let b = builtin_variables().map_values(|n: Seq<char>| builtin_item(n));
    if 0 <= i < builtin_variables().len() {
        assert(b[i].label == builtin_variables()[i]);
        lemma_add_ns_offers(b, vs, builtin_variables()[i]);
        lemma_add_locals_offers(add_ns_variables(b, vs), local_variables(ss), builtin_variables()[i]);
    }
    if 0 <= i < vs.len() {
        assert(vs[i].name@ == vs[i].name@);
        lemma_add_ns_offers(b, vs, vs[i].name@);
        lemma_add_locals_offers(add_ns_variables(b, vs), local_variables(ss), vs[i].name@);
    }
}

proof fn lemma_local_keywords_has(ss: Seq<SectionModel>, k: int, j: int)
    requires
        0 <= k < ss.len(),
        ss[k] matches SectionModel::Keywords { body, .. } && 0 <= j < body@.len(),
    ensures
        exists|i: int| 0 <= i < local_keywords(ss).len() && (#[trigger] local_keywords(ss)[i]).name@ == section_blocks(ss[k])[j].name@,
    decreases ss.len(),
{
    let tail = match ss.last() {
        SectionModel::Keywords { body, .. } => body@,
        _ => Seq::empty(),
    };
    let pre = local_keywords(ss.drop_last());
    assert(local_keywords(ss) == pre + tail);
    if k < ss.len() - 1 {
        assert(ss.drop_last()[k] == ss[k]);
        lemma_local_keywords_has(ss.drop_last(), k, j);
        let i = choose|i: int| 0 <= i < pre.len() && (#[trigger] pre[i]).name@ == section_blocks(ss[k])[j].name@;
        assert((pre + tail)[i] == pre[i]);
    } else {
        assert((pre + tail)[pre.len() + j] == tail[j]);
    }
}

/// The keyword completions offer the BDD prefixes, every keyword of the
/// namespace (by its label) and every keyword of the file, by label.
pub proof fn lemma_keywords_offered(ss: Seq<SectionModel>, ns: Seq<KeywordModel>, i: int, k: int, j: int)
    ensures
        0 <= i < bdd_prefixes().len() ==> has_label(kw_completions_spec(ss, ns), bdd_prefixes()[i]),
        0 <= i < ns.len() ==> has_label(kw_completions_spec(ss, ns), namespace_item(ns[i]).label),
        0 <= k < ss.len() && ss[k] is Keywords && 0 <= j < section_blocks(ss[k]).len() ==> has_label(
            kw_completions_spec(ss, ns),
            section_blocks(ss[k])[j].name@,
        ),
{
    let a = bdd_prefixes().map_values(|p: Seq<char>| prefix_item(p));
    let b = ns.map_values(|kk: KeywordModel| namespace_item(kk));
    if 0 <= i < bdd_prefixes().len() {
        assert((a + b)[i] == a[i]);
        assert(has_label(a + b, bdd_prefixes()[i]));
        lemma_add_locals_kw_offers(a + b, local_keywords(ss), bdd_prefixes()[i]);
    }
    if 0 <= i < ns.len() {
        assert((a + b)[a.len() + i] == b[i]);
        assert(has_label(a + b, namespace_item(ns[i]).label));
        lemma_add_locals_kw_offers(a + b, local_keywords(ss), namespace_item(ns[i]).label);
    }
    if 0 <= k < ss.len() && ss[k] is Keywords && 0 <= j < section_blocks(ss[k]).len() {
        lemma_local_keywords_has(ss, k, j);
        lemma_add_locals_kw_offers(a + b, local_keywords(ss), section_blocks(ss[k])[j].name@);
    }
}

} // verus!
