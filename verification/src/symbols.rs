//! Document symbols and workspace symbols of a parsed file.
//!
//! - Test cases and tasks are functions, keywords are methods, variable
//!   definitions are variables, imports are modules or files.
//! - Each section is a namespace holding its items as children.
use vstd::prelude::*;

use crate::ast::{lemma_contains_add, section_blocks, AstPosition, ast_pos_to_range, ast_range, BlockModel, FileModel, SectionModel, SettingItemModel, VariableItemModel};
use crate::handlers::make_symbol;
use crate::lsp::Range;
use crate::lsp_items::{DocumentSymbol, Location, SymbolInformation, SymbolKind};
use crate::text::{chars_of, contains_chars, contains_seq, lowercase_chars, str_lower_of};

verus! {

// ── Document symbols ─────────────────────────────────────────────────────────

/// A symbol without children: name, kind and range.
pub type Leaf = (Seq<char>, SymbolKind, Range);

/// `s` is the childless symbol `l`, selected over its whole range.
pub open spec fn is_leaf(s: DocumentSymbol, l: Leaf) -> bool {
    &&& s.name@ == l.0
    &&& s.kind == l.1
    &&& s.range == l.2
    &&& s.selection_range == l.2
    &&& s.detail is None
    &&& s.deprecated is None
    &&& s.children is None
}

/// `v` holds the childless symbols `ls`, in order.
pub open spec fn leaves_match(v: Seq<DocumentSymbol>, ls: Seq<Leaf>) -> bool {
    v.len() == ls.len() && forall|j: int| 0 <= j < v.len() ==> is_leaf(#[trigger] v[j], ls[j])
}

/// A section's symbol: its name, its header's range, and its children.
pub type SectionEntry = (Seq<char>, Range, Seq<Leaf>);

/// `s` is the namespace symbol of the section `e`; a section without
/// children has none rather than an empty list.
pub open spec fn is_section_symbol(s: DocumentSymbol, e: SectionEntry) -> bool {
    &&& s.name@ == e.0
    &&& s.kind == SymbolKind::Namespace
    &&& s.range == e.1
    &&& s.selection_range == e.1
    &&& s.detail is None
    &&& s.deprecated is None
    &&& if e.2.len() == 0 {
        s.children is None
    } else {
        s.children matches Some(c) && leaves_match(c@, e.2)
    }
}

/// The imports of a settings section as symbols: libraries are modules,
/// resource and variable files are files.
pub open spec fn setting_leaves(items: Seq<SettingItemModel>) -> Seq<Leaf>
    decreases items.len(),
{
    if items.len() == 0 {
        Seq::empty()
    } else {
        setting_leaves(items.drop_last()) + match items.last() {
            SettingItemModel::LibraryImport { name, position } => seq![
                (name@, SymbolKind::Module, ast_range(position)),
            ],
            SettingItemModel::ResourceImport { path, position } => seq![
                (path@, SymbolKind::File, ast_range(position)),
            ],
            SettingItemModel::VariablesImport { path, position } => seq![
                (path@, SymbolKind::File, ast_range(position)),
            ],
            _ => Seq::empty(),
        }
    }
}

/// The variable definitions of a variables section as symbols.
pub open spec fn variable_leaves(items: Seq<VariableItemModel>) -> Seq<Leaf>
    decreases items.len(),
{
    if items.len() == 0 {
        Seq::empty()
    } else {
        variable_leaves(items.drop_last()) + match items.last() {
            VariableItemModel::Variable { name, position, .. } => seq![
                (name@, SymbolKind::Variable, ast_range(position)),
            ],
            _ => Seq::empty(),
        }
    }
}

/// The blocks of a section as symbols of kind `kind`.
pub open spec fn block_leaves(blocks: Seq<BlockModel>, kind: SymbolKind) -> Seq<Leaf> {
    blocks.map_values(|b: BlockModel| (b.name@, kind, ast_range(b.position)))
}

/// The symbol of a section, if it has one: comment and invalid sections
/// have none, nor does a variables section without any item.
pub open spec fn section_entry(s: SectionModel) -> Option<SectionEntry> {
    match s {
        SectionModel::Settings { header, body } => Some(
            (header.name@, ast_range(header.position), setting_leaves(body@)),
        ),
        SectionModel::Variables { header, body } => if body@.len() > 0 {
            Some((header.name@, ast_range(header.position), variable_leaves(body@)))
        } else {
            None
        },
        SectionModel::TestCases { header, body } => Some(
            (header.name@, ast_range(header.position), block_leaves(body@, SymbolKind::Function)),
        ),
        SectionModel::Tasks { header, body } => Some(
            (header.name@, ast_range(header.position), block_leaves(body@, SymbolKind::Function)),
        ),
        SectionModel::Keywords { header, body } => Some(
            (header.name@, ast_range(header.position), block_leaves(body@, SymbolKind::Method)),
        ),
        SectionModel::Comments { .. } => None,
        SectionModel::Invalid => None,
    }
}

/// The section symbols of `ss`, in order.
pub open spec fn doc_symbols_spec(ss: Seq<SectionModel>) -> Seq<SectionEntry>
    decreases ss.len(),
{
    if ss.len() == 0 {
        Seq::empty()
    } else {
        doc_symbols_spec(ss.drop_last()) + match section_entry(ss.last()) {
            Some(e) => seq![e],
            None => Seq::empty(),
        }
    }
}

fn setting_children(items: &Vec<SettingItemModel>) -> (r: Vec<DocumentSymbol>)
    ensures
        leaves_match(r@, setting_leaves(items@)),
{
    let mut r: Vec<DocumentSymbol> = Vec::new();
    let mut i: usize = 0;
    while i < items.len()
        invariant
            i <= items.len(),
            leaves_match(r@, setting_leaves(items@.take(i as int))),
        decreases items.len() - i,
    {
        assert(items@.take(i + 1).drop_last() == items@.take(i as int));
        match &items[i] {
            SettingItemModel::LibraryImport { name, position } => {
                r.push(make_symbol(name.as_str(), SymbolKind::Module, ast_pos_to_range(position)));
            },
            SettingItemModel::ResourceImport { path, position } => {
                r.push(make_symbol(path.as_str(), SymbolKind::File, ast_pos_to_range(position)));
            },
            SettingItemModel::VariablesImport { path, position } => {
                r.push(make_symbol(path.as_str(), SymbolKind::File, ast_pos_to_range(position)));
            },
            _ => {},
        }
        i += 1;
    }
    assert(items@.take(items.len() as int) == items@);
    r
}

fn variable_children(items: &Vec<VariableItemModel>) -> (r: Vec<DocumentSymbol>)
    ensures
        leaves_match(r@, variable_leaves(items@)),
{
    let mut r: Vec<DocumentSymbol> = Vec::new();
    let mut i: usize = 0;
    while i < items.len()
        invariant
            i <= items.len(),
            leaves_match(r@, variable_leaves(items@.take(i as int))),
        decreases items.len() - i,
    {
        assert(items@.take(i + 1).drop_last() == items@.take(i as int));
        match &items[i] {
            VariableItemModel::Variable { name, position, .. } => {
                r.push(make_symbol(name.as_str(), SymbolKind::Variable, ast_pos_to_range(position)));
            },
            _ => {},
        }
        i += 1;
    }
    assert(items@.take(items.len() as int) == items@);
    r
}

fn block_children(blocks: &Vec<BlockModel>, kind: SymbolKind) -> (r: Vec<DocumentSymbol>)
    ensures
        leaves_match(r@, block_leaves(blocks@, kind)),
{
    let mut r: Vec<DocumentSymbol> = Vec::new();
    let mut i: usize = 0;
    while i < blocks.len()
        invariant
            i <= blocks.len(),
            leaves_match(r@, block_leaves(blocks@.take(i as int), kind)),
        decreases blocks.len() - i,
    {
        let b = &blocks[i];
        r.push(make_symbol(b.name.as_str(), kind, ast_pos_to_range(&b.position)));
        i += 1;
        assert(block_leaves(blocks@.take(i as int), kind)[i - 1] == (
            blocks@[i - 1].name@,
            kind,
            ast_range(blocks@[i - 1].position),
        ));
    }
    assert(blocks@.take(blocks.len() as int) == blocks@);
    r
}

/// The namespace symbol of a section with header name `name`, range
/// `range` and children `children`.
fn section_symbol(name: &String, range: Range, children: Vec<DocumentSymbol>) -> (s: DocumentSymbol)
    ensures
        s.name@ == name@,
        s.kind == SymbolKind::Namespace,
        s.range == range,
        s.selection_range == range,
        s.detail is None,
        s.deprecated is None,
        children@.len() == 0 ==> s.children is None,
        children@.len() > 0 ==> s.children == Some(children),
{
    DocumentSymbol {
        name: name.clone(),
        kind: SymbolKind::Namespace,
        range,
        selection_range: range,
        detail: None,
        deprecated: None,
        children: if children.len() == 0 {
            None
        } else {
            Some(children)
        },
    }
}

/// The document symbols of `file`: one namespace per section, holding the
/// section's items.
pub fn document_symbols(file: &FileModel) -> (r: Vec<DocumentSymbol>)
    ensures
        r@.len() == doc_symbols_spec(file.sections@).len(),
        forall|i: int|
            0 <= i < r@.len() ==> is_section_symbol(#[trigger] r@[i], doc_symbols_spec(file.sections@)[i]),
{
    let ss = &file.sections;
    let mut r: Vec<DocumentSymbol> = Vec::new();
    let mut k: usize = 0;
    while k < ss.len()
        invariant
            k <= ss.len(),
            r@.len() == doc_symbols_spec(ss@.take(k as int)).len(),
            forall|i: int|
                0 <= i < r@.len() ==> is_section_symbol(#[trigger] r@[i], doc_symbols_spec(ss@.take(k as int))[i]),
        decreases ss.len() - k,
    {
        assert(ss@.take(k + 1).drop_last() == ss@.take(k as int));
        assert(ss@.take(k + 1).last() == ss@[k as int]);
        let ghost before = r@;
        match &ss[k] {
            SectionModel::Settings { header, body } => {
                let c = setting_children(body);
                r.push(section_symbol(&header.name, ast_pos_to_range(&header.position), c));
            },
            SectionModel::Variables { header, body } => {
                if body.len() > 0 {
                    let c = variable_children(body);
                    r.push(section_symbol(&header.name, ast_pos_to_range(&header.position), c));
                }
            },
            SectionModel::TestCases { header, body } => {
                let c = block_children(body, SymbolKind::Function);
                r.push(section_symbol(&header.name, ast_pos_to_range(&header.position), c));
            },
            SectionModel::Tasks { header, body } => {
                let c = block_children(body, SymbolKind::Function);
                r.push(section_symbol(&header.name, ast_pos_to_range(&header.position), c));
            },
            SectionModel::Keywords { header, body } => {
                let c = block_children(body, SymbolKind::Method);
                r.push(section_symbol(&header.name, ast_pos_to_range(&header.position), c));
            },
            SectionModel::Comments { .. } => {},
            SectionModel::Invalid => {},
        }
        k += 1;
        assert forall|i: int| 0 <= i < r@.len() implies is_section_symbol(
            #[trigger] r@[i],
            doc_symbols_spec(ss@.take(k as int))[i],
        ) by {
            if i < before.len() {
                assert(r@[i] == before[i]);
            }
        }
    }
    assert(ss@.take(ss.len() as int) == ss@);
    r
}

// ── Workspace symbols ────────────────────────────────────────────────────────

/// `name` is found by the lower-cased query `q`: an empty query finds every
/// name, another one the names whose lower-cased form contains it.
pub open spec fn name_matches(name: Seq<char>, q: Seq<char>) -> bool {
    q.len() == 0 || contains_seq(str_lower_of(name), q)
}

/// A found symbol: name, kind, range and the name of its section.
pub type FoundSymbol = (Seq<char>, SymbolKind, Range, Seq<char>);

/// `s` is the found symbol `e` in the document `uri`.
pub open spec fn is_symbol_info(s: SymbolInformation, uri: Seq<char>, e: FoundSymbol) -> bool {
    &&& s.name@ == e.0
    &&& s.kind == e.1
    &&& s.location.uri@ == uri
    &&& s.location.range == e.2
    &&& s.container_name matches Some(c) && c@ == e.3
    &&& s.deprecated is None
}

/// The blocks of a section named `container` that `q` finds.
pub open spec fn block_matches(blocks: Seq<BlockModel>, kind: SymbolKind, container: Seq<char>, q: Seq<char>) -> Seq<FoundSymbol>
    decreases blocks.len(),
{
    if blocks.len() == 0 {
        Seq::empty()
    } else {
        let b = blocks.last();
        block_matches(blocks.drop_last(), kind, container, q) + if name_matches(b.name@, q) {
            seq![(b.name@, kind, ast_range(b.position), container)]
        } else {
            Seq::empty()
        }
    }
}

/// The variable definitions of a section named `container` that `q` finds.
pub open spec fn variable_matches(items: Seq<VariableItemModel>, container: Seq<char>, q: Seq<char>) -> Seq<FoundSymbol>
    decreases items.len(),
{
    if items.len() == 0 {
        Seq::empty()
    } else {
        variable_matches(items.drop_last(), container, q) + match items.last() {
            VariableItemModel::Variable { name, position, .. } => if name_matches(name@, q) {
                seq![(name@, SymbolKind::Variable, ast_range(position), container)]
            } else {
                Seq::empty()
            },
            _ => Seq::empty(),
        }
    }
}

/// What `q` finds in a section: its test cases, tasks, keywords or
/// variables.
pub open spec fn section_matches(s: SectionModel, q: Seq<char>) -> Seq<FoundSymbol> {
    match s {
        SectionModel::TestCases { header, body } => block_matches(body@, SymbolKind::Function, header.name@, q),
        SectionModel::Tasks { header, body } => block_matches(body@, SymbolKind::Function, header.name@, q),
        SectionModel::Keywords { header, body } => block_matches(body@, SymbolKind::Method, header.name@, q),
        SectionModel::Variables { header, body } => variable_matches(body@, header.name@, q),
        _ => Seq::empty(),
    }
}

/// What `q` finds in the sections `ss`, in order.
pub open spec fn matching_symbols(ss: Seq<SectionModel>, q: Seq<char>) -> Seq<FoundSymbol>
    decreases ss.len(),
{
    if ss.len() == 0 {
        Seq::empty()
    } else {
        matching_symbols(ss.drop_last(), q) + section_matches(ss.last(), q)
    }
}

/// The found symbols `v` are the entries `es` in the document `uri`.
pub open spec fn infos_match(v: Seq<SymbolInformation>, uri: Seq<char>, es: Seq<FoundSymbol>) -> bool {
    v.len() == es.len() && forall|j: int| 0 <= j < v.len() ==> is_symbol_info(#[trigger] v[j], uri, es[j])
}

fn name_found(name: &String, q: &Vec<char>) -> (r: bool)
    ensures
        r == name_matches(name@, q@),
{
    if q.len() == 0 {
        return true;
    }
    let n = chars_of(name.as_str());
    let low = lowercase_chars(&n);
    contains_chars(&low, q)
}

fn push_found(out: &mut Vec<SymbolInformation>, name: &String, kind: SymbolKind, range: Range, uri: &str, container: &String)
    ensures
        final(out)@.len() == old(out)@.len() + 1,
        forall|j: int| 0 <= j < old(out)@.len() ==> #[trigger] final(out)@[j] == old(out)@[j],
        is_symbol_info(final(out)@[old(out)@.len() as int], uri@, (name@, kind, range, container@)),
{
    out.push(
        SymbolInformation {
            name: name.clone(),
            kind,
            deprecated: None,
            location: Location { uri: uri.to_owned(), range },
            container_name: Some(container.clone()),
        },
    );
}

fn collect_blocks(out: &mut Vec<SymbolInformation>, blocks: &Vec<BlockModel>, kind: SymbolKind, container: &String, uri: &str, q: &Vec<char>)
    ensures
        final(out)@.len() == old(out)@.len() + block_matches(blocks@, kind, container@, q@).len(),
        forall|j: int| 0 <= j < old(out)@.len() ==> #[trigger] final(out)@[j] == old(out)@[j],
        forall|j: int|
            0 <= j < block_matches(blocks@, kind, container@, q@).len() ==> is_symbol_info(
                #[trigger] final(out)@[old(out)@.len() + j],
                uri@,
                block_matches(blocks@, kind, container@, q@)[j],
            ),
{
    let ghost o = out@;
    let mut i: usize = 0;
    while i < blocks.len()
        invariant
            i <= blocks.len(),
            out@.len() == o.len() + block_matches(blocks@.take(i as int), kind, container@, q@).len(),
            forall|j: int| 0 <= j < o.len() ==> #[trigger] out@[j] == o[j],
            forall|j: int|
                0 <= j < block_matches(blocks@.take(i as int), kind, container@, q@).len() ==> is_symbol_info(
                    #[trigger] out@[o.len() + j],
                    uri@,
                    block_matches(blocks@.take(i as int), kind, container@, q@)[j],
                ),
        decreases blocks.len() - i,
    {
        assert(blocks@.take(i + 1).drop_last() == blocks@.take(i as int));
        assert(blocks@.take(i + 1).last() == blocks@[i as int]);
        let b = &blocks[i];
        if name_found(&b.name, q) {
            push_found(out, &b.name, kind, ast_pos_to_range(&b.position), uri, container);
        }
        i += 1;
    }
    assert(blocks@.take(blocks.len() as int) == blocks@);
}

fn collect_variables(out: &mut Vec<SymbolInformation>, items: &Vec<VariableItemModel>, container: &String, uri: &str, q: &Vec<char>)
    ensures
        final(out)@.len() == old(out)@.len() + variable_matches(items@, container@, q@).len(),
        forall|j: int| 0 <= j < old(out)@.len() ==> #[trigger] final(out)@[j] == old(out)@[j],
        forall|j: int|
            0 <= j < variable_matches(items@, container@, q@).len() ==> is_symbol_info(
                #[trigger] final(out)@[old(out)@.len() + j],
                uri@,
                variable_matches(items@, container@, q@)[j],
            ),
{
    let ghost o = out@;
    let mut i: usize = 0;
    while i < items.len()
        invariant
            i <= items.len(),
            out@.len() == o.len() + variable_matches(items@.take(i as int), container@, q@).len(),
            forall|j: int| 0 <= j < o.len() ==> #[trigger] out@[j] == o[j],
            forall|j: int|
                0 <= j < variable_matches(items@.take(i as int), container@, q@).len() ==> is_symbol_info(
                    #[trigger] out@[o.len() + j],
                    uri@,
                    variable_matches(items@.take(i as int), container@, q@)[j],
                ),
        decreases items.len() - i,
    {
        assert(items@.take(i + 1).drop_last() == items@.take(i as int));
        assert(items@.take(i + 1).last() == items@[i as int]);
        match &items[i] {
            VariableItemModel::Variable { name, position, .. } => {
                if name_found(name, q) {
                    push_found(out, name, SymbolKind::Variable, ast_pos_to_range(position), uri, container);
                }
            },
            _ => {},
        }
        i += 1;
    }
    assert(items@.take(items.len() as int) == items@);
}

/// The test cases, tasks, keywords and variables of `file` (the document
/// `uri`) whose lower-cased name contains the lower-cased `query`; an empty
/// query finds them all.
pub fn workspace_symbols(file: &FileModel, uri: &str, query: &str) -> (r: Vec<SymbolInformation>)
    ensures
        infos_match(r@, uri@, matching_symbols(file.sections@, str_lower_of(query@))),
{
    let qc = chars_of(query);
    let q = lowercase_chars(&qc);
    let ss = &file.sections;
    let mut r: Vec<SymbolInformation> = Vec::new();
    let mut k: usize = 0;
    while k < ss.len()
        invariant
            k <= ss.len(),
            q@ == str_lower_of(query@),
            infos_match(r@, uri@, matching_symbols(ss@.take(k as int), q@)),
        decreases ss.len() - k,
    {
        assert(ss@.take(k + 1).drop_last() == ss@.take(k as int));
        assert(ss@.take(k + 1).last() == ss@[k as int]);
        let ghost before = r@;
        match &ss[k] {
            SectionModel::TestCases { header, body } => collect_blocks(&mut r, body, SymbolKind::Function, &header.name, uri, &q),
            SectionModel::Tasks { header, body } => collect_blocks(&mut r, body, SymbolKind::Function, &header.name, uri, &q),
            SectionModel::Keywords { header, body } => collect_blocks(&mut r, body, SymbolKind::Method, &header.name, uri, &q),
            SectionModel::Variables { header, body } => collect_variables(&mut r, body, &header.name, uri, &q),
            _ => {},
        }
        k += 1;
        let ghost es = matching_symbols(ss@.take(k as int), q@);
        assert forall|j: int| 0 <= j < r@.len() implies is_symbol_info(#[trigger] r@[j], uri@, es[j]) by {
            if j < before.len() {
                assert(r@[j] == before[j]);
            } else {
                let jj = j - before.len();
                assert(r@[before.len() + jj] == r@[j]);
            }
        }
    }
    assert(ss@.take(ss.len() as int) == ss@);
    r
}

// ── Every test case, task, keyword and variable is a symbol ──────────────────

proof fn lemma_entry_in_symbols(ss: Seq<SectionModel>, k: int)
    requires
        0 <= k < ss.len(),
        section_entry(ss[k]) is Some,
    ensures
        doc_symbols_spec(ss).contains(section_entry(ss[k])->Some_0),
    decreases ss.len(),
{
    let tail = match section_entry(ss.last()) {
        Some(e) => seq![e],
        None => Seq::empty(),
    };
    if k < ss.len() - 1 {
        assert(ss.drop_last()[k] == ss[k]);
        lemma_entry_in_symbols(ss.drop_last(), k);
    } else {
        assert(tail[0] == section_entry(ss[k])->Some_0);
    }
    lemma_contains_add(doc_symbols_spec(ss.drop_last()), tail, section_entry(ss[k])->Some_0);
}

/// The symbol kind of the blocks of a section: methods for keywords,
/// functions for test cases and tasks.
pub open spec fn block_kind(s: SectionModel) -> SymbolKind {
    if s is Keywords {
        SymbolKind::Method
    } else {
        SymbolKind::Function
    }
}

/// Every test case, task and keyword of the file is a child symbol of its
/// section's symbol, with its name and span.
pub proof fn lemma_blocks_are_symbols(ss: Seq<SectionModel>, k: int, j: int)
    requires
        0 <= k < ss.len(),
        0 <= j < section_blocks(ss[k]).len(),
    ensures
        exists|e: SectionEntry| #[trigger] doc_symbols_spec(ss).contains(e) && e.2.contains(
            (section_blocks(ss[k])[j].name@, block_kind(ss[k]), ast_range(section_blocks(ss[k])[j].position)),
        ),
{
    lemma_entry_in_symbols(ss, k);
    let e = section_entry(ss[k])->Some_0;
    let bs = section_blocks(ss[k]);
    assert(e.2 == block_leaves(bs, block_kind(ss[k])));
    assert(e.2[j] == (bs[j].name@, block_kind(ss[k]), ast_range(bs[j].position)));
    assert(e.2.contains((bs[j].name@, block_kind(ss[k]), ast_range(bs[j].position))));
}

proof fn lemma_variable_leaf(items: Seq<VariableItemModel>, i: int, name: String, value: Vec<String>, position: AstPosition)
    requires
        0 <= i < items.len(),
        items[i] == (VariableItemModel::Variable { name, value, position }),
    ensures
        variable_leaves(items).contains((name@, SymbolKind::Variable, ast_range(position))),
    decreases items.len(),
{
    let l = (name@, SymbolKind::Variable, ast_range(position));
    let tail = match items.last() {
        VariableItemModel::Variable { name, position, .. } => seq![(name@, SymbolKind::Variable, ast_range(position))],
        _ => Seq::empty(),
    };
    if i < items.len() - 1 {
        assert(items.drop_last()[i] == items[i]);
        lemma_variable_leaf(items.drop_last(), i, name, value, position);
    } else {
        assert(tail[0] == l);
    }
    lemma_contains_add(variable_leaves(items.drop_last()), tail, l);
}

/// Every variable defined in a variables section is a child symbol of that
/// section's symbol, with its name and span.
pub proof fn lemma_variables_are_symbols(
    ss: Seq<SectionModel>,
    k: int,
    i: int,
    name: String,
    value: Vec<String>,
    position: AstPosition,
)
    requires
        0 <= k < ss.len(),
        ss[k] matches SectionModel::Variables { body, .. } && 0 <= i < body@.len() && body@[i] == (VariableItemModel::Variable { name, value, position }),
    ensures
        exists|e: SectionEntry| #[trigger] doc_symbols_spec(ss).contains(e) && e.2.contains(
            (name@, SymbolKind::Variable, ast_range(position)),
        ),
{
    if let SectionModel::Variables { body, .. } = ss[k] {
        lemma_entry_in_symbols(ss, k);
        lemma_variable_leaf(body@, i, name, value, position);
        let e = section_entry(ss[k])->Some_0;
        assert(e.2 == variable_leaves(body@));
    }
}

} // verus!
