//! Building blocks of the language features: folding regions, document
//! symbols, setting completions and text replacements.
use vstd::prelude::*;

use crate::ast::{ast_pos_to_range, ast_range, BlockModel, FileModel, SectionModel};
use crate::lsp::{Position, Range, TextEdit};
use crate::lsp_items::{
    CodeLens, Command, CompletionItem, CompletionItemKind, DocumentSymbol, FoldingRange, FoldingRangeKind,
    InsertTextFormat, SymbolKind, WorkspaceEdit,
};

verus! {

/// A foldable region over whole lines.
pub fn region(start_line: u32, end_line: u32) -> (f: FoldingRange)
    ensures
        f.start_line == start_line,
        f.end_line == end_line,
        f.kind == Some(FoldingRangeKind::Region),
        f.start_character is None,
        f.end_character is None,
        f.collapsed_text is None,
{
    FoldingRange {
        start_line,
        end_line,
        kind: Some(FoldingRangeKind::Region),
        start_character: None,
        end_character: None,
        collapsed_text: None,
    }
}

/// A symbol without children whose selection is its whole range.
pub fn make_symbol(name: &str, kind: SymbolKind, range: Range) -> (s: DocumentSymbol)
    ensures
        s.name@ == name@,
        s.kind == kind,
        s.range == range,
        s.selection_range == range,
        s.detail is None,
        s.deprecated is None,
        s.children is None,
{
    DocumentSymbol {
        name: name.to_owned(),
        kind,
        range,
        selection_range: range,
        detail: None,
        deprecated: None,
        children: None,
    }
}

/// The settings of a settings section, each with the snippet it completes
/// to.
pub open spec fn setting_table() -> Seq<(Seq<char>, Seq<char>)> {
    seq![
        ("Library"@, "Library    ${1:name}    ${2:WITH NAME}    ${3:alias}"@),
        ("Resource"@, "Resource    ${1:path/to/resource.robot}"@),
        ("Variables"@, "Variables    ${1:path/to/variables.yaml}"@),
        ("Documentation"@, "Documentation    ${1:description}"@),
        ("Suite Setup"@, "Suite Setup    ${1:keyword}"@),
        ("Suite Teardown"@, "Suite Teardown    ${1:keyword}"@),
        ("Test Setup"@, "Test Setup    ${1:keyword}"@),
        ("Test Teardown"@, "Test Teardown    ${1:keyword}"@),
        ("Test Template"@, "Test Template    ${1:keyword}"@),
        ("Test Tags"@, "Test Tags    ${1:tag}"@),
        ("Default Tags"@, "Default Tags    ${1:tag}"@),
        ("Force Tags"@, "Force Tags    ${1:tag}"@),
        ("Metadata"@, "Metadata    ${1:name}    ${2:value}"@),
    ]
}

fn setting_item(label: &str, snippet: &str) -> (c: CompletionItem)
    ensures
        c.label@ == label@,
        c.kind == Some(CompletionItemKind::Keyword),
        c.insert_text matches Some(t) && t@ == snippet@,
        c.insert_text_format == Some(InsertTextFormat::Snippet),
        c.detail is None,
        c.documentation is None,
        c.deprecated is None,
{
    CompletionItem {
        label: label.to_owned(),
        kind: Some(CompletionItemKind::Keyword),
        detail: None,
        documentation: None,
        insert_text: Some(snippet.to_owned()),
        insert_text_format: Some(InsertTextFormat::Snippet),
        deprecated: None,
    }
}

/// Completions for the settings of a settings section, as snippets.
pub fn setting_completions() -> (items: Vec<CompletionItem>)
    ensures
        items@.len() == setting_table().len(),
        forall|i: int|
            0 <= i < items@.len() ==> {
                &&& (#[trigger] items@[i]).label@ == setting_table()[i].0
                &&& items@[i].kind == Some(CompletionItemKind::Keyword)
                &&& items@[i].insert_text matches Some(t) && t@ == setting_table()[i].1
                &&& items@[i].insert_text_format == Some(InsertTextFormat::Snippet)
                &&& items@[i].detail is None
                &&& items@[i].documentation is None
                &&& items@[i].deprecated is None
            },
{
    let items = vec![
        setting_item("Library", "Library    ${1:name}    ${2:WITH NAME}    ${3:alias}"),
        setting_item("Resource", "Resource    ${1:path/to/resource.robot}"),
        setting_item("Variables", "Variables    ${1:path/to/variables.yaml}"),
        setting_item("Documentation", "Documentation    ${1:description}"),
        setting_item("Suite Setup", "Suite Setup    ${1:keyword}"),
        setting_item("Suite Teardown", "Suite Teardown    ${1:keyword}"),
        setting_item("Test Setup", "Test Setup    ${1:keyword}"),
        setting_item("Test Teardown", "Test Teardown    ${1:keyword}"),
        setting_item("Test Template", "Test Template    ${1:keyword}"),
        setting_item("Test Tags", "Test Tags    ${1:tag}"),
        setting_item("Default Tags", "Default Tags    ${1:tag}"),
        setting_item("Force Tags", "Force Tags    ${1:tag}"),
        setting_item("Metadata", "Metadata    ${1:name}    ${2:value}"),
    ];
    items
}

/// A workspace edit that replaces the text in `range` of the document at
/// `uri` by `new_text`.
pub fn make_text_replacement(uri: &str, range: Range, new_text: &str) -> (e: WorkspaceEdit)
    ensures
        e.changes matches Some(c) && c@.len() == 1 && c@[0].0@ == uri@ && c@[0].1@.len() == 1
            && c@[0].1@[0].range == range && c@[0].1@[0].new_text@ == new_text@,
{
    let edit = TextEdit { range, new_text: new_text.to_owned() };
    WorkspaceEdit { changes: Some(vec![(uri.to_owned(), vec![edit])]) }
}

/// A lens at the start of the first line of `range` running `command` with
/// title `title` on the test `name` of the document `uri`.
pub open spec fn is_test_lens(l: CodeLens, title: Seq<char>, command: Seq<char>, uri: Seq<char>, name: Seq<char>, range: Range) -> bool {
    &&& l.range == (Range {
        start: Position { line: range.start.line, character: 0 },
        end: Position { line: range.start.line, character: 0 },
    })
    &&& l.command matches Some(c) && c.title@ == title && c.command@ == command && (c.arguments matches Some(
        a,
    ) && a@.len() == 2 && a@[0]@ == uri && a@[1]@ == name)
}

fn test_lens(uri: &str, name: &str, range: Range, title: &str, command: &str) -> (l: CodeLens)
    ensures
        is_test_lens(l, title@, command@, uri@, name@, range),
{
    let at = Position { line: range.start.line, character: 0 };
    CodeLens {
        range: Range { start: at, end: at },
        command: Some(
            Command {
                title: title.to_owned(),
                command: command.to_owned(),
                arguments: Some(vec![uri.to_owned(), name.to_owned()]),
            },
        ),
    }
}

/// The lens that runs the test `name` of the document `uri`.
pub fn run_lens(uri: &str, name: &str, range: Range) -> (l: CodeLens)
    ensures
        is_test_lens(l, "▶ Run Test"@, "robotcode.runTest"@, uri@, name@, range),
{
    test_lens(uri, name, range, "▶ Run Test", "robotcode.runTest")
}

/// The lens that debugs the test `name` of the document `uri`.
pub fn debug_lens(uri: &str, name: &str, range: Range) -> (l: CodeLens)
    ensures
        is_test_lens(l, "🐛 Debug Test"@, "robotcode.debugTest"@, uri@, name@, range),
{
    test_lens(uri, name, range, "🐛 Debug Test", "robotcode.debugTest")
}

/// The lenses of the blocks `bs` of the document `uri`: run, then debug,
/// for each.
pub open spec fn blocks_lenses_ok(v: Seq<CodeLens>, uri: Seq<char>, bs: Seq<BlockModel>) -> bool {
    &&& v.len() == 2 * bs.len()
    &&& forall|i: int|
        0 <= i < bs.len() ==> is_test_lens(
            #[trigger] v[2 * i],
            "▶ Run Test"@,
            "robotcode.runTest"@,
            uri,
            bs[i].name@,
            ast_range(bs[i].position),
        ) && is_test_lens(
            v[2 * i + 1],
            "🐛 Debug Test"@,
            "robotcode.debugTest"@,
            uri,
            bs[i].name@,
            ast_range(bs[i].position),
        )
}

/// The test cases and tasks of the sections `ss`, in order.
pub open spec fn runnable_blocks(ss: Seq<SectionModel>) -> Seq<BlockModel>
    decreases ss.len(),
{
    if ss.len() == 0 {
        Seq::empty()
    } else {
        runnable_blocks(ss.drop_last()) + match ss.last() {
            SectionModel::TestCases { body, .. } => body@,
            SectionModel::Tasks { body, .. } => body@,
            _ => Seq::empty(),
        }
    }
}

/// The code lenses of `file`, the document `uri`: a run and a debug lens
/// on each test case and task.
pub fn code_lens(file: &FileModel, uri: &str) -> (r: Vec<CodeLens>)
    ensures
        blocks_lenses_ok(r@, uri@, runnable_blocks(file.sections@)),
{
    let ss = &file.sections;
    let mut r: Vec<CodeLens> = Vec::new();
    let mut k: usize = 0;
    while k < ss.len()
        invariant
            k <= ss.len(),
            blocks_lenses_ok(r@, uri@, runnable_blocks(ss@.take(k as int))),
        decreases ss.len() - k,
    {
        assert(ss@.take(k + 1).drop_last() == ss@.take(k as int));
        assert(ss@.take(k + 1).last() == ss@[k as int]);
        let ghost pre = runnable_blocks(ss@.take(k as int));
        match &ss[k] {
            SectionModel::TestCases { body, .. } | SectionModel::Tasks { body, .. } => {
                let mut j: usize = 0;
                while j < body.len()
                    invariant
                        j <= body.len(),
                        blocks_lenses_ok(r@, uri@, pre + body@.take(j as int)),
                    decreases body.len() - j,
                {
                    let b = &body[j];
                    let range = ast_pos_to_range(&b.position);
                    let ghost before = r@;
                    r.push(run_lens(uri, b.name.as_str(), range));
                    r.push(debug_lens(uri, b.name.as_str(), range));
                    let ghost bs = pre + body@.take(j + 1);
                    assert(bs == (pre + body@.take(j as int)).push(body@[j as int]));
                    assert forall|i: int| 0 <= i < bs.len() implies is_test_lens(
                        #[trigger] r@[2 * i],
                        "▶ Run Test"@,
                        "robotcode.runTest"@,
                        uri@,
                        bs[i].name@,
                        ast_range(bs[i].position),
                    ) && is_test_lens(
                        r@[2 * i + 1],
                        "🐛 Debug Test"@,
                        "robotcode.debugTest"@,
                        uri@,
                        bs[i].name@,
                        ast_range(bs[i].position),
                    ) by {
                        if i < bs.len() - 1 {
                            assert(r@[2 * i] == before[2 * i]);
                            assert(r@[2 * i + 1] == before[2 * i + 1]);
                            assert(bs[i] == (pre + body@.take(j as int))[i]);
                        }
                    }
                    j += 1;
                }
                assert(body@.take(body.len() as int) == body@);
            },
            _ => {},
        }
        k += 1;
    }
    assert(ss@.take(ss.len() as int) == ss@);
    r
}

} // verus!
