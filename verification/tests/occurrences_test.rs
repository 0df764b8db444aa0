use robotcode::ast::{
    AstPosition, BlockModel, BodyItemModel, FileModel, SectionHeader, SectionModel, SettingItemModel, VariableItemModel,
    VariableRefModel,
};
use robotcode::code_actions::{code_actions, collect_items_in_range, extract_keyword_action, find_or_create_keywords_section_line};
use robotcode::completion::{completions, determine_context, variable_completions, CompletionContext, KeywordModel, NamespaceVariableModel};
use robotcode::hover::{hover, KeywordDocModel};
use robotcode::lsp::{Position, Range};
use robotcode::lsp_items::{CodeActionKind, CompletionItemKind, Diagnostic, DocumentHighlightKind, MarkupKind};
use robotcode::occurrences::{document_highlight, references, rename, token_under, Lookup};

const URI: &str = "file:///test.robot";

fn span(line: u32, column: u32, end_line: u32, end_column: u32) -> AstPosition {
    AstPosition { line, column, end_line, end_column }
}

fn header(text: &str, name: &str, line: u32) -> SectionHeader {
    SectionHeader { name: name.to_string(), position: span(line, 0, line, text.len() as u32) }
}

fn pos(line: u32, character: u32) -> Position {
    Position { line, character }
}

fn range(a: u32, b: u32, c: u32, d: u32) -> Range {
    Range { start: pos(a, b), end: pos(c, d) }
}

fn call(name: &str, args: &[&str], line: u32, end: u32, variables: Vec<VariableRefModel>) -> BodyItemModel {
    BodyItemModel::KeywordCall {
        name: name.into(),
        args: args.iter().map(|a| a.to_string()).collect(),
        assigns: vec![],
        variables,
        position: span(line, 4, line, end),
    }
}

fn block(name: &str, line: u32, body: Vec<BodyItemModel>) -> BlockModel {
    BlockModel { name: name.into(), position: span(line, 0, line, name.len() as u32), body }
}

fn keywords(line: u32, body: Vec<BlockModel>) -> SectionModel {
    SectionModel::Keywords { header: header("*** Keywords ***", "Keywords", line), body }
}

fn tests(line: u32, body: Vec<BlockModel>) -> SectionModel {
    SectionModel::TestCases { header: header("*** Test Cases ***", "Test Cases", line), body }
}

/// *** Keywords ***
/// My Keyword
///     Log    hi
/// *** Test Cases ***
/// My Test
///     My Keyword
///     My Keyword
fn two_calls() -> FileModel {
    FileModel {
        sections: vec![
            keywords(0, vec![block("My Keyword", 1, vec![call("Log", &["hi"], 2, 13, vec![])])]),
            tests(
                3,
                vec![block(
                    "My Test",
                    4,
                    vec![call("My Keyword", &[], 5, 14, vec![]), call("My Keyword", &[], 6, 14, vec![])],
                )],
            ),
        ],
    }
}

/// *** Keywords ***
/// My Keyword
///     Log    hi
/// *** Test Cases ***
/// My Test
///     My Keyword
fn one_call() -> FileModel {
    FileModel {
        sections: vec![
            keywords(0, vec![block("My Keyword", 1, vec![call("Log", &["hi"], 2, 13, vec![])])]),
            tests(3, vec![block("My Test", 4, vec![call("My Keyword", &[], 5, 14, vec![])])]),
        ],
    }
}

/// *** Keywords ***
/// My Keyword
///     Log    hi
fn keyword_only() -> FileModel {
    FileModel { sections: vec![keywords(0, vec![block("My Keyword", 1, vec![call("Log", &["hi"], 2, 13, vec![])])])] }
}

fn var_ref(text: &str, start: u32, column: u32) -> VariableRefModel {
    VariableRefModel { text: text.into(), start, end: start + text.len() as u32, column }
}

/// *** Variables ***
/// ${MY VAR}    one    two
/// *** Test Cases ***
/// T
///     Log    ${my_var}
///     Log    x ${My-Var} y
fn with_variables() -> FileModel {
    FileModel {
        sections: vec![
            SectionModel::Variables {
                header: header("*** Variables ***", "Variables", 0),
                body: vec![VariableItemModel::Variable {
                    name: "${MY VAR}".into(),
                    value: vec!["one".into(), "two".into()],
                    position: span(1, 0, 1, 24),
                }],
            },
            tests(
                2,
                vec![block(
                    "T",
                    3,
                    vec![
                        call("Log", &["${my_var}"], 4, 20, vec![var_ref("${my_var}", 0, 11)]),
                        call("Log", &["x ${My-Var} y"], 5, 24, vec![var_ref("${My-Var}", 2, 11)]),
                    ],
                )],
            ),
        ],
    }
}

#[test]
fn test_keyword_references_includes_call_sites() {
    let refs = references(&two_calls(), URI, pos(1, 0), false);
    assert_eq!(refs.len(), 2, "Should find 2 call sites of My Keyword");
}

#[test]
fn test_keyword_references_with_declaration() {
    let refs = references(&one_call(), URI, pos(1, 0), true);
    assert_eq!(refs.len(), 2, "Should find definition + 1 call site");
}

#[test]
fn test_no_references_on_empty_pos() {
    let refs = references(&keyword_only(), URI, pos(0, 0), false);
    assert!(refs.is_empty());
}

#[test]
fn references_give_name_ranges_of_calls_and_the_whole_definition() {
    let refs = references(&one_call(), URI, pos(5, 6), true);
    let got: Vec<(String, Range)> = refs.into_iter().map(|l| (l.uri, l.range)).collect();
    assert_eq!(got, vec![(URI.to_string(), range(1, 0, 1, 10)), (URI.to_string(), range(5, 4, 5, 14))]);
}

#[test]
fn variable_references_match_normalized_names() {
    let refs = references(&with_variables(), URI, pos(1, 3), true);
    let got: Vec<Range> = refs.into_iter().map(|l| l.range).collect();
    assert_eq!(got, vec![range(1, 0, 1, 24), range(4, 11, 4, 20), range(5, 13, 5, 22)]);
    let without = references(&with_variables(), URI, pos(1, 3), false);
    assert_eq!(without.len(), 2);
}

#[test]
fn test_rename_keyword_definition_and_calls() {
    let result = rename(&two_calls(), URI, pos(1, 0), "My New Keyword".to_string());
    assert!(result.is_some());
    let edit = result.unwrap();
    let changes = edit.changes.unwrap();
    let edits = changes.into_iter().find(|(u, _)| u == URI).map(|(_, e)| e).unwrap();
    assert_eq!(edits.len(), 3);
    for e in &edits {
        assert_eq!(e.new_text, "My New Keyword");
    }
}

#[test]
fn test_rename_nothing_on_section_header() {
    let result = rename(&keyword_only(), URI, pos(0, 0), "Irrelevant".to_string());
    assert!(result.is_none());
}

#[test]
fn rename_edits_definition_names_and_keeps_sigils() {
    let result = rename(&with_variables(), URI, pos(1, 0), "@{new name}".to_string()).unwrap();
    let (uri, edits) = result.changes.unwrap().into_iter().next().unwrap();
    assert_eq!(uri, URI);
    let got: Vec<(Range, String)> = edits.into_iter().map(|e| (e.range, e.new_text)).collect();
    assert_eq!(
        got,
        vec![
            (range(1, 0, 1, 9), "${new name}".to_string()),
            (range(4, 11, 4, 20), "${new name}".to_string()),
            (range(5, 13, 5, 22), "${new name}".to_string()),
        ]
    );
    let kw = rename(&one_call(), URI, pos(1, 2), "Other".to_string()).unwrap();
    let (_, edits) = kw.changes.unwrap().into_iter().next().unwrap();
    assert_eq!(edits[0].range, range(1, 0, 1, 10));
}

#[test]
fn test_keyword_highlight() {
    let src = FileModel {
        sections: vec![
            keywords(0, vec![block("My Keyword", 1, vec![call("Log", &["hello"], 2, 16, vec![])])]),
            tests(3, vec![block("My Test", 4, vec![call("My Keyword", &[], 5, 14, vec![])])]),
        ],
    };
    let highlights = document_highlight(&src, pos(1, 0));
    assert!(!highlights.is_empty());
    let got: Vec<(Range, Option<DocumentHighlightKind>)> = highlights.into_iter().map(|h| (h.range, h.kind)).collect();
    assert_eq!(
        got,
        vec![
            (range(1, 0, 1, 10), Some(DocumentHighlightKind::Text)),
            (range(5, 4, 5, 14), Some(DocumentHighlightKind::Read)),
        ]
    );
}

#[test]
fn test_no_highlight_on_empty_area() {
    let src = FileModel {
        sections: vec![keywords(0, vec![block("My Keyword", 1, vec![call("Log", &["hello"], 2, 16, vec![])])])],
    };
    let highlights = document_highlight(&src, pos(0, 0));
    assert!(highlights.is_empty());
}

#[test]
fn highlight_from_a_variable_reference() {
    let highlights = document_highlight(&with_variables(), pos(5, 15));
    let got: Vec<(Range, Option<DocumentHighlightKind>)> = highlights.into_iter().map(|h| (h.range, h.kind)).collect();
    assert_eq!(
        got,
        vec![
            (range(1, 0, 1, 24), Some(DocumentHighlightKind::Text)),
            (range(4, 11, 4, 20), Some(DocumentHighlightKind::Read)),
            (range(5, 13, 5, 22), Some(DocumentHighlightKind::Read)),
        ]
    );
}

/// *** Test Cases ***
/// My Test
///     My Keyword
/// *** Keywords ***
/// My Keyword
///     [Documentation]    Does something useful
///     Log    hi
fn hover_file() -> FileModel {
    FileModel {
        sections: vec![
            tests(0, vec![block("My Test", 1, vec![call("My Keyword", &[], 2, 14, vec![])])]),
            keywords(
                3,
                vec![block(
                    "My Keyword",
                    4,
                    vec![
                        BodyItemModel::Documentation { value: "Does something useful".into(), position: span(5, 4, 5, 44) },
                        call("Log", &["hi"], 6, 13, vec![]),
                    ],
                )],
            ),
        ],
    }
}

#[test]
fn test_hover_local_keyword() {
    let result = hover(&hover_file(), &None, pos(2, 4));
    assert!(result.is_some());
    if let Some(h) = result {
        assert!(h.contents.value.contains("My Keyword"));
    }
}

#[test]
fn test_hover_nothing_on_header() {
    let result = hover(&keyword_only(), &None, pos(0, 0));
    assert!(result.is_none());
}

#[test]
fn hover_markdown_for_keywords_and_variables() {
    let local = hover(&hover_file(), &None, pos(2, 6)).unwrap();
    assert_eq!(local.contents.kind, MarkupKind::Markdown);
    assert_eq!(local.contents.value, "**My Keyword**\n\n---\n\nDoes something useful");
    assert!(local.range.is_none());
    let doc = KeywordDocModel {
        name: "Log".into(),
        args: vec!["message".into(), "level".into()],
        library_name: Some("BuiltIn".into()),
        doc: "Logs.".into(),
        deprecated: Some("use Log To Console".into()),
    };
    let ns = hover(&hover_file(), &Some(doc), pos(2, 4)).unwrap();
    assert_eq!(
        ns.contents.value,
        "**Log** (*message*, *level*)\n\n*Library: BuiltIn*\n\n---\n\nLogs.\n\n> ⚠️ **Deprecated**: use Log To Console"
    );
    let var = hover(&with_variables(), &None, pos(5, 14)).unwrap();
    assert_eq!(var.contents.value, "**${MY VAR}** = `one    two`\n\n*Suite variable*");
    let hover_lookup = Lookup { variables: true, strict: false, definitions: false };
    assert_eq!(token_under(&hover_file(), pos(2, 5), hover_lookup), Some((true, "My Keyword".to_string())));
}

#[test]
fn test_completions_include_bdd_prefixes() {
    let file = FileModel {
        sections: vec![tests(0, vec![block("My Test", 1, vec![BodyItemModel::Other { position: span(2, 0, 2, 4) }])])],
    };
    let items = completions(&file, &vec![], &vec![], pos(2, 4));
    let labels: Vec<&str> = items.iter().map(|i| i.label.as_str()).collect();
    assert!(labels.contains(&"Given "), "Should include 'Given ' BDD prefix");
}

#[test]
fn test_completions_include_local_keywords() {
    let file = FileModel {
        sections: vec![
            keywords(0, vec![block("My Keyword", 1, vec![call("Log", &["hi"], 2, 13, vec![])])]),
            tests(3, vec![block("My Test", 4, vec![BodyItemModel::Other { position: span(5, 0, 5, 4) }])]),
        ],
    };
    let items = completions(&file, &vec![], &vec![], pos(5, 4));
    assert!(items.iter().any(|i| i.label == "My Keyword"));
}

#[test]
fn test_variable_completions_include_builtins() {
    let file = FileModel {
        sections: vec![SectionModel::Variables {
            header: header("*** Variables ***", "Variables", 0),
            body: vec![VariableItemModel::Variable { name: "${MY}".into(), value: vec!["val".into()], position: span(1, 0, 1, 12) }],
        }],
    };
    let items = completions(&file, &vec![], &vec![], pos(0, 0));
    assert!(items.iter().any(|i| i.label == "${EMPTY}"));
}

#[test]
fn completion_context_and_variable_items() {
    let file = FileModel {
        sections: vec![
            SectionModel::Settings {
                header: header("*** Settings ***", "Settings", 0),
                body: vec![SettingItemModel::LibraryImport { name: "Collections".into(), position: span(1, 0, 1, 25) }],
            },
            SectionModel::Variables {
                header: header("*** Variables ***", "Variables", 2),
                body: vec![
                    VariableItemModel::Variable { name: "${MY}".into(), value: vec![], position: span(3, 0, 3, 5) },
                    VariableItemModel::Variable { name: "${EMPTY}".into(), value: vec![], position: span(4, 0, 4, 8) },
                ],
            },
        ],
    };
    assert_eq!(determine_context(&file, pos(1, 9)), CompletionContext::Setting);
    assert_eq!(determine_context(&file, pos(0, 0)), CompletionContext::Setting);
    assert_eq!(determine_context(&file, pos(3, 4)), CompletionContext::Keyword);
    assert_eq!(determine_context(&file, pos(3, 3)), CompletionContext::Unknown);
    let ns = vec![
        NamespaceVariableModel { name: "${GLOBAL}".into(), scope: "Global".into() },
        NamespaceVariableModel { name: "${MY}".into(), scope: "Suite".into() },
    ];
    let items = variable_completions(&file, &ns);
    assert_eq!(items.len(), 17);
    assert_eq!(items[0].label, "${EMPTY}");
    assert_eq!(items[0].kind, Some(CompletionItemKind::Constant));
    assert_eq!(items[0].detail.as_deref(), Some("built-in variable"));
    assert_eq!(items[15].label, "${GLOBAL}");
    assert_eq!(items[15].detail.as_deref(), Some("Global variable"));
    assert_eq!(items[16].label, "${MY}");
    assert_eq!(items[16].detail.as_deref(), Some("Suite variable"));
    let settings = completions(&file, &vec![], &ns, pos(1, 0));
    assert_eq!(settings.len(), 13);
    assert_eq!(settings[0].label, "Library");
    let keyword = KeywordModel { name: "Log".into(), library_name: None, doc: String::new(), args: vec![], deprecated: false };
    let unknown = completions(&file, &vec![keyword], &ns, pos(3, 0));
    assert_eq!(unknown.len(), 5 + 1 + 17);
}

#[test]
fn test_no_actions_empty_diagnostics() {
    let actions = code_actions(&keyword_only(), URI, range(0, 0, 0, 0), &vec![], &vec![], &vec![]);
    assert!(actions.is_empty());
}

fn diagnostic(message: &str) -> Diagnostic {
    Diagnostic {
        range: range(5, 4, 5, 13),
        severity: None,
        code: Some("KeywordNotFound".into()),
        source: Some("robotcode".into()),
        message: message.into(),
    }
}

#[test]
fn quick_fixes_suggest_close_keyword_names() {
    let names = vec!["Log".to_string(), "Log Many".to_string()];
    let table = vec![
        ("Log".to_string(), "log".to_string()),
        ("Log Many".to_string(), "logmany".to_string()),
        ("My Keyword".to_string(), "mykeyword".to_string()),
        ("My Keywrd".to_string(), "mykeywrd".to_string()),
    ];
    let diags = vec![diagnostic("No keyword with name 'My Keywrd' found.")];
    let actions = code_actions(&one_call(), URI, range(0, 0, 0, 0), &diags, &names, &table);
    assert_eq!(actions.len(), 1);
    assert_eq!(actions[0].title, "Did you mean 'My Keyword'?");
    assert_eq!(actions[0].kind, Some(CodeActionKind::QuickFix));
    assert_eq!(actions[0].diagnostics.as_ref().map(|d| d.len()), Some(1));
    let (uri, edits) = actions[0].edit.clone().unwrap().changes.unwrap().into_iter().next().unwrap();
    assert_eq!(uri, URI);
    assert_eq!(edits.len(), 1);
    assert_eq!((edits[0].range, edits[0].new_text.as_str()), (range(5, 4, 5, 13), "My Keyword"));
    let other = Diagnostic { code: Some("ImportError".into()), ..diagnostic("No keyword with name 'My Keywrd' found.") };
    assert!(code_actions(&one_call(), URI, range(0, 0, 0, 0), &vec![other], &names, &table).is_empty());
}

#[test]
fn extracting_keyword_calls() {
    let file = two_calls();
    assert_eq!(collect_items_in_range(&file, range(2, 0, 6, 0)), vec!["Log    hi", "My Keyword", "My Keyword"]);
    assert_eq!(find_or_create_keywords_section_line(&file), 3);
    assert!(extract_keyword_action(&file, URI, range(6, 0, 6, 14)).is_none());
    let action = extract_keyword_action(&file, URI, range(5, 0, 6, 14)).unwrap();
    assert_eq!(action.title, "Extract keyword");
    assert_eq!(action.kind, Some(CodeActionKind::RefactorExtract));
    let (_, edits) = action.edit.unwrap().changes.unwrap().into_iter().next().unwrap();
    assert_eq!(edits[0].new_text, "    Extracted Keyword");
    assert_eq!(edits[0].range, range(5, 0, 6, 14));
    assert_eq!(edits[1].range, range(3, 0, 3, 0));
    assert_eq!(edits[1].new_text, "\nExtracted Keyword\n    My Keyword\n    My Keyword\n");
    let no_keywords = FileModel { sections: vec![tests(0, vec![])] };
    assert_eq!(find_or_create_keywords_section_line(&no_keywords), 1);
}
