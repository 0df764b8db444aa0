use robotcode::ast::{
    position_in_ast, AstPosition, BlockModel, BodyItemModel, BranchKind, BranchModel, CommentModel, LoopKind, StatementKind, TagsKind, FileModel, SectionHeader, SectionModel, SettingItemModel,
    VariableItemModel, VariableRefModel,
};
use robotcode::completion::{keyword_completions, KeywordModel};
use robotcode::folding::folding_ranges;
use robotcode::inlay::inlay_hints;
use robotcode::handlers::code_lens;
use robotcode::signature::{build_signature, keyword_call_at, signature_help};
use robotcode::goto::{goto_definition, token_at_position, DefinitionToken, KeywordSourceModel};
use robotcode::lsp::{Position, Range};
use robotcode::lsp_items::{CompletionItemKind, FoldingRangeKind, InlayHintKind, InsertTextFormat, SymbolKind};
use robotcode::selection::{selection_range_for, selection_ranges};
use robotcode::symbols::{document_symbols, workspace_symbols};
use robotcode::tokens::{collect_file, semantic_tokens};

fn span(line: u32, column: u32, end_line: u32, end_column: u32) -> AstPosition {
    AstPosition { line, column, end_line, end_column }
}

fn header(name: &str, line: u32) -> SectionHeader {
    SectionHeader { name: name.to_string(), position: span(line, 0, line, name.len() as u32) }
}

fn call(line: u32) -> BodyItemModel {
    BodyItemModel::KeywordCall {
        name: "Log".into(),
        args: vec!["hello".into()],
        assigns: vec![],
        variables: vec![],
        position: span(line, 4, line, 14),
    }
}

fn comment(value: &str, line: u32) -> CommentModel {
    CommentModel { value: value.into(), position: span(line, 0, line, value.len() as u32) }
}

fn range(a: u32, b: u32, c: u32, d: u32) -> Range {
    Range { start: Position { line: a, character: b }, end: Position { line: c, character: d } }
}

/// *** Settings ***            0
/// Library    Collections      1
/// *** Variables ***           2
/// ${MY_VAR}    value          3
/// *** Test Cases ***          4
/// My Test                     5
///     Log    hello            6
///     FOR    ${i}    IN ...   7
///         Log    ${i}         8
///     END                     9
/// *** Keywords ***           10
/// My Keyword                 11
///     IF    True             12
///         Log    yes         13
///     ELSE                   14
///         Log    no          15
///     END                    16
fn sample() -> FileModel {
    FileModel {
        sections: vec![
            SectionModel::Settings {
                header: header("Settings", 0),
                body: vec![SettingItemModel::LibraryImport { name: "Collections".into(), position: span(1, 0, 1, 22) }],
            },
            SectionModel::Variables {
                header: header("Variables", 2),
                body: vec![VariableItemModel::Variable { name: "${MY_VAR}".into(), value: vec!["value".into()], position: span(3, 0, 3, 18) }],
            },
            SectionModel::TestCases {
                header: header("Test Cases", 4),
                body: vec![BlockModel {
                    name: "My Test".into(),
                    position: span(5, 0, 5, 7),
                    body: vec![
                        call(6),
                        BodyItemModel::Loop {
                            kind: LoopKind::For,
                            variables: vec!["${i}".into()],
                            position: span(7, 4, 9, 7),
                            body: vec![call(8)],
                        },
                    ],
                }],
            },
            SectionModel::Keywords {
                header: header("Keywords", 10),
                body: vec![BlockModel {
                    name: "My Keyword".into(),
                    position: span(11, 0, 11, 10),
                    body: vec![BodyItemModel::Branches {
                        position: span(12, 4, 16, 7),
                        branches: vec![
                            BranchModel { kind: BranchKind::If, position: span(12, 4, 12, 14), body: vec![call(13)] },
                            BranchModel { kind: BranchKind::Else, position: span(14, 4, 14, 8), body: vec![call(15)] },
                        ],
                    }],
                }],
            },
        ],
    }
}

#[test]
fn symbols_per_section() {
    let syms = document_symbols(&sample());
    let names: Vec<&str> = syms.iter().map(|s| s.name.as_str()).collect();
    assert_eq!(names, vec!["Settings", "Variables", "Test Cases", "Keywords"]);
    assert!(syms.iter().all(|s| s.kind == SymbolKind::Namespace));
    let lib = &syms[0].children.as_ref().unwrap()[0];
    assert_eq!((lib.name.as_str(), lib.kind), ("Collections", SymbolKind::Module));
    let var = &syms[1].children.as_ref().unwrap()[0];
    assert_eq!((var.name.as_str(), var.kind), ("${MY_VAR}", SymbolKind::Variable));
    let test = &syms[2].children.as_ref().unwrap()[0];
    assert_eq!((test.name.as_str(), test.kind, test.range), ("My Test", SymbolKind::Function, range(5, 0, 5, 7)));
    let kw = &syms[3].children.as_ref().unwrap()[0];
    assert_eq!((kw.name.as_str(), kw.kind), ("My Keyword", SymbolKind::Method));
}

#[test]
fn symbols_skip_empty_variables_and_comments() {
    let file = FileModel {
        sections: vec![
            SectionModel::Variables { header: header("Variables", 0), body: vec![] },
            SectionModel::Comments { header: header("Comments", 1), body: vec![comment("note", 2)] },
            SectionModel::Keywords { header: header("Keywords", 3), body: vec![] },
        ],
    };
    let syms = document_symbols(&file);
    assert_eq!(syms.len(), 1);
    assert_eq!(syms[0].name, "Keywords");
    assert!(syms[0].children.is_none());
}

#[test]
fn workspace_symbols_filter_case_insensitively() {
    let file = sample();
    let all = workspace_symbols(&file, "file:///a.robot", "");
    let names: Vec<&str> = all.iter().map(|s| s.name.as_str()).collect();
    assert_eq!(names, vec!["${MY_VAR}", "My Test", "My Keyword"]);
    let found = workspace_symbols(&file, "file:///a.robot", "KEYW");
    assert_eq!(found.len(), 1);
    assert_eq!(found[0].name, "My Keyword");
    assert_eq!(found[0].kind, SymbolKind::Method);
    assert_eq!(found[0].container_name.as_deref(), Some("Keywords"));
    assert_eq!(found[0].location.uri, "file:///a.robot");
    assert_eq!(found[0].location.range, range(11, 0, 11, 10));
    assert!(workspace_symbols(&file, "file:///a.robot", "nothing").is_empty());
}

#[test]
fn folding_sections_blocks_and_control_flow() {
    let ranges = folding_ranges(&sample());
    let pairs: Vec<(u32, u32)> = ranges.iter().map(|r| (r.start_line, r.end_line)).collect();
    // Settings and variables sections, the test section and test, the loop,
    // the keyword section and keyword, the IF branch and the ELSE branch.
    assert_eq!(pairs, vec![(0, 1), (2, 3), (4, 8), (5, 8), (7, 8), (10, 15), (11, 15), (12, 13), (14, 15)]);
    assert!(ranges.iter().all(|r| r.kind == Some(FoldingRangeKind::Region)));
    assert!(ranges.iter().all(|r| r.start_line < r.end_line));
}

#[test]
fn folding_comments_and_empty_file() {
    assert!(folding_ranges(&FileModel { sections: vec![] }).is_empty());
    let file = FileModel {
        sections: vec![SectionModel::Comments { header: header("Comments", 0), body: vec![comment("a", 1), comment("b", 2)] }],
    };
    let ranges = folding_ranges(&file);
    assert_eq!(ranges.len(), 1);
    assert_eq!((ranges[0].start_line, ranges[0].end_line), (0, 2));
    assert_eq!(ranges[0].kind, Some(FoldingRangeKind::Comment));
}

/// Each range of a selection chain lies within the next.
fn assert_nested(r: &robotcode::lsp_items::SelectionRange, pos: Position) {
    let (s, e) = ((r.range.start.line, r.range.start.character), (r.range.end.line, r.range.end.character));
    assert!(s <= (pos.line, pos.character) && (pos.line, pos.character) <= e);
    let mut cur = r;
    while let Some(p) = cur.parent.as_ref() {
        let inner = ((cur.range.start.line, cur.range.start.character), (cur.range.end.line, cur.range.end.character));
        let outer = ((p.range.start.line, p.range.start.character), (p.range.end.line, p.range.end.character));
        assert!(outer.0 <= inner.0 && inner.1 <= outer.1);
        cur = p;
    }
}

#[test]
fn selection_on_keyword_call() {
    let file = FileModel { sections: sample().sections.into_iter().skip(1).collect() };
    let pos = Position { line: 8, character: 10 };
    let r = selection_range_for(&file, pos);
    assert_eq!(r.range, range(8, 4, 8, 14));
    // The test, from its name to the end of its body, then its section.
    let block = r.parent.as_ref().unwrap();
    assert_eq!(block.range, range(5, 0, 9, 7));
    let section = block.parent.as_ref().unwrap();
    assert_eq!(section.range, range(4, 0, 9, 7));
    assert!(section.parent.is_none());
    assert_nested(&r, pos);
}

#[test]
fn selection_on_block_name_branch_and_variable() {
    let file = FileModel { sections: sample().sections.into_iter().skip(1).collect() };
    let pos = Position { line: 11, character: 2 };
    let r = selection_range_for(&file, pos);
    assert_eq!(r.range, range(11, 0, 16, 7));
    assert_eq!(r.parent.as_ref().unwrap().range, range(10, 0, 16, 7));
    assert_nested(&r, pos);
    let pos = Position { line: 14, character: 5 };
    let r = selection_range_for(&file, pos);
    assert_eq!(r.range, range(14, 4, 14, 8));
    assert_eq!(r.parent.as_ref().unwrap().range, range(11, 0, 16, 7));
    assert_nested(&r, pos);
    let pos = Position { line: 3, character: 2 };
    let r = selection_range_for(&file, pos);
    assert_eq!(r.range, range(3, 0, 3, 18));
    assert_eq!(r.parent.as_ref().unwrap().range, range(2, 0, 3, 18));
    assert_nested(&r, pos);
    // Nothing at the position: the empty range there.
    let p = Position { line: 40, character: 1 };
    let r = selection_range_for(&file, p);
    assert_eq!(r.range, Range { start: p, end: p });
    assert!(r.parent.is_none());
}

#[test]
fn selection_on_loop_line_and_settings_section() {
    let file = sample();
    let all = selection_ranges(&file, vec![Position { line: 8, character: 0 }, Position { line: 0, character: 3 }]);
    assert_eq!(all.len(), 2);
    // Column 0 of the loop's body line lies in the loop, not in the call.
    assert_eq!(all[0].range, range(7, 4, 9, 7));
    assert_eq!(all[0].parent.as_ref().unwrap().range, range(5, 0, 9, 7));
    assert_nested(&all[0], Position { line: 8, character: 0 });
    // On the settings header: the section, from its header to its last row.
    assert_eq!(all[1].range, range(0, 0, 1, 22));
    assert!(all[1].parent.is_none());
    // On a settings row: the row, then the section.
    let r = selection_range_for(&file, Position { line: 1, character: 3 });
    assert_eq!(r.range, range(1, 0, 1, 22));
    assert_eq!(r.parent.as_ref().unwrap().range, range(0, 0, 1, 22));
}

fn kw_call(name: &str, line: u32) -> BodyItemModel {
    BodyItemModel::KeywordCall {
        name: name.into(),
        args: vec![],
        assigns: vec![],
        variables: vec![],
        position: span(line, 4, line, 4 + name.len() as u32),
    }
}

/// *** Test Cases ***          0
/// My Test                     1
///     My Keyword              2
///     External Keyword        3
/// *** Keywords ***            4
/// My Keyword                  5
///     [Arguments]    ${Arg One}   6
///     Log    hi               7
/// *** Variables ***           8
/// ${MY_VAR}    value          9
fn goto_file() -> FileModel {
    FileModel {
        sections: vec![
            SectionModel::TestCases {
                header: header("Test Cases", 0),
                body: vec![BlockModel {
                    name: "My Test".into(),
                    position: span(1, 0, 1, 7),
                    body: vec![kw_call("My Keyword", 2), kw_call("External Keyword", 3)],
                }],
            },
            SectionModel::Keywords {
                header: header("Keywords", 4),
                body: vec![BlockModel {
                    name: "My Keyword".into(),
                    position: span(5, 0, 5, 10),
                    body: vec![
                        BodyItemModel::Arguments { args: vec!["${Arg One}".into()], position: span(6, 4, 6, 29) },
                        kw_call("Log", 7),
                    ],
                }],
            },
            SectionModel::Variables {
                header: header("Variables", 8),
                body: vec![VariableItemModel::Variable { name: "${MY_VAR}".into(), value: vec!["value".into()], position: span(9, 0, 9, 18) }],
            },
        ],
    }
}

#[test]
fn goto_local_keyword_definition() {
    let file = goto_file();
    let pos = Position { line: 2, character: 4 };
    assert_eq!(token_at_position(&file, pos), Some(DefinitionToken::Keyword("My Keyword".into())));
    let loc = goto_definition(&file, &None, "file:///test.robot", pos).unwrap();
    assert_eq!(loc.uri, "file:///test.robot");
    assert_eq!(loc.range.start.line, 5);
    // The end of the name still counts; one past it does not.
    assert!(token_at_position(&file, Position { line: 2, character: 14 }).is_some());
    assert!(token_at_position(&file, Position { line: 2, character: 15 }).is_none());
}

#[test]
fn goto_no_definition_for_section_header() {
    let file = goto_file();
    assert!(goto_definition(&file, &None, "file:///test.robot", Position { line: 0, character: 0 }).is_none());
}

#[test]
fn goto_namespace_keyword() {
    let file = goto_file();
    let pos = Position { line: 3, character: 6 };
    assert!(goto_definition(&file, &None, "file:///test.robot", pos).is_none());
    let found = Some(KeywordSourceModel { source: Some("/lib/Ext.robot".into()), line_no: Some(12) });
    let loc = goto_definition(&file, &found, "file:///test.robot", pos).unwrap();
    assert_eq!(loc.uri, "file:///lib/Ext.robot");
    assert_eq!(loc.range, range(11, 0, 11, 0));
    let no_line = Some(KeywordSourceModel { source: Some("/lib/Ext.robot".into()), line_no: None });
    assert_eq!(goto_definition(&file, &no_line, "file:///t.robot", pos).unwrap().range, range(0, 0, 0, 0));
    let no_source = Some(KeywordSourceModel { source: None, line_no: Some(3) });
    assert!(goto_definition(&file, &no_source, "file:///t.robot", pos).is_none());
}

#[test]
fn goto_variable_definition() {
    let file = goto_file();
    let pos = Position { line: 9, character: 3 };
    assert_eq!(token_at_position(&file, pos), Some(DefinitionToken::Variable("my_var".into())));
    let loc = goto_definition(&file, &None, "file:///test.robot", pos).unwrap();
    assert_eq!(loc.range, range(9, 0, 9, 18));
}

fn ns_log() -> KeywordModel {
    KeywordModel {
        name: "Log".into(),
        library_name: Some("BuiltIn".into()),
        doc: "Logs a message.".into(),
        args: vec!["message".into(), "level".into()],
        deprecated: false,
    }
}

#[test]
fn completions_prefixes_namespace_and_locals() {
    let file = goto_file();
    let items = keyword_completions(&file, &vec![ns_log()]);
    let labels: Vec<&str> = items.iter().map(|c| c.label.as_str()).collect();
    assert_eq!(labels, vec!["Given ", "When ", "Then ", "And ", "But ", "BuiltIn.Log", "My Keyword"]);
    assert_eq!(items[0].kind, Some(CompletionItemKind::Keyword));
    assert_eq!(items[0].insert_text.as_deref(), Some("Given "));
    let log = &items[5];
    assert_eq!(log.detail.as_deref(), Some("BuiltIn"));
    assert_eq!(log.documentation.as_deref(), Some("Logs a message."));
    assert_eq!(log.insert_text.as_deref(), Some("Log    ${1:message}    ${2:level}"));
    assert_eq!(log.insert_text_format, Some(InsertTextFormat::Snippet));
    assert_eq!(log.deprecated, Some(false));
    let local = &items[6];
    assert_eq!(local.detail.as_deref(), Some("local keyword"));
    assert_eq!(local.insert_text.as_deref(), Some("My Keyword    ${1:${Arg One}}"));
    assert!(local.deprecated.is_none());
}

#[test]
fn completions_skip_local_keyword_already_offered() {
    let file = goto_file();
    let ns = KeywordModel {
        name: "My Keyword".into(),
        library_name: None,
        doc: String::new(),
        args: vec![],
        deprecated: true,
    };
    let items = keyword_completions(&file, &vec![ns]);
    assert_eq!(items.len(), 6);
    assert_eq!(items[5].label, "My Keyword");
    assert_eq!(items[5].detail.as_deref(), Some(""));
    assert!(items[5].documentation.is_none());
    assert_eq!(items[5].insert_text.as_deref(), Some("My Keyword"));
    assert_eq!(items[5].deprecated, Some(true));
}

#[test]
fn signature_from_namespace_and_local() {
    let file = goto_file();
    let h = build_signature(&Some(ns_log()), &file, "Log", 1).unwrap();
    assert_eq!(h.signatures.len(), 1);
    assert_eq!(h.signatures[0].label, "Log    message    level");
    assert_eq!(h.signatures[0].documentation.as_deref(), Some("Logs a message."));
    assert_eq!(h.active_signature, Some(0));
    assert_eq!(h.active_parameter, Some(1));
    // Past the last argument the last parameter is active.
    assert_eq!(build_signature(&Some(ns_log()), &file, "Log", 7).unwrap().active_parameter, Some(1));
    let local = build_signature(&None, &file, "My Keyword", 0).unwrap();
    assert_eq!(local.signatures[0].label, "My Keyword    ${Arg One}");
    assert!(local.signatures[0].documentation.is_none());
    let params = local.signatures[0].parameters.as_ref().unwrap();
    assert_eq!(params.len(), 1);
    assert_eq!(params[0].label, "${Arg One}");
    assert!(build_signature(&None, &file, "Unknown", 0).is_none());
}

#[test]
fn inlay_hints_for_local_keyword() {
    let file = FileModel {
        sections: vec![
            SectionModel::Keywords {
                header: header("Keywords", 0),
                body: vec![BlockModel {
                    name: "My Keyword".into(),
                    position: span(1, 0, 1, 10),
                    body: vec![BodyItemModel::Arguments {
                        args: vec!["${name}".into(), "${value}".into()],
                        position: span(2, 4, 2, 40),
                    }],
                }],
            },
            SectionModel::TestCases {
                header: header("Test Cases", 3),
                body: vec![BlockModel {
                    name: "My Test".into(),
                    position: span(4, 0, 4, 7),
                    body: vec![BodyItemModel::KeywordCall {
                        name: "My Keyword".into(),
                        args: vec!["hello".into(), "value=world".into()],
                        assigns: vec![],
                        variables: vec![],
                        position: span(5, 4, 5, 40),
                    }],
                }],
            },
        ],
    };
    let full = range(0, 0, 9999, 9999);
    let hints = inlay_hints(&file, &vec![], full);
    assert_eq!(hints.len(), 1);
    assert_eq!(hints[0].label, "name:");
    // Column 4, the name's 10 bytes, one separator.
    assert_eq!(hints[0].position, Position { line: 5, character: 18 });
    assert_eq!(hints[0].kind, Some(InlayHintKind::Parameter));
    // Parameters the namespace gives win; a call outside the range gets none.
    let ns = vec![("My Keyword".to_string(), vec!["@{first}".to_string(), "${second}".to_string()])];
    let hints = inlay_hints(&file, &ns, full);
    assert_eq!(hints[0].label, "first:");
    assert!(inlay_hints(&file, &ns, range(0, 0, 1, 0)).is_empty());
}

#[test]
fn semantic_tokens_of_a_keyword() {
    // *** Keywords ***
    // My Keyword
    //     [Tags]    t
    //     ${x} =    Get    ${y}
    //     FOR    ${i}    IN    a
    //         BREAK
    //     END
    // # note
    let file = FileModel {
        sections: vec![SectionModel::Keywords {
            header: header("Keywords", 0),
            body: vec![BlockModel {
                name: "My Keyword".into(),
                position: span(1, 0, 1, 10),
                body: vec![
                    BodyItemModel::Tags { kind: TagsKind::Inline, position: span(2, 4, 2, 15) },
                    BodyItemModel::KeywordCall {
                        name: "Get".into(),
                        args: vec!["${y}".into()],
                        assigns: vec!["${x} =".into()],
                        variables: vec![VariableRefModel { text: "${y}".into(), start: 0, end: 4, column: 21 }],
                        position: span(3, 4, 3, 25),
                    },
                    BodyItemModel::Loop {
                        kind: LoopKind::For,
                        variables: vec!["${i}".into()],
                        position: span(4, 4, 6, 7),
                        body: vec![BodyItemModel::Statement { kind: StatementKind::Break, position: span(5, 8, 5, 13) }],
                    },
                    BodyItemModel::Comment { value: "# note".into(), position: span(7, 0, 7, 6) },
                ],
            }],
        }],
    };
    let raw = collect_file(&file);
    let got: Vec<(u32, u32, u32, u32, u32)> =
        raw.iter().map(|t| (t.line, t.start_char, t.length, t.token_type, t.token_modifiers)).collect();
    assert_eq!(
        got,
        vec![
            (0, 0, 8, 0, 0),
            (1, 0, 10, 1, 1),
            (2, 4, 4, 3, 0),
            (3, 4, 6, 2, 0),
            (3, 14, 3, 1, 0),
            (3, 0, 4, 2, 0),
            (4, 4, 3, 3, 0),
            (4, 4, 4, 2, 0),
            (5, 8, 5, 3, 0),
            (7, 0, 6, 4, 0),
        ]
    );
    let encoded = semantic_tokens(&file);
    assert_eq!(encoded.data.len(), raw.len());
    // The variable reference at column 0 of line 3 comes first on its line.
    assert_eq!((encoded.data[3].delta_line, encoded.data[3].delta_start), (1, 0));
}

#[test]
fn code_lenses_on_tests_and_tasks() {
    let lenses = code_lens(&sample(), "file:///s.robot");
    assert_eq!(lenses.len(), 2);
    assert_eq!(lenses[0].range, range(5, 0, 5, 0));
    let run = lenses[0].command.as_ref().unwrap();
    assert_eq!(run.command, "robotcode.runTest");
    assert_eq!(run.arguments.as_ref().unwrap(), &vec!["file:///s.robot".to_string(), "My Test".to_string()]);
    assert_eq!(lenses[1].command.as_ref().unwrap().command, "robotcode.debugTest");
}

#[test]
fn position_in_ast_includes_both_ends() {
    let p = span(1, 4, 1, 12);
    assert!(position_in_ast(Position { line: 1, character: 6 }, &p));
    assert!(position_in_ast(Position { line: 1, character: 12 }, &p));
    assert!(!position_in_ast(Position { line: 0, character: 6 }, &p));
    assert!(!position_in_ast(Position { line: 1, character: 3 }, &p));
    assert!(!position_in_ast(Position { line: 1, character: 13 }, &p));
}

#[test]
fn signature_help_at_call_arguments() {
    let file = FileModel {
        sections: vec![SectionModel::TestCases {
            header: header("Test Cases", 0),
            body: vec![BlockModel {
                name: "T".into(),
                position: span(1, 0, 1, 1),
                body: vec![BodyItemModel::KeywordCall {
                    name: "Log".into(),
                    args: vec!["a".into(), "b".into()],
                    assigns: vec![],
                    variables: vec![],
                    position: span(2, 4, 2, 20),
                }],
            }],
        }],
    };
    // The name ends at column 7; each argument is taken as 12 columns wide.
    assert_eq!(keyword_call_at(&file, Position { line: 2, character: 10 }), Some(("Log".to_string(), 0)));
    assert_eq!(keyword_call_at(&file, Position { line: 2, character: 25 }), Some(("Log".to_string(), 1)));
    assert_eq!(keyword_call_at(&file, Position { line: 2, character: 7 }), None);
    let h = signature_help(&file, &Some(ns_log()), Position { line: 2, character: 25 }).unwrap();
    assert_eq!(h.active_parameter, Some(1));
    assert!(signature_help(&file, &None, Position { line: 2, character: 25 }).is_none());
}
