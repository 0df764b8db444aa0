use robotcode::formatting::{format_document, format_rf, normalize_header, split_rf_separators};
use robotcode::handlers::{debug_lens, make_symbol, make_text_replacement, region, run_lens, setting_completions};
use robotcode::jsonrpc::{RpcMethod, Transport};
use robotcode::keywords::{extract_keyword_name_from_diagnostic, format_signature_label, levenshtein, normalize_var_name, rank_suggestions};
use robotcode::lsp::{position_in_range, Position, Range};
use robotcode::lsp_items::{CompletionItemKind, FoldingRangeKind, InsertTextFormat, SymbolKind};
use robotcode::semantic::{encode_semantic_tokens, legend, push, push_comment, RawToken};

#[test]
fn transport_display_stdio() {
    assert_eq!(Transport::Stdio.to_string(), "stdio");
}

#[test]
fn transport_display_tcp() {
    assert_eq!(Transport::Tcp(6006).to_string(), "tcp:6006");
    assert_eq!(Transport::Tcp(0).to_string(), "tcp:0");
    assert_eq!(Transport::Tcp(65535).to_string(), "tcp:65535");
}

#[test]
fn transport_equality() {
    assert_eq!(Transport::Tcp(1234), Transport::Tcp(1234));
    assert_ne!(Transport::Tcp(1234), Transport::Tcp(5678));
    assert_ne!(Transport::Stdio, Transport::Tcp(1234));
}

struct PingHandler;

impl RpcMethod for PingHandler {
    fn method_name() -> &'static str {
        "$/ping"
    }
}

#[test]
fn rpc_method_name() {
    assert_eq!(PingHandler::method_name(), "$/ping");
}

#[test]
fn test_levenshtein_identical() {
    assert_eq!(levenshtein("log", "log"), 0);
}

#[test]
fn test_levenshtein_one_edit() {
    assert_eq!(levenshtein("log", "logs"), 1);
}

#[test]
fn test_typo_suggestion() {
    assert_eq!(levenshtein("keyword", "keywrod"), 2);
    let similar = levenshtein("logmessage", "log message");
    assert!(similar <= 2, "Close names should have distance ≤ 2");
}

#[test]
fn levenshtein_is_symmetric_and_bounded() {
    assert_eq!(levenshtein("kitten", "sitting"), 3);
    assert_eq!(levenshtein("sitting", "kitten"), 3);
    assert_eq!(levenshtein("", "abc"), 3);
    assert_eq!(levenshtein("äbc", "abc"), 1);
}

#[test]
fn keyword_name_from_diagnostic() {
    assert_eq!(
        extract_keyword_name_from_diagnostic("No keyword with name 'Log Many Things' found."),
        Some("Log Many Things".to_string())
    );
    assert_eq!(extract_keyword_name_from_diagnostic("no quotes here"), None);
    assert_eq!(extract_keyword_name_from_diagnostic("just 'one quote"), None);
}

#[test]
fn test_format_normalizes_header() {
    let src = "***Settings***\nLibrary    Collections\n";
    let result = format_rf(src);
    assert!(result.contains("*** Settings ***"), "Header should be normalized");
}

#[test]
fn test_format_normalizes_separators() {
    let src = "*** Keywords ***\nMy Keyword\n    Log  hello  world\n";
    let result = format_rf(src);
    assert!(result.contains("Log    hello"), "Should normalize separators to 4 spaces");
}

#[test]
fn test_format_ends_with_newline() {
    let src = "*** Keywords ***\nMy Keyword\n    Log    hi";
    let result = format_rf(src);
    assert!(result.ends_with('\n'));
}

#[test]
fn test_format_collapses_blank_lines() {
    let src = "*** Keywords ***\nMy Keyword\n    Log    hi\n\n\n\n*** Test Cases ***\n";
    let result = format_rf(src);
    assert!(!result.contains("\n\n\n"), "Should not have 3+ consecutive blank lines");
}

#[test]
fn test_format_no_change_when_already_formatted() {
    let src = "*** Settings ***\nLibrary    Collections\n\n*** Keywords ***\nMy Keyword\n    Log    hi\n";
    let result = format_rf(src);
    assert!(!result.is_empty());
    assert_eq!(result, src);
}

#[test]
fn format_exact_output() {
    let src = "***Keywords***\nA\n\tLog  x \nB\n    Log    y\n*** Test Cases ***\n\n\nT\n    Run  it";
    assert_eq!(
        format_rf(src),
        "*** Keywords ***\nA\n    Log    x\n\nB\n    Log    y\n\n*** Test Cases ***\n\nT\n    Run    it\n"
    );
    assert_eq!(format_rf(""), "\n");
}

#[test]
fn format_single_space_indent() {
    let src = "*** Keywords ***\nK\n Log    hi\n";
    let once = format_rf(src);
    assert_eq!(once, "*** Keywords ***\nK\n    Log    hi\n");
    assert_eq!(format_rf(&once), once);
}

#[test]
fn format_document_end_in_utf16_units() {
    let edits = format_document("\u{e9}").unwrap();
    assert_eq!(edits[0].range.end, Position { line: 0, character: 1 });
    let edits = format_document("x\n\u{1F600}").unwrap();
    assert_eq!(edits[0].range.end, Position { line: 1, character: 2 });
}

#[test]
fn test_split_separators() {
    assert_eq!(split_rf_separators("Log    hello    world"), vec!["Log", "hello", "world"]);
    assert_eq!(split_rf_separators("Log  hi"), vec!["Log", "hi"]);
    assert_eq!(split_rf_separators("Log\thi"), vec!["Log", "hi"]);
    assert_eq!(split_rf_separators("Single"), vec!["Single"]);
}

#[test]
fn test_normalize_header() {
    assert_eq!(normalize_header("***Settings***"), "*** Settings ***");
    assert_eq!(normalize_header("*** Test Cases ***"), "*** Test Cases ***");
    assert_eq!(normalize_header("*** Keywords ***"), "*** Keywords ***");
}

#[test]
fn test_format_document_returns_none_when_unchanged() {
    let src = "*** Settings ***\nLibrary    Collections\n";
    let result = format_document(src);
    assert!(result.is_none());
}

#[test]
fn format_document_replaces_whole_document() {
    let src = "***Settings***\nLibrary  Collections\nÄ";
    let edits = format_document(src).unwrap();
    assert_eq!(edits.len(), 1);
    assert_eq!(edits[0].range.start, Position { line: 0, character: 0 });
    // The end column counts the UTF-16 code units of the last line.
    assert_eq!(edits[0].range.end, Position { line: 2, character: 1 });
    assert_eq!(edits[0].new_text, "*** Settings ***\nLibrary    Collections\nÄ\n");
}

#[test]
fn goto_test_normalize_var_name() {
    assert_eq!(normalize_var_name("${MY_VAR}"), "my_var");
    assert_eq!(normalize_var_name("@{List Items}"), "list_items");
}

#[test]
fn highlight_test_normalize_var_name() {
    assert_eq!(normalize_var_name("${MY_VAR}"), "my_var");
    assert_eq!(normalize_var_name("@{my list}"), "my_list");
    assert_eq!(normalize_var_name("${X}"), "x");
}

#[test]
fn rename_test_normalize_var_name() {
    assert_eq!(normalize_var_name("${MY_VAR}"), "my_var");
    assert_eq!(normalize_var_name("@{My List}"), "my_list");
}

#[test]
fn test_format_signature_label() {
    assert_eq!(
        format_signature_label("My KW", &["${a}".to_string(), "${b}".to_string()]),
        "My KW    ${a}    ${b}"
    );
    assert_eq!(format_signature_label("Bare KW", &[]), "Bare KW");
}

#[test]
fn test_position_in_range() {
    let r = Range { start: Position { line: 1, character: 4 }, end: Position { line: 1, character: 12 } };
    assert!(position_in_range(Position { line: 1, character: 6 }, r));
    assert!(!position_in_range(Position { line: 0, character: 6 }, r));
    assert!(!position_in_range(Position { line: 1, character: 3 }, r));
    assert!(!position_in_range(Position { line: 1, character: 13 }, r));
}

#[test]
fn test_legend_types_count() {
    let l = legend();
    assert_eq!(l.token_types.len(), 6);
    assert_eq!(l.token_modifiers.len(), 2);
    assert_eq!(l.token_types[0], "namespace");
    assert_eq!(l.token_modifiers[1], "deprecated");
}

fn tok(line: u32, start_char: u32, length: u32, token_type: u32) -> RawToken {
    RawToken { line, start_char, length, token_type, token_modifiers: 0 }
}

#[test]
fn semantic_tokens_sorted_and_delta_encoded() {
    let raw = vec![tok(3, 4, 3, 1), tok(0, 0, 16, 0), tok(3, 4, 5, 2), tok(1, 0, 7, 3), tok(3, 10, 2, 2)];
    let t = encode_semantic_tokens(&raw);
    let d: Vec<(u32, u32, u32, u32)> = t.data.iter().map(|s| (s.delta_line, s.delta_start, s.length, s.token_type)).collect();
    assert_eq!(d, vec![(0, 0, 16, 0), (1, 0, 7, 3), (2, 4, 3, 1), (0, 0, 5, 2), (0, 6, 2, 2)]);
    // Decoding the deltas gives the absolute, sorted positions.
    let (mut line, mut ch) = (0u32, 0u32);
    let mut positions = Vec::new();
    for s in &t.data {
        line += s.delta_line;
        if s.delta_line > 0 { ch = s.delta_start } else { ch += s.delta_start }
        positions.push((line, ch));
    }
    assert_eq!(positions, vec![(0, 0), (1, 0), (3, 4), (3, 4), (3, 10)]);
}

#[test]
fn push_skips_empty_tokens() {
    let mut out = Vec::new();
    push(&mut out, 1, 2, 0, 1, 0);
    assert!(out.is_empty());
    push(&mut out, 1, 2, 3, 1, 1);
    push_comment(&mut out, "# é", 4, 0);
    push_comment(&mut out, "", 5, 0);
    assert_eq!(out, vec![RawToken { line: 1, start_char: 2, length: 3, token_type: 1, token_modifiers: 1 }, RawToken { line: 4, start_char: 0, length: 4, token_type: 4, token_modifiers: 0 }]);
}

#[test]
fn lsp_item_builders() {
    let f = region(2, 9);
    assert_eq!((f.start_line, f.end_line, f.kind), (2, 9, Some(FoldingRangeKind::Region)));
    let r = Range { start: Position { line: 1, character: 0 }, end: Position { line: 4, character: 3 } };
    let s = make_symbol("My Keyword", SymbolKind::Function, r);
    assert_eq!(s.name, "My Keyword");
    assert_eq!(s.selection_range, r);
    assert!(s.children.is_none());
    let items = setting_completions();
    assert_eq!(items.len(), 13);
    assert_eq!(items[0].label, "Library");
    assert_eq!(items[12].insert_text.as_deref(), Some("Metadata    ${1:name}    ${2:value}"));
    assert!(items.iter().all(|i| i.kind == Some(CompletionItemKind::Keyword) && i.insert_text_format == Some(InsertTextFormat::Snippet)));
    let e = make_text_replacement("file:///a.robot", r, "X");
    let changes = e.changes.unwrap();
    assert_eq!(changes.len(), 1);
    assert_eq!(changes[0].0, "file:///a.robot");
    assert_eq!(changes[0].1[0].new_text, "X");
}

#[test]
fn suggestions_ranked_by_distance_without_repeats() {
    let cands = vec![
        ("Log Many".to_string(), "logmany".to_string()),
        ("Log".to_string(), "log".to_string()),
        ("Log".to_string(), "log".to_string()),
        ("Should Be Equal".to_string(), "shouldbeequal".to_string()),
        ("Logs".to_string(), "logs".to_string()),
    ];
    assert_eq!(rank_suggestions("logg", cands.clone(), 5), vec!["Log", "Logs", "Log Many"]);
    assert_eq!(rank_suggestions("logg", cands.clone(), 1), vec!["Log"]);
    assert!(rank_suggestions("zzzzzzzzzzzz", cands, 5).is_empty());
}

#[test]
fn test_lenses_point_at_the_test_line() {
    let r = Range { start: Position { line: 7, character: 3 }, end: Position { line: 9, character: 0 } };
    let run = run_lens("file:///s.robot", "My Test", r);
    assert_eq!(run.range.start, Position { line: 7, character: 0 });
    assert_eq!(run.range.end, Position { line: 7, character: 0 });
    let c = run.command.unwrap();
    assert_eq!(c.title, "▶ Run Test");
    assert_eq!(c.command, "robotcode.runTest");
    assert_eq!(c.arguments.unwrap(), vec!["file:///s.robot".to_string(), "My Test".to_string()]);
    let dbg = debug_lens("file:///s.robot", "My Test", r).command.unwrap();
    assert_eq!(dbg.title, "🐛 Debug Test");
    assert_eq!(dbg.command, "robotcode.debugTest");
}

#[test]
fn levenshtein_metric_on_examples() {
    let words = ["kitten", "sitting", "", "log", "Log To Console", "sit"];
    for a in words {
        for b in words {
            assert_eq!(levenshtein(a, b), levenshtein(b, a));
            assert_eq!(levenshtein(a, b) == 0, a == b);
            for c in words {
                assert!(levenshtein(a, c) <= levenshtein(a, b) + levenshtein(b, c));
            }
        }
    }
    assert_eq!(levenshtein("kitten", "sitting"), 3);
}

#[test]
fn format_rf_writes_every_header_canonically() {
    let out = format_rf("  ***   Test Cases***\n*x\n    *** Keywords ***  \n");
    assert_eq!(out, "*** Test Cases ***\n*x\n\n*** Keywords ***\n");
    for line in out.lines() {
        if line.starts_with('*') && line.contains("***") {
            assert_eq!(line, normalize_header(line));
        }
    }
}
