use robotcode::analysis::{build_report, is_robot_file, make_error_diagnostic, AnalysisCache, AnalyzeArgs, FileDiagnostics, OutputFormat};
use robotcode::bridge::{bridge_line_reply, bridge_reply, default_true, restart_plan, BridgeReply, MockResponses, RestartPlan};
use robotcode::lsp::Position;
use robotcode::lsp_items::DiagnosticSeverity;

fn args(fail_on_error: bool, fail_on_warning: bool) -> AnalyzeArgs {
    AnalyzeArgs { paths: vec![], python: None, output_format: OutputFormat::Text, fail_on_error, fail_on_warning }
}

#[test]
fn analyze_empty_paths_returns_zero_files() {
    let r = build_report(&args(true, true), vec![]);
    assert_eq!(r.files_analyzed, 0);
    assert_eq!(r.errors, 0);
    assert_eq!(r.warnings, 0);
    assert_eq!(r.exit_code, 0);
}

#[test]
fn report_counts_and_exit_codes() {
    let mut warn = make_error_diagnostic("w", 3);
    warn.severity = Some(DiagnosticSeverity::Warning);
    let files = || {
        vec![
            FileDiagnostics { path: "/a.robot".into(), diagnostics: vec![make_error_diagnostic("e1", 0), warn.clone()] },
            FileDiagnostics { path: "/b.robot".into(), diagnostics: vec![make_error_diagnostic("e2", 1)] },
        ]
    };
    let r = build_report(&args(true, true), files());
    assert_eq!((r.files_analyzed, r.errors, r.warnings, r.exit_code), (2, 2, 1, 1));
    // Warnings fail the run only when no error was found.
    assert_eq!(build_report(&args(false, true), files()).exit_code, 0);
    assert_eq!(build_report(&args(false, false), files()).exit_code, 0);
    let only_warn = || vec![FileDiagnostics { path: "/c.robot".into(), diagnostics: vec![warn.clone()] }];
    assert_eq!(build_report(&args(true, false), only_warn()).exit_code, 0);
    assert_eq!(build_report(&args(true, true), only_warn()).exit_code, 2);
    assert_eq!(build_report(&args(false, true), only_warn()).exit_code, 2);
}

#[test]
fn error_diagnostic_at_line_start() {
    let d = make_error_diagnostic("Unrecognized section", 7);
    assert_eq!(d.range.start, Position { line: 7, character: 0 });
    assert_eq!(d.range.end, Position { line: 7, character: 0 });
    assert_eq!(d.severity, Some(DiagnosticSeverity::Error));
    assert_eq!(d.message, "Unrecognized section");
}

#[test]
fn robot_files_by_extension() {
    assert!(is_robot_file("/x/suite.robot"));
    assert!(is_robot_file("res/common.resource"));
    assert!(!is_robot_file("/x/notes.txt"));
    assert!(!is_robot_file("/x/.robot"));
    assert!(!is_robot_file("/x/robot"));
    assert_eq!(AnalysisCache::new("/tmp/c.json".into()).path, "/tmp/c.json");
}

#[test]
fn mock_responses_are_handed_out_once_in_order() {
    let mut m = MockResponses::with_responses(vec![
        ("evaluate".to_string(), vec![serde_json::Value::from(1), serde_json::Value::Bool(true)]),
    ]);
    assert!(default_true());
    assert_eq!(m.take("evaluate").unwrap(), serde_json::Value::from(1));
    assert_eq!(m.take("evaluate").unwrap(), serde_json::Value::Bool(true));
    assert_eq!(m.take("evaluate").unwrap_err(), "MockBridge: response queue exhausted for \"evaluate\"");
    assert_eq!(m.take("other").unwrap_err(), "MockBridge: no response registered for \"other\"");
    let mut e = MockResponses::empty();
    assert_eq!(e.take("a\"b").unwrap_err(), "MockBridge: no response registered for \"a\\\"b\"");
}

#[test]
fn bridge_replies_go_to_their_waiters() {
    let (id, r) = bridge_reply(Some(7), None, Some(serde_json::Value::from(3)));
    assert_eq!(id, 7);
    assert!(matches!(r, BridgeReply::Result(v) if v == serde_json::Value::from(3)));
    let (id, r) = bridge_reply(None, Some((None, None)), Some(serde_json::Value::Null));
    assert_eq!(id, u64::MAX);
    match r {
        BridgeReply::Python { code, message } => {
            assert_eq!(code, -32000);
            assert_eq!(message, "unknown error");
        }
        other => panic!("{other:?}"),
    }
    let (_, r) = bridge_reply(Some(1), Some((Some(-5), Some("boom".to_string()))), None);
    assert!(matches!(r, BridgeReply::Python { code: -5, ref message } if message == "boom"));
    let (_, r) = bridge_reply(Some(1), None, None);
    assert!(matches!(r, BridgeReply::Malformed));
}

#[test]
fn restart_plans() {
    assert_eq!(restart_plan(None), RestartPlan::Start);
    assert_eq!(restart_plan(Some(true)), RestartPlan::Ready);
    assert_eq!(restart_plan(Some(false)), RestartPlan::RestartAfterBackOff);
}

#[test]
fn bridge_lines_are_parsed_and_routed() {
    let (id, r) = bridge_line_reply(r#"{"id": 4, "result": [1, 2]}"#).unwrap();
    assert_eq!(id, 4);
    let expected = serde_json::Value::Array(vec![serde_json::Value::from(1), serde_json::Value::from(2)]);
    assert!(matches!(r, BridgeReply::Result(v) if v == expected));
    let (id, r) = bridge_line_reply(r#"{"id": 5, "error": {"code": -1, "message": "boom"}, "result": 1}"#).unwrap();
    assert_eq!(id, 5);
    assert!(matches!(r, BridgeReply::Python { code: -1, ref message } if message == "boom"));
    let (id, r) = bridge_line_reply(r#"{"error": {}}"#).unwrap();
    assert_eq!(id, u64::MAX);
    assert!(matches!(r, BridgeReply::Python { code: -32000, ref message } if message == "unknown error"));
    assert!(matches!(bridge_line_reply(r#"{"id": 1}"#), Some((1, BridgeReply::Malformed))));
    assert!(bridge_line_reply("not json").is_none());
}
