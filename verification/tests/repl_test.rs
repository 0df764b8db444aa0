use std::collections::HashMap;

use robotcode::repl::{
    plan_line, repl_method, EvalOutcome, History, LinePlan, ReplConfig, ReplMethod, ReplOutcome,
    ReplRequest, ReplResult, ServerState,
};

#[test]
fn push_and_retrieve() {
    let mut h = History::new();
    let i1 = h.push("Log  hello".into(), Some("None".into()), false);
    let i2 = h.push("Fail  boom".into(), None, true);
    assert_eq!(i1, 1);
    assert_eq!(i2, 2);
    let entries = h.entries();
    assert_eq!(entries.len(), 2);
    assert_eq!(entries[0].expression, "Log  hello");
    assert!(!entries[0].error);
    assert!(entries[1].error);
}

#[test]
fn capacity_eviction() {
    let mut h = History::with_capacity(3);
    for i in 0..5 {
        h.push(format!("kw{i}"), None, false);
    }
    let entries = h.entries();
    assert_eq!(entries.len(), 3);
    assert_eq!(entries[0].expression, "kw2");
    assert_eq!(entries[2].expression, "kw4");
    assert_eq!(entries[2].index, 5);
}

#[test]
fn clear() {
    let mut h = History::new();
    h.push("Log  hi".into(), None, false);
    h.clear();
    assert!(h.entries().is_empty());
    assert_eq!(h.push("again".into(), None, false), 1);
}

#[test]
fn history_clear() {
    let mut state = ServerState::new(ReplConfig::default());
    state.finish_evaluate("Log  hi".into(), EvalOutcome::Done { result: None, error: false }).unwrap();
    assert!(matches!(state.handle(ReplRequest::HistoryClear), ReplOutcome::Reply(ReplResult::Empty)));
    assert!(state.history().entries().is_empty());
}

#[test]
fn complete_by_prefix() {
    let mut state = ServerState::new(ReplConfig::default());
    for k in ["Log  hello", "Log  world", "Get Length  ${x}"] {
        state.finish_evaluate(k.into(), EvalOutcome::Done { result: None, error: false }).unwrap();
    }
    match state.handle(ReplRequest::Complete { prefix: "log".into() }) {
        ReplOutcome::Reply(ReplResult::Completions(m)) => {
            assert_eq!(m.len(), 2);
            assert!(m.iter().all(|m| m.starts_with("Log")));
        }
        o => panic!("{o:?}"),
    }
}

#[test]
fn method_not_found_returns_32601() {
    let mut state = ServerState::new(ReplConfig::default());
    match state.handle(ReplRequest::Unknown("no_such_method".into())) {
        ReplOutcome::Fail(code, msg) => {
            assert_eq!(code, -32601);
            assert_eq!(msg, "Method not found: no_such_method");
        }
        o => panic!("{o:?}"),
    }
}

#[test]
fn invalid_params_returns_32602() {
    let mut state = ServerState::new(ReplConfig::default());
    let req = ReplRequest::Evaluate { keyword: String::new(), variables: HashMap::new(), python_path: vec![] };
    match state.handle(req) {
        ReplOutcome::Fail(code, _) => assert_eq!(code, -32602),
        o => panic!("{o:?}"),
    }
}

#[test]
fn evaluate_runs_with_configured_python_and_records_history() {
    let mut state = ServerState::new(ReplConfig { python: Some("/opt/py".into()) });
    let req = ReplRequest::Evaluate { keyword: "Log  x".into(), variables: HashMap::new(), python_path: vec!["/p".into()] };
    match state.handle(req) {
        ReplOutcome::RunEval(r, py) => {
            assert_eq!(r.keyword, "Log  x");
            assert_eq!(r.python_path, vec!["/p".to_string()]);
            assert_eq!(py, "/opt/py");
        }
        o => panic!("{o:?}"),
    }
    let err = state.finish_evaluate("Log  x".into(), EvalOutcome::Failed("boom".into())).unwrap_err();
    assert_eq!(err, (-32603, "boom".to_string()));
    let entries = state.history().entries();
    assert_eq!(entries.len(), 1);
    assert!(entries[0].error);
    assert!(entries[0].result.is_none());
    let mut plain = ServerState::new(ReplConfig::default());
    let req = ReplRequest::Evaluate { keyword: "K".into(), variables: HashMap::new(), python_path: vec![] };
    match plain.handle(req) {
        ReplOutcome::RunEval(_, py) => assert_eq!(py, "python3"),
        o => panic!("{o:?}"),
    }
}

#[test]
fn method_names_and_line_plans() {
    assert_eq!(repl_method("evaluate"), ReplMethod::Evaluate);
    assert_eq!(repl_method("history/clear"), ReplMethod::HistoryClear);
    assert_eq!(repl_method("nope"), ReplMethod::Unknown);
    assert_eq!(plan_line(ReplMethod::Shutdown, true, true), LinePlan::RespondAndStop);
    assert_eq!(plan_line(ReplMethod::Shutdown, false, true), LinePlan::Stop);
    assert_eq!(plan_line(ReplMethod::History, false, true), LinePlan::Silent);
    assert_eq!(plan_line(ReplMethod::Unknown, true, false), LinePlan::Respond);
}

#[test]
fn complete_matches_unicode_case_insensitively() {
    let mut state = ServerState::new(ReplConfig::default());
    for k in ["Äpfel  zählen", "äpfel  essen", "Birnen"] {
        state.finish_evaluate(k.into(), EvalOutcome::Done { result: None, error: false }).unwrap();
    }
    match state.handle(ReplRequest::Complete { prefix: "ÄPF".into() }) {
        ReplOutcome::Reply(ReplResult::Completions(m)) => {
            assert_eq!(m, vec!["Äpfel  zählen".to_string(), "äpfel  essen".to_string()]);
        }
        o => panic!("{o:?}"),
    }
}
