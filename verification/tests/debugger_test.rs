use std::collections::HashMap;

use robotcode::dap_types::{
    default_host, DapMessage, EvaluateArguments, ProtocolEvent, ProtocolRequest, ProtocolResponse, LaunchArguments, PauseArguments, ScopesArguments,
    SetBreakpointsArguments, SetVariableArguments, Source, SourceBreakpoint, StackTraceArguments,
    VariablesArguments,
};
use robotcode::debugger::{dap_command, DapArg, DapBody, DapCommand, DapOutcome, DapRequest, RfDebugger};
use robotcode::launcher::{AttachConfig, LaunchConfig};
use robotcode::protocol::{DapProtocol, HeaderError, HeaderReader, HeaderStep};
use robotcode::dap_server::DapServer;
use robotcode::decimal::IntErrorKind;

#[test]
fn launch_config_python_executable_default() {
    let cfg = LaunchConfig {
        program: "/tests/suite.robot".to_string(),
        args: vec![],
        cwd: None,
        python: None,
        env: HashMap::new(),
    };
    assert_eq!(cfg.python_executable(), "python3");
}

#[test]
fn launch_config_python_executable_custom() {
    let cfg = LaunchConfig {
        program: "/tests/suite.robot".to_string(),
        args: vec![],
        cwd: None,
        python: Some("/usr/bin/python3.11".to_string()),
        env: HashMap::new(),
    };
    assert_eq!(cfg.python_executable(), "/usr/bin/python3.11");
}

#[test]
fn launch_config_resolved_cwd_explicit() {
    let cfg = LaunchConfig {
        program: "/tests/suite.robot".to_string(),
        args: vec![],
        cwd: Some("/workspace".to_string()),
        python: None,
        env: HashMap::new(),
    };
    assert_eq!(cfg.resolved_cwd(), "/workspace");
}

#[test]
fn launch_config_resolved_cwd_from_program() {
    let cfg = LaunchConfig {
        program: "/tests/suite.robot".to_string(),
        args: vec![],
        cwd: None,
        python: None,
        env: HashMap::new(),
    };
    assert_eq!(cfg.resolved_cwd(), "/tests");
}

#[test]
fn launch_config_resolved_cwd_without_parent() {
    let cfg = LaunchConfig { program: "/".to_string(), args: vec![], cwd: None, python: None, env: HashMap::new() };
    assert_eq!(cfg.resolved_cwd(), ".");
}

#[test]
fn attach_config_default() {
    let cfg = AttachConfig::default();
    assert_eq!(cfg.host, "127.0.0.1");
    assert_eq!(cfg.port, 6612);
    assert_eq!(default_host(), "127.0.0.1");
}

fn reply(out: DapOutcome) -> DapBody {
    match out {
        DapOutcome::Reply(b) => b,
        other => panic!("expected a reply, got {other:?}"),
    }
}

#[test]
fn initialize_returns_capabilities() {
    let mut dbg = RfDebugger::new();
    let DapBody::Capabilities(c) = reply(dbg.handle(&DapRequest::Initialize)) else { panic!("capabilities") };
    assert_eq!(c.supports_conditional_breakpoints, Some(true));
    assert_eq!(c.supports_configuration_done_request, Some(true));
    assert_eq!(c.supports_set_variable, Some(true));
    assert_eq!(c.supports_evaluate_for_hovers, Some(true));
}

#[test]
fn initialize_response_has_exception_filters() {
    let mut dbg = RfDebugger::new();
    let DapBody::Capabilities(c) = reply(dbg.handle(&DapRequest::Initialize)) else { panic!("capabilities") };
    let filters = c.exception_breakpoint_filters.unwrap();
    assert!(!filters.is_empty());
    assert_eq!(filters[0].filter, "raised");
}

fn bp_args(lines: &[i64]) -> SetBreakpointsArguments {
    SetBreakpointsArguments {
        source: Source { name: Some("Suite".to_string()), path: Some("/tests/suite.robot".to_string()), source_reference: None },
        breakpoints: lines
            .iter()
            .map(|l| SourceBreakpoint { line: *l, column: None, condition: None, hit_condition: None, log_message: None })
            .collect(),
    }
}

#[test]
fn set_breakpoints_stores_and_returns_them() {
    let mut dbg = RfDebugger::new();
    dbg.handle(&DapRequest::Initialize);
    let out = dbg.handle(&DapRequest::SetBreakpoints(DapArg::Given(bp_args(&[10, 20, 30]))));
    let DapBody::SetBreakpoints(b) = reply(out) else { panic!("breakpoints") };
    assert_eq!(b.breakpoints.len(), 3);
    assert!(b.breakpoints[0].verified);
    assert_eq!(b.breakpoints[0].line, Some(10));
    assert_eq!(b.breakpoints[1].line, Some(20));
    assert_eq!(b.breakpoints[2].line, Some(30));
    assert_eq!(b.breakpoints[2].id, Some(3));
    assert_eq!(b.breakpoints[0].source.as_ref().unwrap().path.as_deref(), Some("/tests/suite.robot"));
}

#[test]
fn set_breakpoints_without_path_files_under_unknown() {
    let mut dbg = RfDebugger::new();
    let mut args = bp_args(&[5]);
    args.source.path = None;
    let DapBody::SetBreakpoints(b) = reply(dbg.handle(&DapRequest::SetBreakpoints(DapArg::Given(args)))) else { panic!() };
    assert_eq!(b.breakpoints[0].source.as_ref().unwrap().path.as_deref(), Some("<unknown>"));
}

#[test]
fn threads_returns_empty_before_launch() {
    let mut dbg = RfDebugger::new();
    let DapBody::Threads(t) = reply(dbg.handle(&DapRequest::Threads)) else { panic!("threads") };
    assert!(t.threads.is_empty());
}

#[test]
fn threads_after_attach_and_launch() {
    let mut dbg = RfDebugger::new();
    dbg.handle(&DapRequest::Attach);
    let DapBody::Threads(t) = reply(dbg.handle(&DapRequest::Threads)) else { panic!() };
    assert_eq!(t.threads.len(), 1);
    assert_eq!(t.threads[0].id, 1);
    assert_eq!(t.threads[0].name, "Robot Framework");
    let mut dbg2 = RfDebugger::new();
    assert!(matches!(dbg2.launch_started(), DapBody::Empty));
    let DapBody::Threads(t2) = reply(dbg2.handle(&DapRequest::Threads)) else { panic!() };
    assert_eq!(t2.threads.len(), 1);
}

#[test]
fn configuration_done_succeeds() {
    let mut dbg = RfDebugger::new();
    dbg.handle(&DapRequest::Initialize);
    assert!(matches!(dbg.handle(&DapRequest::ConfigurationDone), DapOutcome::Reply(DapBody::Empty)));
}

#[test]
fn evaluate_returns_expression_result() {
    let mut dbg = RfDebugger::new();
    let args = EvaluateArguments { expression: "${MY_VAR}".to_string(), frame_id: None, context: None };
    let DapBody::Evaluate(e) = reply(dbg.handle(&DapRequest::Evaluate(DapArg::Given(args)))) else { panic!() };
    assert!(e.result.contains("${MY_VAR}"));
    assert_eq!(e.result, "<evaluate: ${MY_VAR}>");
}

#[test]
fn unknown_command_returns_error() {
    let mut dbg = RfDebugger::new();
    assert_eq!(dap_command("unknownCommand"), DapCommand::Unknown);
    let out = dbg.handle(&DapRequest::Unknown("unknownCommand".to_string()));
    match out {
        DapOutcome::Fail(m) => assert_eq!(m, "Unknown command: unknownCommand"),
        other => panic!("expected failure, got {other:?}"),
    }
}

#[test]
fn command_names_map_to_commands() {
    assert_eq!(dap_command("initialize"), DapCommand::Initialize);
    assert_eq!(dap_command("setBreakpoints"), DapCommand::SetBreakpoints);
    assert_eq!(dap_command("configurationDone"), DapCommand::ConfigurationDone);
    assert_eq!(dap_command("Initialize"), DapCommand::Unknown);
}

#[test]
fn continue_response_all_threads_continued() {
    let mut dbg = RfDebugger::new();
    let DapBody::Continue(c) = reply(dbg.handle(&DapRequest::Continue)) else { panic!() };
    assert!(c.all_threads_continued);
}

#[test]
fn stack_trace_empty_when_not_stopped() {
    let mut dbg = RfDebugger::new();
    let args = StackTraceArguments { thread_id: 1, start_frame: None, levels: None };
    let DapBody::StackTrace(s) = reply(dbg.handle(&DapRequest::StackTrace(DapArg::Given(args)))) else { panic!() };
    assert!(s.stack_frames.is_empty());
    assert_eq!(s.total_frames, Some(0));
}

#[test]
fn stack_trace_has_frame_when_paused() {
    let mut dbg = RfDebugger::new();
    dbg.handle(&DapRequest::Pause(DapArg::Given(PauseArguments { thread_id: 1 })));
    let args = StackTraceArguments { thread_id: 1, start_frame: None, levels: None };
    let DapBody::StackTrace(s) = reply(dbg.handle(&DapRequest::StackTrace(DapArg::Given(args)))) else { panic!() };
    assert_eq!(s.stack_frames.len(), 1);
    assert_eq!(s.stack_frames[0].name, "Robot Framework Execution");
    assert_eq!(s.total_frames, Some(1));
}

#[test]
fn scopes_returns_local_and_global() {
    let mut dbg = RfDebugger::new();
    let DapBody::Scopes(s) = reply(dbg.handle(&DapRequest::Scopes(DapArg::Given(ScopesArguments { frame_id: 0 })))) else { panic!() };
    assert_eq!(s.scopes.len(), 2);
    assert_eq!(s.scopes[0].name, "Local");
    assert_eq!(s.scopes[1].name, "Global");
}

#[test]
fn missing_or_invalid_arguments_fail() {
    let mut dbg = RfDebugger::new();
    match dbg.handle(&DapRequest::Scopes(DapArg::Missing)) {
        DapOutcome::Fail(m) => assert_eq!(m, "scopes: missing arguments"),
        o => panic!("{o:?}"),
    }
    match dbg.handle(&DapRequest::Variables(DapArg::<VariablesArguments>::Invalid("bad json".to_string()))) {
        DapOutcome::Fail(m) => assert_eq!(m, "bad json"),
        o => panic!("{o:?}"),
    }
    match dbg.handle(&DapRequest::Launch(DapArg::Missing)) {
        DapOutcome::Fail(m) => assert_eq!(m, "launch request missing arguments"),
        o => panic!("{o:?}"),
    }
}

fn launch_args(target: Option<&str>) -> LaunchArguments {
    LaunchArguments {
        no_debug: false,
        target: target.map(|t| t.to_string()),
        args: vec!["--dryrun".to_string()],
        cwd: None,
        python: Some("/usr/bin/python3".to_string()),
        env: HashMap::new(),
    }
}

#[test]
fn launch_asks_to_spawn_the_configured_program() {
    let mut dbg = RfDebugger::new();
    match dbg.handle(&DapRequest::Launch(DapArg::Given(launch_args(Some("/t/a.robot"))))) {
        DapOutcome::Spawn(cfg) => {
            assert_eq!(cfg.program, "/t/a.robot");
            assert_eq!(cfg.args, vec!["--dryrun".to_string()]);
            assert_eq!(cfg.python_executable(), "/usr/bin/python3");
        }
        o => panic!("{o:?}"),
    }
    match dbg.handle(&DapRequest::Launch(DapArg::Given(launch_args(None)))) {
        DapOutcome::Fail(m) => assert_eq!(m, "launch: 'target' field is required"),
        o => panic!("{o:?}"),
    }
}

#[test]
fn disconnect_kills_only_a_started_process() {
    let mut dbg = RfDebugger::new();
    assert!(matches!(dbg.handle(&DapRequest::Disconnect(None)), DapOutcome::Reply(DapBody::Empty)));
    let mut dbg = RfDebugger::new();
    dbg.launch_started();
    assert!(matches!(dbg.handle(&DapRequest::Disconnect(Some(false))), DapOutcome::Reply(DapBody::Empty)));
    let mut dbg = RfDebugger::new();
    dbg.launch_started();
    assert!(matches!(dbg.handle(&DapRequest::Disconnect(None)), DapOutcome::KillAndReply(DapBody::Empty)));
}

#[test]
fn set_variable_and_source_replies() {
    let mut dbg = RfDebugger::new();
    let args = SetVariableArguments { variables_reference: 7, name: "${x}".to_string(), value: "42".to_string() };
    let DapBody::SetVariable(v) = reply(dbg.handle(&DapRequest::SetVariable(DapArg::Given(args)))) else { panic!() };
    assert_eq!(v.value, "42");
    let DapBody::Source(s) = reply(dbg.handle(&DapRequest::Source)) else { panic!() };
    assert_eq!(s.content, "");
    assert_eq!(s.mime_type.as_deref(), Some("text/x-robotframework"));
}

#[test]
fn error_response_is_not_success() {
    let resp = DapProtocol::error_response(2, 1, "launch", "missing target");
    let DapMessage::Response(r) = resp else { panic!("Expected Response") };
    assert!(!r.success);
    assert_eq!(r.command, "launch");
    assert_eq!(r.message.as_deref(), Some("missing target"));
}

#[test]
fn success_response_has_no_error_message() {
    let resp = DapProtocol::success_response(2, 1, "initialize", None);
    let DapMessage::Response(r) = resp else { panic!("Expected Response") };
    assert!(r.success);
    assert!(r.message.is_none());
    assert!(r.body.is_none());
}

#[test]
fn frame_header_reads_back() {
    let header = DapProtocol::frame_header(1234);
    assert_eq!(header, "Content-Length: 1234\r\n\r\n");
    let mut reader = HeaderReader::new();
    let mut lines = header.split_inclusive('\n');
    assert!(matches!(reader.feed(lines.next()), HeaderStep::More));
    assert!(matches!(reader.feed(lines.next()), HeaderStep::Done(1234)));
}

#[test]
fn header_reader_errors() {
    let mut r = HeaderReader::new();
    assert!(matches!(r.feed(None), HeaderStep::Fail(HeaderError::ConnectionClosed)));
    let mut r = HeaderReader::new();
    assert!(matches!(r.feed(Some("X-Other: 1\r\n")), HeaderStep::More));
    assert!(matches!(r.feed(Some("\r\n")), HeaderStep::Fail(HeaderError::MissingContentLength)));
    let mut r = HeaderReader::new();
    match r.feed(Some("Content-Length: 12a\r\n")) {
        HeaderStep::Fail(HeaderError::InvalidContentLength { value, kind }) => {
            assert_eq!(value, "12a");
            assert_eq!(kind, IntErrorKind::InvalidDigit);
        }
        other => panic!("{other:?}"),
    }
    let mut r = HeaderReader::new();
    match r.feed(Some("Content-Length: 99999999999999999999999\r\n")) {
        HeaderStep::Fail(HeaderError::InvalidContentLength { kind, .. }) => assert_eq!(kind, IntErrorKind::PosOverflow),
        other => panic!("{other:?}"),
    }
    let mut r = HeaderReader::new();
    match r.feed(Some("Content-Length: \r\n")) {
        HeaderStep::Fail(HeaderError::InvalidContentLength { kind, .. }) => assert_eq!(kind, IntErrorKind::Empty),
        other => panic!("{other:?}"),
    }
    let mut r = HeaderReader::new();
    assert!(matches!(r.feed(Some("Content-Length:  +7 \r\n")), HeaderStep::More));
    assert!(matches!(r.feed(Some("\n")), HeaderStep::Done(7)));
}

#[test]
fn session_numbers_responses_and_ends_on_disconnect() {
    let mut server = DapServer::new();
    assert_eq!(server.seq(), 1);
    let (m, done) = server.respond(4, "threads", Ok(None));
    let DapMessage::Response(r) = m else { panic!() };
    assert_eq!((r.seq, r.request_seq, r.success), (1, 4, true));
    assert!(!done);
    let (m, done) = server.respond(5, "disconnect", Err("gone".to_string()));
    let DapMessage::Response(r) = m else { panic!() };
    assert_eq!((r.seq, r.success), (2, false));
    assert_eq!(r.message.as_deref(), Some("gone"));
    assert!(done);
    assert_eq!(server.seq(), 3);
    assert!(matches!(server.handle(&DapRequest::Initialize), DapOutcome::Reply(DapBody::Capabilities(_))));
    assert!(matches!(server.launch_started(), DapBody::Empty));
}

#[test]
fn only_requests_are_handed_on() {
    let req = DapMessage::Request(ProtocolRequest { seq: 1, command: "threads".into(), arguments: None });
    assert_eq!(RfDebugger::request_of(&req).map(|q| q.command.as_str()), Some("threads"));
    let ev = DapMessage::Event(ProtocolEvent { seq: 2, event: "stopped".into(), body: None });
    assert!(RfDebugger::request_of(&ev).is_none());
    let resp = DapMessage::Response(ProtocolResponse {
        seq: 3,
        request_seq: 1,
        success: true,
        command: "threads".into(),
        message: None,
        body: None,
    });
    assert!(RfDebugger::request_of(&resp).is_none());
}
