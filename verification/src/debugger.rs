//! Core debugger state machine.
//!
//! A request arrives with its arguments already decoded from JSON; the
//! debugger answers with a response body, an error message, or an action
//! (starting or stopping the Robot Framework process) for its host to carry
//! out.
use vstd::prelude::*;

use crate::dap_types::{
    Breakpoint, DapMessage, ProtocolRequest, Capabilities, ContinueResponseBody, EvaluateArguments, EvaluateResponseBody,
    ExceptionBreakpointsFilter, LaunchArguments, PauseArguments, Scope, ScopesArguments,
    ScopesResponseBody, SetBreakpointsArguments, SetBreakpointsResponseBody,
    SetVariableArguments, SetVariableResponseBody, Source, SourceResponseBody, StackFrame,
    StackTraceArguments, StackTraceResponseBody, Thread, ThreadsResponseBody,
    VariablesArguments, VariablesResponseBody,
};
use crate::launcher::LaunchConfig;
use crate::table::{keys_unique, lemma_table_absent, lemma_table_update, table_map};
use crate::text::{chars_of, extend_chars, str_eq, string_of};

verus! {

// ── Debugger state ────────────────────────────────────────────────────────────

/// Running state of the RF subprocess.
#[derive(Debug, Clone, Copy, PartialEq, Eq, Structural)]
pub enum DebuggerState {
    /// Not yet initialized.
    NotInitialized,
    /// Initialized, waiting for `launch` or `attach`.
    Initialized,
    /// RF process running.
    Running,
    /// RF process paused at a breakpoint or step.
    Stopped,
    /// RF process terminated.
    Terminated,
}

/// The arguments of a request, as decoded by the host.
#[derive(Debug, Clone)]
pub enum DapArg<T> {
    /// The request carried no arguments.
    Missing,
    /// The arguments did not decode; the decoder's message.
    Invalid(String),
    /// The decoded arguments.
    Given(T),
}

/// The DAP commands the debugger knows.
#[derive(Debug, Clone, Copy, PartialEq, Eq, Structural)]
pub enum DapCommand {
    Initialize,
    Launch,
    Attach,
    ConfigurationDone,
    SetBreakpoints,
    SetFunctionBreakpoints,
    SetExceptionBreakpoints,
    Threads,
    StackTrace,
    Scopes,
    Variables,
    Continue,
    Next,
    StepIn,
    StepOut,
    Pause,
    Disconnect,
    Evaluate,
    SetVariable,
    Source,
    Unknown,
}

/// A request with its decoded arguments.
#[derive(Debug, Clone)]
pub enum DapRequest {
    Initialize,
    Launch(DapArg<LaunchArguments>),
    Attach,
    ConfigurationDone,
    SetBreakpoints(DapArg<SetBreakpointsArguments>),
    SetFunctionBreakpoints,
    SetExceptionBreakpoints,
    Threads,
    StackTrace(DapArg<StackTraceArguments>),
    Scopes(DapArg<ScopesArguments>),
    Variables(DapArg<VariablesArguments>),
    Continue,
    Next,
    StepIn,
    StepOut,
    Pause(DapArg<PauseArguments>),
    /// The request's `terminateDebugee` flag, where it is a boolean.
    Disconnect(Option<bool>),
    Evaluate(DapArg<EvaluateArguments>),
    SetVariable(DapArg<SetVariableArguments>),
    Source,
    /// A command the debugger does not know, by name.
    Unknown(String),
}

/// The body of a successful response.
#[derive(Debug, Clone)]
pub enum DapBody {
    Capabilities(Capabilities),
    Empty,
    SetBreakpoints(SetBreakpointsResponseBody),
    Threads(ThreadsResponseBody),
    StackTrace(StackTraceResponseBody),
    Scopes(ScopesResponseBody),
    Variables(VariablesResponseBody),
    Continue(ContinueResponseBody),
    Evaluate(EvaluateResponseBody),
    SetVariable(SetVariableResponseBody),
    Source(SourceResponseBody),
}

/// What the host does with a request's outcome.
#[derive(Debug, Clone)]
pub enum DapOutcome {
    /// Answer with this body.
    Reply(DapBody),
    /// Answer with an error carrying this message.
    Fail(String),
    /// Start the Robot Framework process for this configuration; when it
    /// started, call `RfDebugger::launch_started` and answer with what it
    /// gives, else answer with the spawn error.
    Spawn(LaunchConfig),
    /// Stop the running process, then answer with this body.
    KillAndReply(DapBody),
}

/// Which command a request name denotes.
pub open spec fn command_of(name: Seq<char>) -> DapCommand {
    if name == "initialize"@ {
        DapCommand::Initialize
    } else if name == "launch"@ {
        DapCommand::Launch
    } else if name == "attach"@ {
        DapCommand::Attach
    } else if name == "configurationDone"@ {
        DapCommand::ConfigurationDone
    } else if name == "setBreakpoints"@ {
        DapCommand::SetBreakpoints
    } else if name == "setFunctionBreakpoints"@ {
        DapCommand::SetFunctionBreakpoints
    } else if name == "setExceptionBreakpoints"@ {
        DapCommand::SetExceptionBreakpoints
    } else if name == "threads"@ {
        DapCommand::Threads
    } else if name == "stackTrace"@ {
        DapCommand::StackTrace
    } else if name == "scopes"@ {
        DapCommand::Scopes
    } else if name == "variables"@ {
        DapCommand::Variables
    } else if name == "continue"@ {
        DapCommand::Continue
    } else if name == "next"@ {
        DapCommand::Next
    } else if name == "stepIn"@ {
        DapCommand::StepIn
    } else if name == "stepOut"@ {
        DapCommand::StepOut
    } else if name == "pause"@ {
        DapCommand::Pause
    } else if name == "disconnect"@ {
        DapCommand::Disconnect
    } else if name == "evaluate"@ {
        DapCommand::Evaluate
    } else if name == "setVariable"@ {
        DapCommand::SetVariable
    } else if name == "source"@ {
        DapCommand::Source
    } else {
        DapCommand::Unknown
    }
}

/// The command that a request name denotes, so that its arguments can be
/// decoded into the right type.
pub fn dap_command(name: &str) -> (c: DapCommand)
    ensures
        c == command_of(name@),
{
    if str_eq(name, "initialize") {
        DapCommand::Initialize
    } else if str_eq(name, "launch") {
        DapCommand::Launch
    } else if str_eq(name, "attach") {
        DapCommand::Attach
    } else if str_eq(name, "configurationDone") {
        DapCommand::ConfigurationDone
    } else if str_eq(name, "setBreakpoints") {
        DapCommand::SetBreakpoints
    } else if str_eq(name, "setFunctionBreakpoints") {
        DapCommand::SetFunctionBreakpoints
    } else if str_eq(name, "setExceptionBreakpoints") {
        DapCommand::SetExceptionBreakpoints
    } else if str_eq(name, "threads") {
        DapCommand::Threads
    } else if str_eq(name, "stackTrace") {
        DapCommand::StackTrace
    } else if str_eq(name, "scopes") {
        DapCommand::Scopes
    } else if str_eq(name, "variables") {
        DapCommand::Variables
    } else if str_eq(name, "continue") {
        DapCommand::Continue
    } else if str_eq(name, "next") {
        DapCommand::Next
    } else if str_eq(name, "stepIn") {
        DapCommand::StepIn
    } else if str_eq(name, "stepOut") {
        DapCommand::StepOut
    } else if str_eq(name, "pause") {
        DapCommand::Pause
    } else if str_eq(name, "disconnect") {
        DapCommand::Disconnect
    } else if str_eq(name, "evaluate") {
        DapCommand::Evaluate
    } else if str_eq(name, "setVariable") {
        DapCommand::SetVariable
    } else if str_eq(name, "source") {
        DapCommand::Source
    } else {
        DapCommand::Unknown
    }
}

// ── Debugger ─────────────────────────────────────────────────────────────────

/// The debugger as its contracts see it.
pub struct DebuggerModel {
    pub state: DebuggerState,
    /// Line breakpoints per source path.
    pub breakpoints: Map<Seq<char>, Seq<Breakpoint>>,
    /// Active threads.
    pub threads: Seq<Thread>,
    /// Whether a Robot Framework process was started and not stopped.
    pub process: bool,
}

/// Core Robot Framework debugger state machine.
pub struct RfDebugger {
    state: DebuggerState,
    breakpoints: Vec<(String, Vec<Breakpoint>)>,
    threads: Vec<Thread>,
    process: bool,
}

impl View for RfDebugger {
    type V = DebuggerModel;

    closed spec fn view(&self) -> DebuggerModel {
        DebuggerModel {
            state: self.state,
            breakpoints: table_map(self.entries()),
            threads: self.threads@,
            process: self.process,
        }
    }
}

/// The single thread that stands for Robot Framework's execution.
pub open spec fn is_main_thread(t: Thread) -> bool {
    t.id == 1 && t.name@ == "Robot Framework"@
}

pub open spec fn main_threads(s: Seq<Thread>) -> bool {
    s.len() == 1 && is_main_thread(s[0])
}

/// The capabilities the adapter advertises.
pub open spec fn is_rf_capabilities(c: Capabilities) -> bool {
    &&& c.supports_conditional_breakpoints == Some(true)
    &&& c.supports_configuration_done_request == Some(true)
    &&& c.supports_set_variable == Some(true)
    &&& c.supports_evaluate_for_hovers == Some(true)
    &&& c.supports_function_breakpoints == Some(false)
    &&& c.supports_terminate_request == Some(true)
    &&& c.exception_breakpoint_filters matches Some(f) && f@.len() == 1 && f@[0].filter@
        == "raised"@ && f@[0].label@ == "Raised Exceptions"@ && f@[0].default == Some(false)
}

/// The source path that `setBreakpoints` files breakpoints under.
pub open spec fn bp_path(src: Source) -> Seq<char> {
    match src.path {
        Some(p) => p@,
        None => "<unknown>"@,
    }
}

/// The breakpoints `setBreakpoints` answers with and stores: one per
/// requested line, numbered from 1, verified, in the requested source.
pub open spec fn breakpoints_for(bps: Seq<Breakpoint>, args: SetBreakpointsArguments) -> bool {
    &&& bps.len() == args.breakpoints@.len()
    &&& forall|i: int|
        #![trigger bps[i]]
        0 <= i < bps.len() ==> {
            &&& bps[i].id == Some((i + 1) as i64)
            &&& bps[i].verified
            &&& bps[i].message is None
            &&& bps[i].line == Some(args.breakpoints@[i].line)
            &&& bps[i].source matches Some(s) && s.path matches Some(p) && p@ == bp_path(
                args.source,
            ) && s.name == args.source.name && s.source_reference is None
        }
}

/// The frames of a stack trace: one placeholder frame while stopped, none
/// otherwise.
pub open spec fn frames_for(state: DebuggerState, frames: Seq<StackFrame>) -> bool {
    if state == DebuggerState::Stopped {
        &&& frames.len() == 1
        &&& frames[0].id == 0 && frames[0].line == 0 && frames[0].column == 0
        &&& frames[0].name@ == "Robot Framework Execution"@
        &&& frames[0].source is None
    } else {
        frames.len() == 0
    }
}

pub open spec fn is_rf_scopes(s: Seq<Scope>) -> bool {
    &&& s.len() == 2
    &&& s[0].name@ == "Local"@ && s[0].variables_reference == 1000 && !s[0].expensive
    &&& s[1].name@ == "Global"@ && s[1].variables_reference == 1001 && !s[1].expensive
}

pub open spec fn fails_with(out: DapOutcome, msg: Seq<char>) -> bool {
    out matches DapOutcome::Fail(m) && m@ == msg
}

pub open spec fn replies_empty(out: DapOutcome) -> bool {
    out matches DapOutcome::Reply(DapBody::Empty)
}

/// The error for a request whose arguments are missing or did not decode,
/// `None` when they are given.
pub open spec fn arg_error<T>(a: DapArg<T>, missing: Seq<char>) -> Option<Seq<char>> {
    match a {
        DapArg::Missing => Some(missing),
        DapArg::Invalid(m) => Some(m@),
        DapArg::Given(_) => None,
    }
}

/// One step of the debugger: from model `m`, request `req` leads to model
/// `n` and outcome `out`.
pub open spec fn dap_step(m: DebuggerModel, req: DapRequest, n: DebuggerModel, out: DapOutcome) -> bool {
    match req {
        DapRequest::Initialize => {
            &&& n == DebuggerModel { state: DebuggerState::Initialized, ..m }
            &&& out matches DapOutcome::Reply(DapBody::Capabilities(c)) && is_rf_capabilities(c)
        },
        DapRequest::Launch(a) => {
            &&& n == m
            &&& match a {
                DapArg::Given(la) => match la.target {
                    Some(t) => out matches DapOutcome::Spawn(cfg) && cfg.program == t && cfg.args@
                        == la.args@ && cfg.cwd == la.cwd && cfg.python == la.python && cfg.env@
                        == la.env@,
                    None => fails_with(out, "launch: 'target' field is required"@),
                },
                _ => fails_with(out, arg_error(a, "launch request missing arguments"@)->0),
            }
        },
        DapRequest::Attach => {
            &&& n.state == DebuggerState::Running && main_threads(n.threads)
            &&& n.breakpoints == m.breakpoints && n.process == m.process
            &&& replies_empty(out)
        },
        DapRequest::SetBreakpoints(a) => match a {
            DapArg::Given(args) => {
                &&& out matches DapOutcome::Reply(DapBody::SetBreakpoints(b))
                    && breakpoints_for(b.breakpoints@, args)
                    && n.breakpoints == m.breakpoints.insert(bp_path(args.source), b.breakpoints@)
                &&& n.state == m.state && n.threads == m.threads && n.process == m.process
            },
            _ => n == m && fails_with(out, arg_error(a, "setBreakpoints: missing arguments"@)->0),
        },
        DapRequest::SetFunctionBreakpoints => {
            &&& n == m
            &&& out matches DapOutcome::Reply(DapBody::SetBreakpoints(b)) && b.breakpoints@.len()
                == 0
        },
        DapRequest::Threads => {
            &&& n == m
            &&& out matches DapOutcome::Reply(DapBody::Threads(b)) && b.threads@ == m.threads
        },
        DapRequest::StackTrace(a) => n == m && match a {
            DapArg::Given(_) => out matches DapOutcome::Reply(DapBody::StackTrace(b)) && frames_for(
                m.state,
                b.stack_frames@,
            ) && b.total_frames == Some(b.stack_frames@.len() as i64),
            _ => fails_with(out, arg_error(a, "stackTrace: missing arguments"@)->0),
        },
        DapRequest::Scopes(a) => n == m && match a {
            DapArg::Given(_) => out matches DapOutcome::Reply(DapBody::Scopes(b)) && is_rf_scopes(
                b.scopes@,
            ),
            _ => fails_with(out, arg_error(a, "scopes: missing arguments"@)->0),
        },
        DapRequest::Variables(a) => n == m && match a {
            DapArg::Given(_) => out matches DapOutcome::Reply(DapBody::Variables(b))
                && b.variables@.len() == 0,
            _ => fails_with(out, arg_error(a, "variables: missing arguments"@)->0),
        },
        DapRequest::Continue => {
            &&& n == DebuggerModel {
                state: if m.state == DebuggerState::Stopped {
                    DebuggerState::Running
                } else {
                    m.state
                },
                ..m
            }
            &&& out matches DapOutcome::Reply(DapBody::Continue(b)) && b.all_threads_continued
        },
        DapRequest::Pause(a) => match a {
            DapArg::Given(_) => n == DebuggerModel { state: DebuggerState::Stopped, ..m }
                && replies_empty(out),
            _ => n == m && fails_with(out, arg_error(a, "pause: missing arguments"@)->0),
        },
        DapRequest::Disconnect(terminate) => {
            &&& n == DebuggerModel { state: DebuggerState::Terminated, process: false, ..m }
            &&& if m.process && terminate != Some(false) {
                out matches DapOutcome::KillAndReply(DapBody::Empty)
            } else {
                replies_empty(out)
            }
        },
        DapRequest::Evaluate(a) => n == m && match a {
            DapArg::Given(args) => out matches DapOutcome::Reply(DapBody::Evaluate(b)) && b.result@
                == "<evaluate: "@ + args.expression@ + ">"@ && b.type_ is None
                && b.variables_reference == 0,
            _ => fails_with(out, arg_error(a, "evaluate: missing arguments"@)->0),
        },
        DapRequest::SetVariable(a) => n == m && match a {
            DapArg::Given(args) => out matches DapOutcome::Reply(DapBody::SetVariable(b))
                && b.value == args.value && b.type_ is None && b.variables_reference == 0,
            _ => fails_with(out, arg_error(a, "setVariable: missing arguments"@)->0),
        },
        DapRequest::Source => {
            &&& n == m
            &&& out matches DapOutcome::Reply(DapBody::Source(b)) && b.content@.len() == 0
                && (b.mime_type matches Some(t) && t@ == "text/x-robotframework"@)
        },
        DapRequest::Unknown(name) => n == m && fails_with(out, "Unknown command: "@ + name@),
        _ => n == m && replies_empty(out),
    }
}

/// Arguments that the debugger can number breakpoints for.
pub open spec fn request_fits(req: DapRequest) -> bool {
    req matches DapRequest::SetBreakpoints(DapArg::Given(a)) ==> a.breakpoints@.len() < i64::MAX
}

fn main_thread() -> (t: Thread)
    ensures
        is_main_thread(t),
{
    Thread { id: 1, name: "Robot Framework".to_owned() }
}

fn copy_thread(t: &Thread) -> (r: Thread)
    ensures
        r == *t,
{
    Thread { id: t.id, name: t.name.clone() }
}

fn copy_threads(v: &Vec<Thread>) -> (r: Vec<Thread>)
    ensures
        r@ == v@,
{
    let mut r: Vec<Thread> = Vec::new();
    for i in 0..v.len()
        invariant
            r@ == v@.take(i as int),
    {
        r.push(copy_thread(&v[i]));
        assert(v@.take(i + 1) == v@.take(i as int).push(v@[i as int]));
    }
    assert(v@.take(v.len() as int) == v@);
    r
}

fn copy_opt_string(s: &Option<String>) -> (r: Option<String>)
    ensures
        r == *s,
{
    match s {
        Some(x) => Some(x.clone()),
        None => None,
    }
}

fn copy_strings(v: &Vec<String>) -> (r: Vec<String>)
    ensures
        r@ == v@,
{
    let mut r: Vec<String> = Vec::new();
    for i in 0..v.len()
        invariant
            r@ == v@.take(i as int),
    {
        r.push(v[i].clone());
        assert(v@.take(i + 1) == v@.take(i as int).push(v@[i as int]));
    }
    assert(v@.take(v.len() as int) == v@);
    r
}

fn concat2(a: &str, b: &str) -> (r: String)
    ensures
        r@ == a@ + b@,
{
    let mut v = chars_of(a);
    let vb = chars_of(b);
    extend_chars(&mut v, vb.as_slice());
    string_of(v.as_slice())
}

fn concat3(a: &str, b: &str, c: &str) -> (r: String)
    ensures
        r@ == a@ + b@ + c@,
{
    let mut v = chars_of(a);
    let vb = chars_of(b);
    let vc = chars_of(c);
    extend_chars(&mut v, vb.as_slice());
    extend_chars(&mut v, vc.as_slice());
    string_of(v.as_slice())
}

fn missing_or_invalid<T>(a: &DapArg<T>, missing: &str) -> (out: DapOutcome)
    requires
        !(a is Given),
    ensures
        fails_with(out, arg_error(*a, missing@)->0),
{
    match a {
        DapArg::Invalid(m) => DapOutcome::Fail(m.clone()),
        _ => DapOutcome::Fail(missing.to_owned()),
    }
}

impl RfDebugger {
    spec fn entries(&self) -> Seq<(Seq<char>, Seq<Breakpoint>)> {
        Seq::new(self.breakpoints@.len(), |i: int| (self.breakpoints@[i].0@, self.breakpoints@[i].1@))
    }

    /// The debugger's invariant: each source path has at most one entry.
    pub closed spec fn wf(&self) -> bool {
        keys_unique(self.entries())
    }

    /// Create a new, uninitialised debugger.
    pub fn new() -> (d: Self)
        ensures
            d.wf(),
            d@.state == DebuggerState::NotInitialized,
            d@.breakpoints == Map::<Seq<char>, Seq<Breakpoint>>::empty(),
            d@.threads.len() == 0,
            !d@.process,
    {
        let d = RfDebugger { state: DebuggerState::NotInitialized, breakpoints: Vec::new(), threads: Vec::new(), process: false };
        assert(d.entries().len() == 0);
        d
    }

    /// Files `bps` under `path`, replacing what was filed there.
    fn store_breakpoints(&mut self, path: String, bps: Vec<Breakpoint>)
        requires
            old(self).wf(),
        ensures
            final(self).wf(),
            final(self)@ == (DebuggerModel {
                breakpoints: old(self)@.breakpoints.insert(path@, bps@),
                ..old(self)@
            }),
    {
        let ghost old_entries = self.entries();
        let mut i: usize = 0;
        while i < self.breakpoints.len()
            invariant
                i <= self.breakpoints.len(),
                self.entries() == old_entries,
                keys_unique(old_entries),
                *self == *old(self),
                old_entries == old(self).entries(),
                forall|j: int| 0 <= j < i ==> old_entries[j].0 != path@,
            decreases self.breakpoints.len() - i,
        {
            if self.breakpoints[i].0 == path {
                let ghost k = old_entries[i as int].0;
                proof {
                    lemma_table_update(old_entries, i as int, bps@);
                }
                self.breakpoints.set(i, (path, bps));
                assert(self.entries() =~= old_entries.update(i as int, (k, bps@)));
                assert(keys_unique(self.entries()));
                return;
            }
            assert(old_entries[i as int].0 == self.breakpoints@[i as int].0@);
            i += 1;
        }
        proof {
            lemma_table_absent(old_entries, path@);
        }
        self.breakpoints.push((path, bps));
        assert(self.entries() =~= old_entries.push((path@, bps@)));
        assert(self.entries().drop_last() == old_entries);
    }

    fn set_breakpoints(&mut self, args: &SetBreakpointsArguments) -> (b: SetBreakpointsResponseBody)
        requires
            old(self).wf(),
            args.breakpoints@.len() < i64::MAX,
        ensures
            final(self).wf(),
            breakpoints_for(b.breakpoints@, *args),
            final(self)@ == (DebuggerModel {
                breakpoints: old(self)@.breakpoints.insert(bp_path(args.source), b.breakpoints@),
                ..old(self)@
            }),
    {
        let path: String = match &args.source.path {
            Some(p) => p.clone(),
            None => "<unknown>".to_owned(),
        };
        let mut verified: Vec<Breakpoint> = Vec::new();
        let mut stored: Vec<Breakpoint> = Vec::new();
        let n = args.breakpoints.len();
        for i in 0..n
            invariant
                n == args.breakpoints@.len(),
                n < i64::MAX,
                path@ == bp_path(args.source),
                verified@ == stored@,
                verified@.len() == i,
                forall|j: int|
                    #![trigger verified@[j]]
                    0 <= j < i ==> {
                        &&& verified@[j].id == Some((j + 1) as i64)
                        &&& verified@[j].verified
                        &&& verified@[j].message is None
                        &&& verified@[j].line == Some(args.breakpoints@[j].line)
                        &&& verified@[j].source matches Some(s) && s.path matches Some(p) && p@
                            == bp_path(args.source) && s.name == args.source.name
                            && s.source_reference is None
                    },
        {
            let line = args.breakpoints[i].line;
            let id = i as i64 + 1;
            let p1 = path.clone();
            let p2 = path.clone();
            let n1 = copy_opt_string(&args.source.name);
            let n2 = copy_opt_string(&args.source.name);
            let bp1 = Breakpoint {
                id: Some(id),
                verified: true,
                message: None,
                source: Some(Source { path: Some(p1), name: n1, source_reference: None }),
                line: Some(line),
            };
            let bp2 = Breakpoint {
                id: Some(id),
                verified: true,
                message: None,
                source: Some(Source { path: Some(p2), name: n2, source_reference: None }),
                line: Some(line),
            };
            verified.push(bp1);
            stored.push(bp2);
        }
        self.store_breakpoints(path, stored);
        SetBreakpointsResponseBody { breakpoints: verified }
    }

    fn capabilities() -> (c: Capabilities)
        ensures
            is_rf_capabilities(c),
    {
        Capabilities {
            supports_conditional_breakpoints: Some(true),
            supports_configuration_done_request: Some(true),
            supports_set_variable: Some(true),
            supports_evaluate_for_hovers: Some(true),
            supports_function_breakpoints: Some(false),
            supports_terminate_request: Some(true),
            exception_breakpoint_filters: Some(
                vec![
                    ExceptionBreakpointsFilter {
                        filter: "raised".to_owned(),
                        label: "Raised Exceptions".to_owned(),
                        default: Some(false),
                    },
                ],
            ),
        }
    }

    fn stack_trace(&self) -> (b: StackTraceResponseBody)
        ensures
            frames_for(self.state, b.stack_frames@),
            b.total_frames == Some(b.stack_frames@.len() as i64),
    {
        let frames: Vec<StackFrame> = if self.state == DebuggerState::Stopped {
            vec![
                StackFrame {
                    id: 0,
                    name: "Robot Framework Execution".to_owned(),
                    source: None,
                    line: 0,
                    column: 0,
                },
            ]
        } else {
            Vec::new()
        };
        let total = frames.len() as i64;
        StackTraceResponseBody { total_frames: Some(total), stack_frames: frames }
    }

    fn scopes() -> (b: ScopesResponseBody)
        ensures
            is_rf_scopes(b.scopes@),
    {
        ScopesResponseBody {
            scopes: vec![
                Scope { name: "Local".to_owned(), variables_reference: 1000, expensive: false },
                Scope { name: "Global".to_owned(), variables_reference: 1001, expensive: false },
            ],
        }
    }

    /// The request a message carries: a response or an event from the client
    /// is answered with nothing, so only a request is handed on.
    pub fn request_of(message: &DapMessage) -> (r: Option<&ProtocolRequest>)
        ensures
            match message {
                DapMessage::Request(q) => r == Some(q),
                _ => r is None,
            },
    {
        match message {
            DapMessage::Request(q) => Some(q),
            _ => None,
        }
    }

    /// Handle one request: update the state and say what to answer.
    pub fn handle(&mut self, req: &DapRequest) -> (out: DapOutcome)
        requires
            old(self).wf(),
            request_fits(*req),
        ensures
            final(self).wf(),
            dap_step(old(self)@, *req, final(self)@, out),
    {
        match req {
            DapRequest::Initialize => {
                self.state = DebuggerState::Initialized;
                DapOutcome::Reply(DapBody::Capabilities(Self::capabilities()))
            },
            DapRequest::Launch(a) => match a {
                DapArg::Given(la) => match &la.target {
                    Some(t) => DapOutcome::Spawn(
                        LaunchConfig {
                            program: t.clone(),
                            args: copy_strings(&la.args),
                            cwd: copy_opt_string(&la.cwd),
                            python: copy_opt_string(&la.python),
                            env: la.env.clone(),
                        },
                    ),
                    None => DapOutcome::Fail("launch: 'target' field is required".to_owned()),
                },
                _ => missing_or_invalid(a, "launch request missing arguments"),
            },
            DapRequest::Attach => {
                self.state = DebuggerState::Running;
                self.threads = vec![main_thread()];
                DapOutcome::Reply(DapBody::Empty)
            },
            DapRequest::SetBreakpoints(a) => match a {
                DapArg::Given(args) => {
                    let b = self.set_breakpoints(args);
                    DapOutcome::Reply(DapBody::SetBreakpoints(b))
                },
                _ => missing_or_invalid(a, "setBreakpoints: missing arguments"),
            },
            DapRequest::SetFunctionBreakpoints => DapOutcome::Reply(
                DapBody::SetBreakpoints(SetBreakpointsResponseBody { breakpoints: Vec::new() }),
            ),
            DapRequest::Threads => DapOutcome::Reply(
                DapBody::Threads(ThreadsResponseBody { threads: copy_threads(&self.threads) }),
            ),
            DapRequest::StackTrace(a) => match a {
                DapArg::Given(_) => DapOutcome::Reply(DapBody::StackTrace(self.stack_trace())),
                _ => missing_or_invalid(a, "stackTrace: missing arguments"),
            },
            DapRequest::Scopes(a) => match a {
                DapArg::Given(_) => DapOutcome::Reply(DapBody::Scopes(Self::scopes())),
                _ => missing_or_invalid(a, "scopes: missing arguments"),
            },
            DapRequest::Variables(a) => match a {
                DapArg::Given(_) => DapOutcome::Reply(
                    DapBody::Variables(VariablesResponseBody { variables: Vec::new() }),
                ),
                _ => missing_or_invalid(a, "variables: missing arguments"),
            },
            DapRequest::Continue => {
                if self.state == DebuggerState::Stopped {
                    self.state = DebuggerState::Running;
                }
                DapOutcome::Reply(
                    DapBody::Continue(ContinueResponseBody { all_threads_continued: true }),
                )
            },
            DapRequest::Pause(a) => match a {
                DapArg::Given(_) => {
                    self.state = DebuggerState::Stopped;
                    DapOutcome::Reply(DapBody::Empty)
                },
                _ => missing_or_invalid(a, "pause: missing arguments"),
            },
            DapRequest::Disconnect(terminate) => {
                let stop = match terminate {
                    Some(t) => *t,
                    None => true,
                };
                let kill = stop && self.process;
                self.process = false;
                self.state = DebuggerState::Terminated;
                if kill {
                    DapOutcome::KillAndReply(DapBody::Empty)
                } else {
                    DapOutcome::Reply(DapBody::Empty)
                }
            },
            DapRequest::Evaluate(a) => match a {
                DapArg::Given(args) => DapOutcome::Reply(
                    DapBody::Evaluate(
                        EvaluateResponseBody {
                            result: concat3("<evaluate: ", args.expression.as_str(), ">"),
                            type_: None,
                            variables_reference: 0,
                        },
                    ),
                ),
                _ => missing_or_invalid(a, "evaluate: missing arguments"),
            },
            DapRequest::SetVariable(a) => match a {
                DapArg::Given(args) => DapOutcome::Reply(
                    DapBody::SetVariable(
                        SetVariableResponseBody {
                            value: args.value.clone(),
                            type_: None,
                            variables_reference: 0,
                        },
                    ),
                ),
                _ => missing_or_invalid(a, "setVariable: missing arguments"),
            },
            DapRequest::Source => DapOutcome::Reply(
                DapBody::Source(
                    SourceResponseBody {
                        content: String::new(),
                        mime_type: Some("text/x-robotframework".to_owned()),
                    },
                ),
            ),
            DapRequest::Unknown(name) => DapOutcome::Fail(
                concat2("Unknown command: ", name.as_str()),
            ),
            _ => DapOutcome::Reply(DapBody::Empty),
        }
    }

    /// The process that a `launch` asked for has started: the debugger runs
    /// it on its single thread.
    pub fn launch_started(&mut self) -> (b: DapBody)
        requires
            old(self).wf(),
        ensures
            final(self).wf(),
            b is Empty,
            final(self)@.state == DebuggerState::Running,
            final(self)@.process,
            main_threads(final(self)@.threads),
            final(self)@.breakpoints == old(self)@.breakpoints,
    {
        self.process = true;
        self.state = DebuggerState::Running;
        self.threads = vec![main_thread()];
        DapBody::Empty
    }
}

/// Setting the breakpoints of a source twice keeps only the second set for
/// it and leaves every other source's breakpoints as they were; the
/// breakpoints stored are those the second request was answered with.
pub proof fn lemma_set_breakpoints_replaces(
    m0: DebuggerModel,
    a1: SetBreakpointsArguments,
    m1: DebuggerModel,
    o1: DapOutcome,
    a2: SetBreakpointsArguments,
    m2: DebuggerModel,
    o2: DapOutcome,
)
    requires
        dap_step(m0, DapRequest::SetBreakpoints(DapArg::Given(a1)), m1, o1),
        dap_step(m1, DapRequest::SetBreakpoints(DapArg::Given(a2)), m2, o2),
        bp_path(a1.source) == bp_path(a2.source),
    ensures
        o2 matches DapOutcome::Reply(DapBody::SetBreakpoints(b)) && m2.breakpoints
            == m0.breakpoints.insert(bp_path(a2.source), b.breakpoints@),
        forall|k: Seq<char>| k != bp_path(a2.source) ==> #[trigger] m2.breakpoints.contains_key(k)
            == m0.breakpoints.contains_key(k) && m2.breakpoints[k] == m0.breakpoints[k],
{
    if let DapOutcome::Reply(DapBody::SetBreakpoints(b)) = o2 {
        assert(m2.breakpoints =~= m0.breakpoints.insert(bp_path(a2.source), b.breakpoints@));
    }
}

/// Threads appear only through `attach` or a started launch: any other
/// request leaves a debugger without threads without threads.
pub proof fn lemma_no_threads_before_start(m: DebuggerModel, req: DapRequest, n: DebuggerModel, out: DapOutcome)
    requires
        m.threads.len() == 0,
        !(req is Attach),
        dap_step(m, req, n, out),
    ensures
        n.threads.len() == 0,
{
}

} // verus!
