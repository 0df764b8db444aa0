//! The REPL's history store and the decisions of its JSON-RPC server.
//!
//! The server accepts `evaluate`, `history`, `history/clear`, `complete` and
//! `shutdown`.  Evaluation itself runs in a Python process; the state here
//! says what to run and records what came back.
use vstd::prelude::*;

use std::collections::HashMap;

use crate::text::{
    chars_of, extend_chars, lowercase_chars, starts_with, starts_with_chars, str_eq, str_lower_of,
    string_of,
};

verus! {

/// Maximum number of history entries retained by default.
pub const DEFAULT_CAPACITY: usize = 500;

/// A single history entry recording one REPL evaluation.
#[derive(Debug, Clone)]
pub struct HistoryEntry {
    /// Sequential entry number (1-based).
    pub index: usize,
    /// The expression / keyword call that was evaluated.
    pub expression: String,
    /// The result returned by the evaluation, if any.
    pub result: Option<String>,
    /// Whether the evaluation produced an error.
    pub error: bool,
}

/// Bounded REPL history: entries in insertion order, the most recent last.
#[derive(Debug)]
pub struct History {
    entries: Vec<HistoryEntry>,
    capacity: usize,
    pushed: usize,
}

/// The history as its contracts see it.
pub struct HistoryModel {
    /// The retained entries, oldest first.
    pub entries: Seq<HistoryEntry>,
    /// How many entries are retained at most.
    pub capacity: nat,
    /// The number the last pushed entry got (0 before any).
    pub last_index: nat,
}

impl View for History {
    type V = HistoryModel;

    closed spec fn view(&self) -> HistoryModel {
        HistoryModel {
            entries: self.entries@,
            capacity: self.capacity as nat,
            last_index: self.pushed as nat,
        }
    }
}

fn copy_opt_string(s: &Option<String>) -> (r: Option<String>)
    ensures
        r == *s,
{
    match s {
        Some(x) => Some(x.clone()),
        None => None,
    }
}

fn copy_entry(e: &HistoryEntry) -> (r: HistoryEntry)
    ensures
        r == *e,
{
    HistoryEntry {
        index: e.index,
        expression: e.expression.clone(),
        result: copy_opt_string(&e.result),
        error: e.error,
    }
}

impl History {
    /// The history never holds more entries than its capacity.
    pub closed spec fn wf(&self) -> bool {
        self.entries@.len() <= self.capacity
    }

    /// Create a new history store with the default capacity.
    pub fn new() -> (h: Self)
        ensures
            h.wf(),
            h@.entries.len() == 0,
            h@.capacity == DEFAULT_CAPACITY,
            h@.last_index == 0,
    {
        History { entries: Vec::new(), capacity: DEFAULT_CAPACITY, pushed: 0 }
    }

    /// Create a new history store with a custom capacity.
    pub fn with_capacity(capacity: usize) -> (h: Self)
        ensures
            h.wf(),
            h@.entries.len() == 0,
            h@.capacity == capacity,
            h@.last_index == 0,
    {
        History { entries: Vec::new(), capacity, pushed: 0 }
    }

    /// Append a new entry, dropping the oldest one when the history is full.
    /// Returns the assigned index.
    pub fn push(&mut self, expression: String, result: Option<String>, error: bool) -> (index:
        usize)
        requires
            old(self).wf(),
            old(self)@.capacity > 0,
            old(self)@.last_index < usize::MAX,
        ensures
            final(self).wf(),
            index == old(self)@.last_index + 1,
            final(self)@.last_index == index,
            final(self)@.capacity == old(self)@.capacity,
            final(self)@.entries == (if old(self)@.entries.len() >= old(self)@.capacity {
                old(self)@.entries.drop_first()
            } else {
                old(self)@.entries
            }).push(HistoryEntry { index, expression, result, error }),
            final(self)@ == push_model(old(self)@, (expression, result, error)),
    {
        let index = self.pushed + 1;
        if self.entries.len() >= self.capacity {
            self.entries.remove(0);
        }
        self.entries.push(HistoryEntry { index, expression, result, error });
        self.pushed = index;
        index
    }

    /// Return a copy of all history entries.
    pub fn entries(&self) -> (r: Vec<HistoryEntry>)
        ensures
            r@ == self@.entries,
    {
        let mut r: Vec<HistoryEntry> = Vec::new();
        for i in 0..self.entries.len()
            invariant
                r@ == self.entries@.take(i as int),
        {
            r.push(copy_entry(&self.entries[i]));
            assert(self.entries@.take(i + 1) == self.entries@.take(i as int).push(
                self.entries@[i as int],
            ));
        }
        assert(self.entries@.take(self.entries.len() as int) == self.entries@);
        r
    }

    /// Clear all history entries; numbering starts again at 1.
    pub fn clear(&mut self)
        ensures
            final(self).wf(),
            final(self)@.entries.len() == 0,
            final(self)@.last_index == 0,
            final(self)@.capacity == old(self)@.capacity,
    {
        self.entries.clear();
        self.pushed = 0;
    }
}

impl Default for History {
    fn default() -> (h: Self)
        ensures
            h.wf(),
            h@.entries.len() == 0,
            h@.capacity == DEFAULT_CAPACITY,
            h@.last_index == 0,
    {
        Self::new()
    }
}

/// The history after one push of `(expression, result, error)`, as `push`
/// states it.
pub open spec fn push_model(h: HistoryModel, x: (String, Option<String>, bool)) -> HistoryModel {
    let index = h.last_index + 1;
    HistoryModel {
        entries: (if h.entries.len() >= h.capacity {
            h.entries.drop_first()
        } else {
            h.entries
        }).push(HistoryEntry { index: index as usize, expression: x.0, result: x.1, error: x.2 }),
        capacity: h.capacity,
        last_index: index,
    }
}

/// The history after pushing each of `xs` in order.
pub open spec fn push_all(h: HistoryModel, xs: Seq<(String, Option<String>, bool)>) -> HistoryModel
    decreases xs.len(),
{
    if xs.len() == 0 {
        h
    } else {
        push_model(push_all(h, xs.drop_last()), xs.last())
    }
}

/// The entry that the `i`-th push (from 0) of `xs` makes.
pub open spec fn pushed_entry(xs: Seq<(String, Option<String>, bool)>, i: int) -> HistoryEntry {
    HistoryEntry { index: (i + 1) as usize, expression: xs[i].0, result: xs[i].1, error: xs[i].2 }
}

/// After `n` pushes into an empty history of capacity `c`, it holds the
/// last `min(n, c)` pushed entries in push order, the oldest evicted first,
/// numbered by their push.
pub proof fn lemma_history_pushes(c: nat, xs: Seq<(String, Option<String>, bool)>)
    requires
        c > 0,
        xs.len() < usize::MAX,
    ensures
        ({
            let r = push_all(HistoryModel { entries: Seq::empty(), capacity: c, last_index: 0 }, xs);
            let m = if xs.len() <= c { xs.len() } else { c };
            &&& r.capacity == c
            &&& r.last_index == xs.len()
            &&& r.entries.len() == m
            &&& forall|j: int| 0 <= j < m ==> #[trigger] r.entries[j] == pushed_entry(xs, xs.len() - m + j)
        }),
    decreases xs.len(),
{
    let h0 = HistoryModel { entries: Seq::empty(), capacity: c, last_index: 0 };
    if xs.len() > 0 {
        let ys = xs.drop_last();
        lemma_history_pushes(c, ys);
        let r = push_all(h0, ys);
        let n = xs.len();
        let m0 = if ys.len() <= c { ys.len() } else { c };
        let m = if n <= c { n } else { c };
        let e = pushed_entry(xs, n - 1);
        let kept = if r.entries.len() >= c { r.entries.drop_first() } else { r.entries };
        assert(push_all(h0, xs) == push_model(r, xs.last()));
        assert(kept.push(e) == push_all(h0, xs).entries);
        assert forall|j: int| 0 <= j < m implies #[trigger] push_all(h0, xs).entries[j] == pushed_entry(
            xs,
            n - m + j,
        ) by {
            if j < m - 1 {
                if r.entries.len() >= c {
                    assert(kept[j] == r.entries[j + 1]);
                    assert(r.entries[j + 1] == pushed_entry(ys, ys.len() - m0 + j + 1));
                } else {
                    assert(kept[j] == r.entries[j]);
                    assert(r.entries[j] == pushed_entry(ys, ys.len() - m0 + j));
                }
            }
        }
    }
}

/// Pushing keeps at most `capacity` entries and keeps the newest last: the
/// retained entries are the newest ones, in the order they were pushed.
pub proof fn lemma_history_push_keeps_newest(h: HistoryModel, e: HistoryEntry)
    requires
        h.entries.len() <= h.capacity,
        h.capacity > 0,
    ensures
        ({
            let kept = if h.entries.len() >= h.capacity {
                h.entries.drop_first()
            } else {
                h.entries
            };
            let next = kept.push(e);
            &&& next.len() <= h.capacity
            &&& next.last() == e
            &&& next.drop_last() == h.entries.skip(h.entries.len() - kept.len())
        }),
{
    let kept = if h.entries.len() >= h.capacity {
        h.entries.drop_first()
    } else {
        h.entries
    };
    assert(kept.push(e).drop_last() == kept);
    assert(kept =~= h.entries.skip(h.entries.len() - kept.len()));
}

// ── Request handling ──────────────────────────────────────────────────────────

/// Configuration for the REPL server.
#[derive(Debug, Default)]
pub struct ReplConfig {
    /// Path to the Python interpreter used for the bridge.
    pub python: Option<String>,
}

/// Request sent to the Python bridge for a single keyword evaluation.
#[derive(Debug)]
pub struct EvalRequest {
    /// The keyword call expression (e.g. `"Log  hello  level=INFO"`).
    pub keyword: String,
    /// Variable bindings active in this REPL session.
    pub variables: HashMap<String, String>,
    /// Extra Python paths to add before invoking RF.
    pub python_path: Vec<String>,
}

/// The REPL methods the server knows.
#[derive(Debug, Clone, Copy, PartialEq, Eq, Structural)]
pub enum ReplMethod {
    Evaluate,
    History,
    HistoryClear,
    Complete,
    Shutdown,
    Unknown,
}

/// Which method a request name denotes.
pub open spec fn method_of(name: Seq<char>) -> ReplMethod {
    if name == "evaluate"@ {
        ReplMethod::Evaluate
    } else if name == "history"@ {
        ReplMethod::History
    } else if name == "history/clear"@ {
        ReplMethod::HistoryClear
    } else if name == "complete"@ {
        ReplMethod::Complete
    } else if name == "shutdown"@ {
        ReplMethod::Shutdown
    } else {
        ReplMethod::Unknown
    }
}

/// The method that a request name denotes, so that its parameters can be
/// read for it.
pub fn repl_method(name: &str) -> (m: ReplMethod)
    ensures
        m == method_of(name@),
{
    if str_eq(name, "evaluate") {
        ReplMethod::Evaluate
    } else if str_eq(name, "history") {
        ReplMethod::History
    } else if str_eq(name, "history/clear") {
        ReplMethod::HistoryClear
    } else if str_eq(name, "complete") {
        ReplMethod::Complete
    } else if str_eq(name, "shutdown") {
        ReplMethod::Shutdown
    } else {
        ReplMethod::Unknown
    }
}

/// A request with the parameters its method reads.  A string parameter that
/// is absent or not a string reads as empty; `variables` and `python_path`
/// that do not decode read as empty.
#[derive(Debug)]
pub enum ReplRequest {
    Evaluate { keyword: String, variables: HashMap<String, String>, python_path: Vec<String> },
    History,
    HistoryClear,
    Complete { prefix: String },
    Shutdown,
    Unknown(String),
}

/// The result of a request that succeeded.
#[derive(Debug)]
pub enum ReplResult {
    /// The history entries, oldest first.
    History(Vec<HistoryEntry>),
    /// An empty object.
    Empty,
    /// The matching expressions.
    Completions(Vec<String>),
}

/// What the host does with a request.
#[derive(Debug)]
pub enum ReplOutcome {
    /// Answer with this result.
    Reply(ReplResult),
    /// Answer with a JSON-RPC error.
    Fail(i32, String),
    /// Run this evaluation with this interpreter, then report it with
    /// `ServerState::finish_evaluate`.
    RunEval(EvalRequest, String),
}

/// How an evaluation went.
#[derive(Debug)]
pub enum EvalOutcome {
    /// The bridge answered: the result as JSON text, if any, and whether the
    /// keyword raised.
    Done { result: Option<String>, error: bool },
    /// The bridge or transport failed with this message.
    Failed(String),
}

/// The expressions among `es` whose lower-case form starts with `prefix`,
/// in history order.
pub open spec fn completions(es: Seq<HistoryEntry>, prefix: Seq<char>) -> Seq<Seq<char>>
    decreases es.len(),
{
    if es.len() == 0 {
        Seq::empty()
    } else {
        let rest = completions(es.drop_last(), prefix);
        if starts_with(str_lower_of(es.last().expression@), prefix) {
            rest.push(es.last().expression@)
        } else {
            rest
        }
    }
}

pub open spec fn string_views(v: Seq<String>) -> Seq<Seq<char>> {
    v.map_values(|s: String| s@)
}

/// The REPL server state shared across request handlers.
pub struct ServerState {
    history: History,
    python: Option<String>,
}

pub open spec fn python_or_default(python: Option<String>) -> Seq<char> {
    match python {
        Some(p) => p@,
        None => "python3"@,
    }
}

fn concat2(a: &str, b: &str) -> (r: String)
    ensures
        r@ == a@ + b@,
{
    let mut v = chars_of(a);
    let vb = chars_of(b);
    extend_chars(&mut v, vb.as_slice());
    string_of(v.as_slice())
}

impl ServerState {
    pub closed spec fn wf(&self) -> bool {
        self.history.wf() && self.history@.capacity > 0
    }

    pub closed spec fn history_model(&self) -> HistoryModel {
        self.history@
    }

    pub closed spec fn python(&self) -> Option<String> {
        self.python
    }

    pub fn new(config: ReplConfig) -> (s: Self)
        ensures
            s.wf(),
            s.history_model().entries.len() == 0,
            s.history_model().last_index == 0,
            s.python() == config.python,
    {
        ServerState { history: History::new(), python: config.python }
    }

    /// Read access to the history.
    pub fn history(&self) -> (h: &History)
        ensures
            h@ == self.history_model(),
    {
        &self.history
    }

    fn complete(&self, prefix: &str) -> (r: Vec<String>)
        ensures
            string_views(r@) == completions(self.history@.entries, str_lower_of(prefix@)),
    {
        let pc = chars_of(prefix);
        let p = lowercase_chars(pc.as_slice());
        let es = &self.history.entries;
        let mut r: Vec<String> = Vec::new();
        for i in 0..es.len()
            invariant
                p@ == str_lower_of(prefix@),
                string_views(r@) == completions(es@.take(i as int), p@),
        {
            let ghost before = es@.take(i as int);
            assert(es@.take(i + 1).drop_last() == before);
            let ec = chars_of(es[i].expression.as_str());
            let lower = lowercase_chars(ec.as_slice());
            if starts_with_chars(lower.as_slice(), p.as_slice()) {
                r.push(es[i].expression.clone());
                assert(string_views(r@) =~= string_views(r@.drop_last()).push(r@.last()@));
            }
        }
        assert(es@.take(es.len() as int) == es@);
        r
    }

    /// Handle a single request.  Errors carry the JSON-RPC error code:
    /// `-32601` method not found, `-32602` invalid params.
    pub fn handle(&mut self, req: ReplRequest) -> (out: ReplOutcome)
        requires
            old(self).wf(),
        ensures
            final(self).wf(),
            final(self).python() == old(self).python(),
            match req {
                ReplRequest::Evaluate { keyword, variables, python_path } => {
                    &&& final(self).history_model() == old(self).history_model()
                    &&& if keyword@.len() == 0 {
                        out matches ReplOutcome::Fail(code, msg) && code == -32602 && msg@
                            == "'keyword' parameter is required"@
                    } else {
                        out matches ReplOutcome::RunEval(r, python) && r.keyword == keyword
                            && r.variables == variables && r.python_path == python_path && python@
                            == python_or_default(old(self).python())
                    }
                },
                ReplRequest::History => final(self).history_model() == old(self).history_model()
                    && (out matches ReplOutcome::Reply(ReplResult::History(es)) && es@
                    == old(self).history_model().entries),
                ReplRequest::HistoryClear => {
                    &&& final(self).history_model().entries.len() == 0
                    &&& final(self).history_model().last_index == 0
                    &&& final(self).history_model().capacity == old(self).history_model().capacity
                    &&& out matches ReplOutcome::Reply(ReplResult::Empty)
                },
                ReplRequest::Complete { prefix } => final(self).history_model()
                    == old(self).history_model() && (out matches ReplOutcome::Reply(
                    ReplResult::Completions(c),
                ) && string_views(c@) == completions(
                    old(self).history_model().entries,
                    str_lower_of(prefix@),
                )),
                ReplRequest::Shutdown => final(self).history_model() == old(self).history_model()
                    && (out matches ReplOutcome::Reply(ReplResult::Empty)),
                ReplRequest::Unknown(name) => final(self).history_model()
                    == old(self).history_model() && (out matches ReplOutcome::Fail(code, msg)
                    && code == -32601 && msg@ == "Method not found: "@ + name@),
            },
    {
        match req {
            ReplRequest::Evaluate { keyword, variables, python_path } => {
                if keyword.as_str().is_empty() {
                    return ReplOutcome::Fail(-32602, "'keyword' parameter is required".to_owned());
                }
                let python = match &self.python {
                    Some(p) => p.clone(),
                    None => "python3".to_owned(),
                };
                ReplOutcome::RunEval(EvalRequest { keyword, variables, python_path }, python)
            },
            ReplRequest::History => ReplOutcome::Reply(ReplResult::History(self.history.entries())),
            ReplRequest::HistoryClear => {
                self.history.clear();
                ReplOutcome::Reply(ReplResult::Empty)
            },
            ReplRequest::Complete { prefix } => ReplOutcome::Reply(
                ReplResult::Completions(self.complete(prefix.as_str())),
            ),
            ReplRequest::Shutdown => ReplOutcome::Reply(ReplResult::Empty),
            ReplRequest::Unknown(name) => ReplOutcome::Fail(
                -32601,
                concat2("Method not found: ", name.as_str()),
            ),
        }
    }

    /// Record an evaluation that `handle` asked for: it goes into the
    /// history, as an error when the bridge failed; a failure is answered
    /// with `-32603` and the failure's message.
    pub fn finish_evaluate(&mut self, keyword: String, outcome: EvalOutcome) -> (r: Result<(), (i32, String)>)
        requires
            old(self).wf(),
            old(self).history_model().last_index < usize::MAX,
        ensures
            final(self).wf(),
            final(self).python() == old(self).python(),
            ({
                let h = old(self).history_model();
                let kept = if h.entries.len() >= h.capacity {
                    h.entries.drop_first()
                } else {
                    h.entries
                };
                let index = (h.last_index + 1) as usize;
                &&& final(self).history_model().capacity == h.capacity
                &&& final(self).history_model().last_index == index
                &&& match outcome {
                    EvalOutcome::Done { result, error } => {
                        &&& r is Ok
                        &&& final(self).history_model().entries == kept.push(
                            HistoryEntry { index, expression: keyword, result, error },
                        )
                    },
                    EvalOutcome::Failed(msg) => {
                        &&& r matches Err(e) && e.0 == -32603 && e.1 == msg
                        &&& final(self).history_model().entries == kept.push(
                            HistoryEntry { index, expression: keyword, result: None, error: true },
                        )
                    },
                }
            }),
    {
        match outcome {
            EvalOutcome::Done { result, error } => {
                self.history.push(keyword, result, error);
                Ok(())
            },
            EvalOutcome::Failed(msg) => {
                self.history.push(keyword, None, true);
                Err((-32603, msg))
            },
        }
    }
}

/// What the server does after handling one line.
#[derive(Debug, Clone, Copy, PartialEq, Eq, Structural)]
pub enum LinePlan {
    /// Send the response and read the next line.
    Respond,
    /// Send nothing and read the next line.
    Silent,
    /// Send the response, then stop serving.
    RespondAndStop,
    /// Send nothing and stop serving.
    Stop,
}

/// After a request has been handled: a request without an id is a
/// notification and gets no response; a successful `shutdown` ends the
/// session.
pub fn plan_line(method: ReplMethod, has_id: bool, succeeded: bool) -> (p: LinePlan)
    ensures
        p == (if succeeded && method == ReplMethod::Shutdown {
            if has_id {
                LinePlan::RespondAndStop
            } else {
                LinePlan::Stop
            }
        } else if has_id {
            LinePlan::Respond
        } else {
            LinePlan::Silent
        }),
{
    if succeeded && method == ReplMethod::Shutdown {
        if has_id {
            LinePlan::RespondAndStop
        } else {
            LinePlan::Stop
        }
    } else if has_id {
        LinePlan::Respond
    } else {
        LinePlan::Silent
    }
}

} // verus!
