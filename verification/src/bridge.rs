//! The messages exchanged with the Robot Framework Python runtime, and the
//! canned responses of a test bridge.
use vstd::prelude::*;

use std::collections::HashMap;
use std::collections::VecDeque;

use crate::table::{keys_unique, lemma_table_absent, lemma_table_lookup, lemma_table_update, table_map};
use crate::text::{chars_of, extend_chars, str_eq, string_of};

verus! {

/// Installed Robot Framework version information.
#[derive(Debug, Clone, PartialEq, Eq)]
pub struct RfVersion {
    pub version: String,
    pub major: u32,
    pub minor: u32,
    pub patch: u32,
}

/// Request parameters for `library_doc`.
#[derive(Debug, Clone, Default)]
pub struct LibraryDocParams {
    /// Library name (e.g. `"BuiltIn"`) or filesystem path.
    pub name: String,
    /// Constructor arguments passed to the library.
    pub args: Vec<String>,
    /// Working directory for resolving relative library paths.
    pub base_dir: Option<String>,
    /// Extra entries to prepend to `sys.path`.
    pub python_path: Vec<String>,
    /// RF variables to set before introspection.
    pub variables: HashMap<String, String>,
}

/// A keyword argument descriptor.
#[derive(Debug, Clone)]
pub struct ArgInfo {
    pub name: String,
    pub kind: String,
    pub default: Option<String>,
    pub types: Vec<String>,
}

/// A single keyword's documentation.
#[derive(Debug, Clone)]
pub struct KeywordDoc {
    pub name: String,
    pub args: Vec<ArgInfo>,
    pub doc: String,
    pub tags: Vec<String>,
    pub source: Option<String>,
    pub lineno: Option<i64>,
}

/// Library initializer documentation.
#[derive(Debug, Clone)]
pub struct InitDoc {
    pub args: Vec<ArgInfo>,
    pub doc: String,
}

/// Full library documentation returned by `library_doc`.
#[derive(Debug, Clone)]
pub struct LibraryDoc {
    pub name: String,
    pub doc: String,
    pub version: String,
    pub scope: String,
    pub named_args: bool,
    pub keywords: Vec<KeywordDoc>,
    pub inits: Vec<InitDoc>,
    pub typedocs: Vec<serde_json::Value>,
}

/// The value `named_args` takes when a library's documentation omits it.
pub fn default_true() -> (b: bool)
    ensures
        b,
{
    true
}

/// Request parameters for `variables_doc`.
#[derive(Debug, Clone, Default)]
pub struct VariablesDocParams {
    pub path: String,
    pub args: Vec<String>,
    pub base_dir: Option<String>,
}

/// A single variable entry from a variables file.
#[derive(Debug, Clone)]
pub struct VariableEntry {
    pub name: String,
    pub value: String,
    pub source: String,
    pub lineno: i64,
}

/// Full variables file documentation returned by `variables_doc`.
#[derive(Debug, Clone)]
pub struct VariablesDoc {
    pub variables: Vec<VariableEntry>,
}

/// Parsed embedded argument pattern.
#[derive(Debug, Clone)]
pub struct EmbeddedArgs {
    pub name: String,
    pub args: Vec<String>,
    pub regex: String,
}

/// Request parameters for `discover`.
#[derive(Debug, Clone, Default)]
pub struct DiscoverParams {
    pub paths: Vec<String>,
    pub include_tags: Vec<String>,
    pub exclude_tags: Vec<String>,
    pub python_path: Vec<String>,
}

/// A discovered test entry.
#[derive(Debug, Clone)]
pub struct DiscoveredTest {
    pub name: String,
    pub tags: Vec<String>,
    pub lineno: Option<i64>,
}

/// A discovered test suite (may be nested).
#[derive(Debug)]
pub struct DiscoveredSuite {
    pub name: String,
    pub source: Option<String>,
    pub tests: Vec<DiscoveredTest>,
    pub suites: Vec<DiscoveredSuite>,
}

/// Top-level discover result.
#[derive(Debug)]
pub struct DiscoverResult {
    pub suites: Vec<DiscoveredSuite>,
}

// ── Canned responses ─────────────────────────────────────────────────────────

/// What `format!("{:?}", s)` writes for a string: the string quoted, with
/// quotes, backslashes and unprintable chars escaped.
pub uninterp spec fn debug_quoted(s: Seq<char>) -> Seq<char>;

/// `format!("{:?}", s)`: its contract claims the text is `debug_quoted` of
/// the string.
#[verifier::external_body]
fn debug_string(s: &str) -> (r: String)
    ensures
        r@ == debug_quoted(s@),
{
    format!("{:?}", s)
}

/// The canned responses of a test bridge: per method, a queue of responses
/// handed out once each, oldest first.
pub struct MockResponses {
    queues: Vec<(String, VecDeque<serde_json::Value>)>,
}

/// Why a canned call failed.
pub open spec fn no_response_message(method: Seq<char>) -> Seq<char> {
    "MockBridge: no response registered for "@ + debug_quoted(method)
}

pub open spec fn exhausted_message(method: Seq<char>) -> Seq<char> {
    "MockBridge: response queue exhausted for "@ + debug_quoted(method)
}

/// The queues that a list of registrations gives: a later registration of a
/// method replaces an earlier one.
pub open spec fn registrations_map(rs: Seq<(String, Vec<serde_json::Value>)>) -> Map<Seq<char>, Seq<serde_json::Value>>
    decreases rs.len(),
{
    if rs.len() == 0 {
        Map::empty()
    } else {
        registrations_map(rs.drop_last()).insert(rs.last().0@, rs.last().1@)
    }
}

fn concat2(a: &str, b: &str) -> (r: String)
    ensures
        r@ == a@ + b@,
{
    let mut v = chars_of(a);
    let vb = chars_of(b);
    extend_chars(&mut v, vb.as_slice());
    string_of(v.as_slice())
}

/// One call of `method` on the queues `q`: the oldest response queued for
/// it leaves its queue and is handed out; without one, nothing changes.
pub open spec fn take_step(q: Map<Seq<char>, Seq<serde_json::Value>>, method: Seq<char>) -> (
    Map<Seq<char>, Seq<serde_json::Value>>,
    Option<serde_json::Value>,
) {
    if q.contains_key(method) && q[method].len() > 0 {
        (q.insert(method, q[method].drop_first()), Some(q[method][0]))
    } else {
        (q, None)
    }
}

/// What `n` calls of `method` in a row hand out.
pub open spec fn take_many(q: Map<Seq<char>, Seq<serde_json::Value>>, method: Seq<char>, n: nat) -> Seq<
    Option<serde_json::Value>,
>
    decreases n,
{
    if n == 0 {
        Seq::empty()
    } else {
        seq![take_step(q, method).1] + take_many(take_step(q, method).0, method, (n - 1) as nat)
    }
}

/// Canned responses come out first in, first out: `n` calls of a method
/// hand out its queued responses in the order they were registered, and
/// nothing once they are used up.
pub proof fn lemma_take_fifo(q: Map<Seq<char>, Seq<serde_json::Value>>, method: Seq<char>, n: nat)
    requires
        q.contains_key(method),
    ensures
        take_many(q, method, n).len() == n,
        forall|j: int|
            0 <= j < n ==> #[trigger] take_many(q, method, n)[j] == (if j < q[method].len() {
                Some(q[method][j])
            } else {
                None
            }),
    decreases n,
{
    if n > 0 {
        let q1 = take_step(q, method).0;
        lemma_take_fifo(q1, method, (n - 1) as nat);
        let vs = q[method];
        assert(q1[method] == if vs.len() > 0 { vs.drop_first() } else { vs });
        let t = take_many(q, method, n);
        assert forall|j: int| 0 <= j < n implies #[trigger] t[j] == (if j < vs.len() {
            Some(vs[j])
        } else {
            None
        }) by {
            if j > 0 {
                assert(t[j] == take_many(q1, method, (n - 1) as nat)[j - 1]);
            }
        }
    }
}

impl MockResponses {
    spec fn entries(&self) -> Seq<(Seq<char>, Seq<serde_json::Value>)> {
        Seq::new(self.queues@.len(), |i: int| (self.queues@[i].0@, self.queues@[i].1@))
    }

    /// The queue of responses per method.
    pub closed spec fn queues_spec(&self) -> Map<Seq<char>, Seq<serde_json::Value>> {
        table_map(self.entries())
    }

    /// Each method has one queue.
    pub closed spec fn wf(&self) -> bool {
        keys_unique(self.entries())
    }

    /// No responses: every call fails.
    pub fn empty() -> (m: Self)
        ensures
            m.wf(),
            m.queues_spec() == Map::<Seq<char>, Seq<serde_json::Value>>::empty(),
    {
        let m = MockResponses { queues: Vec::new() };
        assert(m.entries().len() == 0);
        m
    }

    fn set_queue(&mut self, method: String, q: VecDeque<serde_json::Value>)
        requires
            old(self).wf(),
        ensures
            final(self).wf(),
            final(self).queues_spec() == old(self).queues_spec().insert(method@, q@),
    {
        let ghost old_entries = self.entries();
        let mut i: usize = 0;
        while i < self.queues.len()
            invariant
                i <= self.queues.len(),
                self.entries() == old_entries,
                keys_unique(old_entries),
                *self == *old(self),
                old_entries == old(self).entries(),
                forall|j: int| 0 <= j < i ==> old_entries[j].0 != method@,
            decreases self.queues.len() - i,
        {
            if self.queues[i].0 == method {
                let ghost k = old_entries[i as int].0;
                proof {
                    lemma_table_update(old_entries, i as int, q@);
                }
                self.queues.set(i, (method, q));
                assert(self.entries() =~= old_entries.update(i as int, (k, q@)));
                return;
            }
            assert(old_entries[i as int].0 == self.queues@[i as int].0@);
            i += 1;
        }
        proof {
            lemma_table_absent(old_entries, method@);
        }
        self.queues.push((method, q));
        assert(self.entries() =~= old_entries.push((method@, q@)));
        assert(self.entries().drop_last() == old_entries);
    }

    /// Responses registered per method; a method registered twice keeps its
    /// last list.
    pub fn with_responses(responses: Vec<(String, Vec<serde_json::Value>)>) -> (m: Self)
        ensures
            m.wf(),
            m.queues_spec() == registrations_map(responses@),
    {
        let mut m = Self::empty();
        let mut rest = responses;
        let ghost all = rest@;
        let mut i: usize = 0;
        let n = rest.len();
        assert(all.skip(0) == all);
        while i < n
            invariant
                n == all.len(),
                i <= n,
                m.wf(),
                m.queues_spec() == registrations_map(all.take(i as int)),
                rest@ == all.skip(i as int),
            decreases n - i,
        {
            let (name, mut values) = rest.remove(0);
            assert(all.skip(i as int)[0] == all[i as int]);
            assert(rest@ == all.skip(i + 1));
            let ghost vs = values@;
            let mut q: VecDeque<serde_json::Value> = VecDeque::new();
            let mut j: usize = 0;
            let k = values.len();
            while j < k
                invariant
                    k == vs.len(),
                    j <= k,
                    q@ == vs.take(j as int),
                    values@ == vs.skip(j as int),
                decreases k - j,
            {
                let v = values.remove(0);
                assert(vs.skip(j as int)[0] == vs[j as int]);
                assert(values@ == vs.skip(j + 1));
                q.push_back(v);
                assert(q@ == vs.take(j + 1));
                j += 1;
            }
            assert(vs.take(k as int) == vs);
            m.set_queue(name, q);
            assert(all.take(i + 1).drop_last() == all.take(i as int));
            i += 1;
        }
        assert(all.take(n as int) == all);
        m
    }

    /// Hand out the oldest response queued for `method`, or say why there
    /// is none.
    pub fn take(&mut self, method: &str) -> (r: Result<serde_json::Value, String>)
        requires
            old(self).wf(),
        ensures
            final(self).wf(),
            !old(self).queues_spec().contains_key(method@) ==> final(self).queues_spec()
                == old(self).queues_spec() && (r matches Err(e) && e@ == no_response_message(
                method@,
            )),
            old(self).queues_spec().contains_key(method@) && old(self).queues_spec()[method@].len()
                == 0 ==> final(self).queues_spec() == old(self).queues_spec() && (r matches Err(e)
                && e@ == exhausted_message(method@)),
            old(self).queues_spec().contains_key(method@) && old(self).queues_spec()[method@].len()
                > 0 ==> final(self).queues_spec() == old(self).queues_spec().insert(
                method@,
                old(self).queues_spec()[method@].drop_first(),
            ) && r == Ok::<serde_json::Value, String>(old(self).queues_spec()[method@][0]),
            final(self).queues_spec() == take_step(old(self).queues_spec(), method@).0,
            match take_step(old(self).queues_spec(), method@).1 {
                Some(v) => r == Ok::<serde_json::Value, String>(v),
                None => r is Err,
            },
    {
        let ghost old_entries = self.entries();
        let mut i: usize = 0;
        while i < self.queues.len()
            invariant
                i <= self.queues.len(),
                self.entries() == old_entries,
                keys_unique(old_entries),
                *self == *old(self),
                old_entries == old(self).entries(),
                forall|j: int| 0 <= j < i ==> old_entries[j].0 != method@,
            decreases self.queues.len() - i,
        {
            if str_eq(self.queues[i].0.as_str(), method) {
                let ghost k = old_entries[i as int].0;
                proof {
                    lemma_table_lookup(old_entries, i as int);
                }
                let mut entry = self.queues.remove(i);
                let front = entry.1.pop_front();
                let ghost newq = entry.1@;
                self.queues.insert(i, entry);
                proof {
                    lemma_table_update(old_entries, i as int, newq);
                }
                assert(self.entries() =~= old_entries.update(i as int, (k, newq)));
                return match front {
                    Some(v) => Ok(v),
                    None => Err(concat2("MockBridge: response queue exhausted for ", debug_string(method).as_str())),
                };
            }
            assert(old_entries[i as int].0 == self.queues@[i as int].0@);
            i += 1;
        }
        proof {
            lemma_table_absent(old_entries, method@);
        }
        Err(concat2("MockBridge: no response registered for ", debug_string(method).as_str()))
    }
}

// ── Subprocess decisions ─────────────────────────────────────────────────────

/// What a response line of the Python helper carries.
#[derive(Debug)]
pub enum BridgeReply {
    /// The call's result.
    Result(serde_json::Value),
    /// The helper reported an error.
    Python { code: i64, message: String },
    /// The line has neither a result nor an error.
    Malformed,
}

/// The waiter a response line goes to, and what it carries.  The line's
/// fields are given as read: `id` where it is an unsigned integer; for an
/// `error` member, its `code` where it is an integer and its `message` where
/// it is a string.  A missing id reads as `u64::MAX`, which no call uses; a
/// missing code as `-32000`, a missing message as `unknown error`; an error
/// wins over a result.
pub fn bridge_reply(
    id: Option<u64>,
    error: Option<(Option<i64>, Option<String>)>,
    result: Option<serde_json::Value>,
) -> (r: (u64, BridgeReply))
    ensures
        r.0 == match id {
            Some(i) => i,
            None => u64::MAX,
        },
        match error {
            Some((code, message)) => r.1 matches BridgeReply::Python { code: c, message: m } && c
                == (match code {
                Some(x) => x,
                None => -32000i64,
            }) && m@ == (match message {
                Some(t) => t@,
                None => "unknown error"@,
            }),
            None => match result {
                Some(v) => r.1 matches BridgeReply::Result(w) && w == v,
                None => r.1 is Malformed,
            },
        },
{
    let id = match id {
        Some(i) => i,
        None => u64::MAX,
    };
    let reply = match error {
        Some((code, message)) => BridgeReply::Python {
            code: match code {
                Some(c) => c,
                None => -32000,
            },
            message: match message {
                Some(m) => m,
                None => "unknown error".to_owned(),
            },
        },
        None => match result {
            Some(v) => BridgeReply::Result(v),
            None => BridgeReply::Malformed,
        },
    };
    (id, reply)
}

/// The fields of a response line of the Python helper, as `serde_json`
/// parses the line's text: its `id` where that is an unsigned integer; for
/// an `error` member, its `code` where that is an integer and its
/// `message` where that is a string; and whether it has a `result` member.
/// `None` when the text is not JSON.
pub uninterp spec fn reply_line_fields(line: Seq<char>) -> Option<
    (Option<u64>, Option<(Option<i64>, Option<Seq<char>>)>, bool),
>;

/// The fields as plain values.
pub open spec fn fields_view(
    f: (Option<u64>, Option<(Option<i64>, Option<String>)>, Option<serde_json::Value>),
) -> (Option<u64>, Option<(Option<i64>, Option<Seq<char>>)>, bool) {
    (
        f.0,
        match f.1 {
            Some((c, m)) => Some(
                (
                    c,
                    match m {
                        Some(t) => Some(t@),
                        None => None,
                    },
                ),
            ),
            None => None,
        },
        f.2 is Some,
    )
}

/// `serde_json::from_str::<Value>` of a response line, and the members the
/// helper's protocol reads, picked with `Value::get`, `as_u64`, `as_i64`
/// and `as_str`.  The contract ties the plain fields to the name
/// `reply_line_fields`; the content of the `result` value, a JSON value
/// this library carries unread, is handed on and not stated.
#[verifier::external_body]
fn parse_reply_line(line: &str) -> (r: Option<
    (Option<u64>, Option<(Option<i64>, Option<String>)>, Option<serde_json::Value>),
>)
    ensures
        match r {
            Some(f) => reply_line_fields(line@) == Some(fields_view(f)),
            None => reply_line_fields(line@) is None,
        },
{
    let val: serde_json::Value = serde_json::from_str(line).ok()?;
    let id = val.get("id").and_then(|v| v.as_u64());
    let error = val.get("error").map(
        |err| (err.get("code").and_then(|c| c.as_i64()), err.get("message").and_then(|m| m.as_str()).map(|m| m.to_owned())),
    );
    Some((id, error, val.get("result").cloned()))
}

/// The waiter a response line goes to and what it carries, as
/// `bridge_reply` decides from the line's fields; `None` for a line that is
/// not JSON.
pub fn bridge_line_reply(line: &str) -> (r: Option<(u64, BridgeReply)>)
    ensures
        match reply_line_fields(line@) {
            None => r is None,
            Some((id, error, has_result)) => r matches Some((w, reply)) && w == (match id {
                Some(i) => i,
                None => u64::MAX,
            }) && match error {
                Some((code, message)) => reply matches BridgeReply::Python { code: c, message: m } && c == (
                match code {
                    Some(x) => x,
                    None => -32000i64,
                }) && m@ == (match message {
                    Some(t) => t,
                    None => "unknown error"@,
                }),
                None => if has_result {
                    reply is Result
                } else {
                    reply is Malformed
                },
            },
        },
{
    match parse_reply_line(line) {
        None => None,
        Some((id, error, result)) => Some(bridge_reply(id, error, result)),
    }
}

/// What a call does about the helper process first.
#[derive(Debug, Clone, Copy, PartialEq, Eq, Structural)]
pub enum RestartPlan {
    /// The process runs: go on.
    Ready,
    /// No process was started: start one.
    Start,
    /// The process exited: wait a second, then start a new one.
    RestartAfterBackOff,
}

/// Whether a process was started (`None` when not) and, if so, whether it
/// is alive, decide what happens before a call.
pub fn restart_plan(alive: Option<bool>) -> (p: RestartPlan)
    ensures
        p == match alive {
            None => RestartPlan::Start,
            Some(true) => RestartPlan::Ready,
            Some(false) => RestartPlan::RestartAfterBackOff,
        },
{
    match alive {
        None => RestartPlan::Start,
        Some(true) => RestartPlan::Ready,
        Some(false) => RestartPlan::RestartAfterBackOff,
    }
}

} // verus!
