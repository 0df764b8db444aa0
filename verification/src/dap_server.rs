//! The DAP session: request handling by the debugger, and the numbering and
//! framing of the responses.  The host reads messages, performs the
//! debugger's actions and writes what this session answers.
use vstd::prelude::*;

use crate::dap_types::DapMessage;
use crate::debugger::{dap_step, request_fits, DapBody, DapOutcome, DapRequest, DebuggerModel, RfDebugger};
use crate::protocol::DapProtocol;
use crate::text::str_eq;

verus! {

/// DAP server state: the debugger and the next outgoing sequence number.
pub struct DapServer {
    debugger: RfDebugger,
    seq: i64,
}

impl DapServer {
    /// The well-formedness the debugger keeps.
    pub closed spec fn wf(&self) -> bool {
        self.debugger.wf()
    }

    /// The debugger's model.
    pub closed spec fn debugger_model(&self) -> DebuggerModel {
        self.debugger@
    }

    /// The sequence number the next response gets.
    pub closed spec fn next_seq_spec(&self) -> i64 {
        self.seq
    }

    /// Create a new server with a fresh debugger; responses are numbered
    /// from 1.
    pub fn new() -> (s: Self)
        ensures
            s.wf(),
            s.next_seq_spec() == 1,
            s.debugger_model().threads.len() == 0,
            !s.debugger_model().process,
    {
        DapServer { debugger: RfDebugger::new(), seq: 1 }
    }

    /// The sequence number the next response gets.
    pub fn seq(&self) -> (s: i64)
        ensures
            s == self.next_seq_spec(),
    {
        self.seq
    }

    fn next_seq(&mut self) -> (s: i64)
        requires
            old(self).seq < i64::MAX,
        ensures
            s == old(self).seq,
            final(self).seq == old(self).seq + 1,
            final(self).debugger == old(self).debugger,
    {
        let s = self.seq;
        self.seq = self.seq + 1;
        s
    }

    /// Let the debugger handle a request.
    pub fn handle(&mut self, req: &DapRequest) -> (out: DapOutcome)
        requires
            old(self).wf(),
            request_fits(*req),
        ensures
            final(self).wf(),
            final(self).next_seq_spec() == old(self).next_seq_spec(),
            dap_step(old(self).debugger_model(), *req, final(self).debugger_model(), out),
    {
        self.debugger.handle(req)
    }

    /// The launched process has started.
    pub fn launch_started(&mut self) -> (b: DapBody)
        requires
            old(self).wf(),
        ensures
            final(self).wf(),
            b is Empty,
            final(self).next_seq_spec() == old(self).next_seq_spec(),
            final(self).debugger_model().process,
    {
        self.debugger.launch_started()
    }

    /// The response to request `request_seq` for `command`: a success with
    /// the body, or an error with the message; numbered with the next
    /// sequence number.  Also whether the session ends after it: it does
    /// after `disconnect`.
    pub fn respond(&mut self, request_seq: i64, command: &str, result: Result<Option<serde_json::Value>, String>) -> (r: (DapMessage, bool))
        requires
            old(self).next_seq_spec() < i64::MAX,
        ensures
            final(self).next_seq_spec() == old(self).next_seq_spec() + 1,
            final(self).debugger_model() == old(self).debugger_model(),
            final(self).wf() == old(self).wf(),
            r.1 == (command@ == "disconnect"@),
            match result {
                Ok(body) => r.0 matches DapMessage::Response(m) && m.seq == old(self).next_seq_spec()
                    && m.request_seq == request_seq && m.success && m.command@ == command@
                    && m.message is None && m.body == body,
                Err(e) => r.0 matches DapMessage::Response(m) && m.seq == old(self).next_seq_spec()
                    && m.request_seq == request_seq && !m.success && m.command@ == command@
                    && m.body is None && (m.message matches Some(t) && t@ == e@),
            },
    {
        let done = str_eq(command, "disconnect");
        let seq = self.next_seq();
        let msg = match result {
            Ok(body) => DapProtocol::success_response(seq, request_seq, command, body),
            Err(e) => DapProtocol::error_response(seq, request_seq, command, e.as_str()),
        };
        (msg, done)
    }
}

} // verus!
