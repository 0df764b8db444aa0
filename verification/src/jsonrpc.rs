//! JSON-RPC method registration and the language server's transport.
use vstd::prelude::*;

use crate::decimal::{dec_digits, usize_to_decimal};
use crate::text::{chars_of, extend_chars, string_of};

verus! {

/// A handler of one JSON-RPC method, named by its method name (such as
/// `"textDocument/didOpen"`).
pub trait RpcMethod {
    /// The JSON-RPC method name.
    fn method_name() -> &'static str where Self: Sized;
}

/// Transport variant for the language server: the `--stdio` and
/// `--tcp PORT` command-line flags.
#[derive(Debug, Clone, Copy, PartialEq, Eq, Structural)]
pub enum Transport {
    /// Read/write on stdin/stdout — the default LSP transport.
    Stdio,
    /// Listen on the given TCP port.
    Tcp(u16),
}

/// How a transport is shown: `stdio`, or `tcp:` and the port.
pub open spec fn transport_text(t: Transport) -> Seq<char> {
    match t {
        Transport::Stdio => "stdio"@,
        Transport::Tcp(port) => "tcp:"@ + dec_digits(port as nat),
    }
}

impl Transport {
    /// The transport as text, as it is displayed.
    pub fn to_string(&self) -> (s: String)
        ensures
            s@ == transport_text(*self),
    {
        match self {
            Transport::Stdio => "stdio".to_owned(),
            Transport::Tcp(port) => {
                let mut v = chars_of("tcp:");
                let digits = usize_to_decimal(*port as usize);
                extend_chars(&mut v, digits.as_slice());
                string_of(v.as_slice())
            },
        }
    }
}

} // verus!
