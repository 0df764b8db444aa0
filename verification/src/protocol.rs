//! DAP message framing.
//!
//! The Debug Adapter Protocol frames each JSON body with HTTP-like headers:
//! `Content-Length: N\r\n\r\n`.  This module builds those headers, reads
//! them back line by line, and builds the protocol's responses.
use vstd::prelude::*;

use crate::dap_types::{DapMessage, ProtocolResponse};
use crate::decimal::{
    dec_digits, int_error_kind, lemma_decimal_roundtrip, parse_decimal, parse_usize,
    usize_to_decimal, IntErrorKind,
};
use crate::text::{
    chars_of, extend_chars, is_ws, starts_with, starts_with_chars, string_of, sub_chars, trim,
    trim_chars, trim_end, trim_start,
};

verus! {

/// The header that announces a body's length.
pub open spec fn length_prefix() -> Seq<char> {
    "Content-Length: "@
}

/// The header block in front of a body of `n` bytes.
pub open spec fn header_text(n: nat) -> Seq<char> {
    length_prefix() + dec_digits(n) + "\r\n\r\n"@
}

/// A header line without its trailing line-break chars.
pub open spec fn strip_line_end(s: Seq<char>) -> Seq<char>
    decreases s.len(),
{
    if s.len() > 0 && (s.last() == '\r' || s.last() == '\n') {
        strip_line_end(s.drop_last())
    } else {
        s
    }
}

/// Why the headers of a message could not be read.
#[derive(Debug, Clone)]
pub enum HeaderError {
    /// The stream ended before the blank line that ends the headers.
    ConnectionClosed,
    /// A `Content-Length` header whose value is not a length; the value as
    /// it stood after the header name, and why it is not one.
    InvalidContentLength { value: String, kind: IntErrorKind },
    /// The headers ended without a `Content-Length`.
    MissingContentLength,
}

/// What reading one header line leads to.
#[derive(Debug, Clone)]
pub enum HeaderStep {
    /// Read the next line.
    More,
    /// The headers are complete; the body has this many bytes.
    Done(usize),
    /// The headers cannot be read.
    Fail(HeaderError),
}

/// Reads the header block of one message, one line at a time.
#[derive(Debug, Clone)]
pub struct HeaderReader {
    /// The length announced so far.
    pub content_length: Option<usize>,
}

/// The length announced by a `Content-Length` value, where it is one.
pub open spec fn length_value(rest: Seq<char>) -> Option<nat> {
    match parse_decimal(trim(rest)) {
        Some(v) => if v <= usize::MAX {
            Some(v)
        } else {
            None
        },
        None => None,
    }
}

/// Reading `line` (`None` at the end of the stream) with `before` announced
/// so far leads to `step`, with `after` announced.
pub open spec fn header_step(
    before: Option<usize>,
    line: Option<Seq<char>>,
    after: Option<usize>,
    step: HeaderStep,
) -> bool {
    match line {
        None => after == before && (step matches HeaderStep::Fail(HeaderError::ConnectionClosed)),
        Some(l) => {
            let t = strip_line_end(l);
            if t.len() == 0 {
                after == before && match before {
                    Some(n) => step == HeaderStep::Done(n),
                    None => (step matches HeaderStep::Fail(HeaderError::MissingContentLength)),
                }
            } else if starts_with(t, length_prefix()) {
                let rest = t.skip(length_prefix().len() as int);
                match length_value(rest) {
                    Some(v) => step is More && after == Some(v as usize),
                    None => after == before && (step matches HeaderStep::Fail(
                        HeaderError::InvalidContentLength { value, kind },
                    ) && value@ == rest && kind == int_error_kind(trim(rest))),
                }
            } else {
                step is More && after == before
            }
        },
    }
}

fn strip_line_end_chars(s: &[char]) -> (r: Vec<char>)
    ensures
        r@ == strip_line_end(s@),
{
    let mut k = s.len();
    assert(s@.take(s.len() as int) == s@);
    while k > 0 && (s[k - 1] == '\r' || s[k - 1] == '\n')
        invariant
            k <= s.len(),
            strip_line_end(s@.take(k as int)) == strip_line_end(s@),
        decreases k,
    {
        assert(s@.take(k as int).drop_last() == s@.take(k - 1));
        k -= 1;
    }
    sub_chars(s, 0, k)
}

impl HeaderReader {
    /// A reader that has seen no header yet.
    pub fn new() -> (r: Self)
        ensures
            r.content_length is None,
    {
        HeaderReader { content_length: None }
    }

    /// Read one header line, as read from the stream with its line break;
    /// `None` when the stream has ended.
    pub fn feed(&mut self, line: Option<&str>) -> (step: HeaderStep)
        ensures
            header_step(
                old(self).content_length,
                match line {
                    Some(l) => Some(l@),
                    None => None,
                },
                final(self).content_length,
                step,
            ),
    {
        let l = match line {
            None => return HeaderStep::Fail(HeaderError::ConnectionClosed),
            Some(l) => l,
        };
        let lc = chars_of(l);
        let t = strip_line_end_chars(lc.as_slice());
        if t.len() == 0 {
            return match self.content_length {
                Some(n) => HeaderStep::Done(n),
                None => HeaderStep::Fail(HeaderError::MissingContentLength),
            };
        }
        let prefix = chars_of("Content-Length: ");
        proof {
            reveal_strlit("Content-Length: ");
        }
        if starts_with_chars(t.as_slice(), prefix.as_slice()) {
            let rest = sub_chars(t.as_slice(), prefix.len(), t.len());
            assert(rest@ == t@.skip(length_prefix().len() as int));
            let value = trim_chars(rest.as_slice());
            match parse_usize(value.as_slice()) {
                Ok(n) => {
                    self.content_length = Some(n);
                    HeaderStep::More
                },
                Err(kind) => HeaderStep::Fail(
                    HeaderError::InvalidContentLength { value: string_of(rest.as_slice()), kind },
                ),
            }
        } else {
            HeaderStep::More
        }
    }
}

/// Content-Length–framed DAP message builder.
pub struct DapProtocol;

impl DapProtocol {
    /// The header block to write in front of a body of `len` bytes.
    pub fn frame_header(len: usize) -> (h: String)
        ensures
            h@ == header_text(len as nat),
    {
        let mut v = chars_of("Content-Length: ");
        let digits = usize_to_decimal(len);
        extend_chars(&mut v, digits.as_slice());
        let end = chars_of("\r\n\r\n");
        extend_chars(&mut v, end.as_slice());
        string_of(v.as_slice())
    }

    /// Build an error response for a failed request.
    pub fn error_response(seq: i64, request_seq: i64, command: &str, message: &str) -> (m:
        DapMessage)
        ensures
            m matches DapMessage::Response(r) && r.seq == seq && r.request_seq == request_seq
                && !r.success && r.command@ == command@ && r.body is None && (r.message matches Some(
                t) && t@ == message@),
    {
        DapMessage::Response(
            ProtocolResponse {
                seq,
                request_seq,
                success: false,
                command: command.to_owned(),
                message: Some(message.to_owned()),
                body: None,
            },
        )
    }

    /// Build a success response for a request.
    pub fn success_response(
        seq: i64,
        request_seq: i64,
        command: &str,
        body: Option<serde_json::Value>,
    ) -> (m: DapMessage)
        ensures
            m matches DapMessage::Response(r) && r.seq == seq && r.request_seq == request_seq
                && r.success && r.command@ == command@ && r.message is None && r.body == body,
    {
        DapMessage::Response(
            ProtocolResponse {
                seq,
                request_seq,
                success: true,
                command: command.to_owned(),
                message: None,
                body,
            },
        )
    }
}

proof fn lemma_digits_not_ws(n: nat)
    ensures
        trim(dec_digits(n)) == dec_digits(n),
{
    lemma_decimal_roundtrip(n);
    let d = dec_digits(n);
    assert(parse_decimal(d) == Some(n));
    assert(d.len() > 0);
    assert(!is_ws(d[0]));
    assert(!is_ws(d.last()));
    assert(trim_end(d) == d);
    assert(trim_start(d) == d);
}

/// The header block that `frame_header` writes, read back line by line by
/// a fresh `HeaderReader`, announces the length it was written for: its
/// first line sets the length and its blank line ends the headers.
pub proof fn lemma_header_roundtrip(n: usize, after1: Option<usize>, step1: HeaderStep, after2: Option<usize>, step2: HeaderStep)
    requires
        header_step(None, Some(length_prefix() + dec_digits(n as nat) + "\r\n"@), after1, step1),
        header_step(after1, Some("\r\n"@), after2, step2),
    ensures
        header_text(n as nat) == (length_prefix() + dec_digits(n as nat) + "\r\n"@) + "\r\n"@,
        step1 is More,
        step2 == HeaderStep::Done(n),
{
    reveal_strlit("Content-Length: ");
    reveal_strlit("\r\n");
    reveal_strlit("\r\n\r\n");
    reveal_strlit("\r");
    let d = dec_digits(n as nat);
    let l1 = length_prefix() + d + "\r\n"@;
    lemma_decimal_roundtrip(n as nat);
    lemma_digits_not_ws(n as nat);
    let l2 = length_prefix() + d + "\r"@;
    let l3 = length_prefix() + d;
    assert(l1.drop_last() =~= l2);
    assert(l2.drop_last() =~= l3);
    assert(l1.last() == '\n');
    assert(l2.last() == '\r');
    assert(l3.last() == d.last());
    assert(d.last() != '\r' && d.last() != '\n');
    assert(strip_line_end(l3) == l3);
    assert(strip_line_end(l2) == l3);
    assert(strip_line_end(l1) == l3);
    assert(l3.take(length_prefix().len() as int) =~= length_prefix());
    assert(starts_with(l3, length_prefix()));
    assert(l3.skip(length_prefix().len() as int) =~= d);
    assert(length_value(d) == Some(n as nat));
    let e1: Seq<char> = "\r\n"@;
    assert(e1.drop_last() =~= "\r"@);
    let e2: Seq<char> = "\r"@;
    assert(e2.drop_last() =~= Seq::<char>::empty());
    assert(strip_line_end(Seq::<char>::empty()).len() == 0);
    assert(strip_line_end(e2).len() == 0);
    assert(strip_line_end(e1).len() == 0);
    assert(header_text(n as nat) =~= l1 + "\r\n"@);
}

} // verus!
