//! Redirect capture: parsing of the browser's request line and the
//! one-shot listener session.
//!
//! The embedding application owns the socket; it hands every connection's
//! bytes to [`RedirectCapture::on_connection`] and writes back the returned
//! response. The session decides: a well-formed request line yields the
//! request-target and closes the session, anything malformed is answered
//! with `400 Bad Request` while the session keeps listening.

use vstd::prelude::*;

verus! {

use vstd::string::StrSliceExecFns;
use vstd::string::StringExecFns;
use vstd::utf8::valid_utf8;
use vstd::utf8::decode_utf8;
use crate::text::chars_of_str;
use crate::text::copy_range;
use crate::text::string_from_chars;

/// Whitespace as the request-line tokenizer understands it.
pub open spec fn is_ws(c: char) -> bool {
    c == ' ' || c == '\t' || c == '\r' || c == '\n'
}

/// First position at or after `i` holding a non-whitespace character
/// (or the end of `s`).
pub open spec fn skip_ws(s: Seq<char>, i: int) -> int
    decreases s.len() - i
        when 0 <= i <= s.len()
{
    if i < s.len() && is_ws(s[i]) {
        skip_ws(s, i + 1)
    } else {
        i
    }
}

/// First position at or after `i` holding a whitespace character
/// (or the end of `s`).
pub open spec fn skip_token(s: Seq<char>, i: int) -> int
    decreases s.len() - i
        when 0 <= i <= s.len()
{
    if i < s.len() && !is_ws(s[i]) {
        skip_token(s, i + 1)
    } else {
        i
    }
}

/// The second whitespace-separated token of `s`: for an HTTP request line,
/// the request-target between the method and the protocol version.
pub open spec fn second_token(s: Seq<char>) -> Option<Seq<char>> {
    let a = skip_ws(s, 0);
    let b = skip_token(s, a);
    let c = skip_ws(s, b);
    let d = skip_token(s, c);
    if c < s.len() {
        Some(s.subrange(c, d))
    } else {
        None
    }
}

proof fn lemma_skip_ws_bounds(s: Seq<char>, i: int)
    requires
        0 <= i <= s.len(),
    ensures
        i <= skip_ws(s, i) <= s.len(),
    decreases s.len() - i,
{
    if i < s.len() && is_ws(s[i]) {
        lemma_skip_ws_bounds(s, i + 1);
    }
}

proof fn lemma_skip_token_bounds(s: Seq<char>, i: int)
    requires
        0 <= i <= s.len(),
    ensures
        i <= skip_token(s, i) <= s.len(),
    decreases s.len() - i,
{
    if i < s.len() && !is_ws(s[i]) {
        lemma_skip_token_bounds(s, i + 1);
    }
}

/// Confirmation page shown in the browser once the redirect was captured.
pub open spec fn success_response_spec() -> Seq<char> {
    "HTTP/1.1 200 OK\r\n\r\n<html><body><h1>Authorization received</h1><p>You can close this tab and return to the application.</p></body></html>"@
}

/// Diagnostic answer for a connection whose request could not be used.
pub open spec fn bad_request_response_spec(msg: Seq<char>) -> Seq<char> {
    "HTTP/1.1 400 Bad Request\r\n\r\n400 - Bad Request - "@ + msg
}

/// The `200 OK` response carrying the static confirmation page.
pub fn success_response() -> (r: String)
    ensures
        r@ == success_response_spec(),
{
    String::from_str(
        "HTTP/1.1 200 OK\r\n\r\n<html><body><h1>Authorization received</h1><p>You can close this tab and return to the application.</p></body></html>",
    )
}

/// The `400 Bad Request` response with a diagnostic body.
pub fn bad_request_response(msg: &str) -> (r: String)
    ensures
        r@ == bad_request_response_spec(msg@),
{
    let mut r = String::from_str("HTTP/1.1 400 Bad Request\r\n\r\n400 - Bad Request - ");
    r.append(msg);
    r
}

/// Relies on `core::str::from_utf8`: it returns `Ok` exactly on a valid
/// UTF-8 encoding, and the resulting string consists of the decoded
/// characters of those bytes.
#[verifier::external_body]
fn bytes_to_str(bytes: &[u8]) -> (r: Option<&str>)
    ensures
        r is Some <==> valid_utf8(bytes@),
        r is Some ==> r.unwrap()@ == decode_utf8(bytes@),
{
    core::str::from_utf8(bytes).ok()
}

/// What one connection produced.
pub enum ConnectionOutcome {
    /// The request line was usable: `target` is its request-target, and
    /// `response` the confirmation page to send before closing down.
    Captured { target: String, response: String },
    /// The request was malformed; `response` is the `400` answer to send.
    /// The session keeps listening.
    Rejected { response: String },
}

/// One redirect-capture attempt: accepts connections until a single usable
/// request line arrives, then closes.
pub struct RedirectCapture {
    listening: bool,
}

impl RedirectCapture {
    /// Whether the session still accepts connections.
    pub closed spec fn listening(self) -> bool {
        self.listening
    }

    /// Start a capture session (the application binds the socket).
    pub fn begin() -> (s: Self)
        ensures
            s.listening(),
    {
        RedirectCapture { listening: true }
    }

    /// Exec view of [`RedirectCapture::listening`].
    pub fn is_listening(&self) -> (r: bool)
        ensures
            r == self.listening(),
    {
        self.listening
    }

    /// Decide one connection, given the bytes it sent.
    ///
    /// A well-formed request (valid UTF-8 with a request-target after the
    /// method) is captured: the session closes and the target is returned
    /// together with the confirmation response. Anything else is rejected
    /// with a `400` response and the session keeps listening, so that
    /// speculative browser requests cannot abort the real capture.
    pub fn on_connection(&mut self, buffer: &[u8]) -> (out: ConnectionOutcome)
        requires
            old(self).listening(),
        ensures
            match out {
                ConnectionOutcome::Captured { target, response } => {
                    &&& !final(self).listening()
                    &&& valid_utf8(buffer@)
                    &&& second_token(decode_utf8(buffer@)) == Some(target@)
                    &&& response@ == success_response_spec()
                },
                ConnectionOutcome::Rejected { response } => {
                    &&& final(self).listening()
                    &&& (valid_utf8(buffer@) ==> {
                        &&& second_token(decode_utf8(buffer@)) is None
                        &&& response@ == bad_request_response_spec("Malformed request"@)
                    })
                    &&& (!valid_utf8(buffer@) ==> response@ == bad_request_response_spec(
                        "Invalid UTF-8 sequence"@,
                    ))
                },
            },
    {
        match bytes_to_str(buffer) {
            None => ConnectionOutcome::Rejected {
                response: bad_request_response("Invalid UTF-8 sequence"),
            },
            Some(s) => {
                let v = chars_of_str(s);
                proof {
                    lemma_skip_ws_bounds(v@, 0);
                    lemma_skip_token_bounds(v@, skip_ws(v@, 0));
                    lemma_skip_ws_bounds(v@, skip_token(v@, skip_ws(v@, 0)));
                }
                let a = scan_ws(&v, 0);
                let b = scan_token(&v, a);
                let c = scan_ws(&v, b);
                if c < v.len() {
                    proof {
                        lemma_skip_token_bounds(v@, c as int);
                    }
                    let d = scan_token(&v, c);
                    let tok = copy_range(&v, c, d);
                    let target = string_from_chars(&tok);
                    self.listening = false;
                    ConnectionOutcome::Captured { target, response: success_response() }
                } else {
                    ConnectionOutcome::Rejected {
                        response: bad_request_response("Malformed request"),
                    }
                }
            },
        }
    }
}

/// Exec twin of [`is_ws`].
fn is_ws_char(c: char) -> (r: bool)
    ensures
        r == is_ws(c),
{
    c == ' ' || c == '\t' || c == '\r' || c == '\n'
}

/// Exec twin of [`skip_ws`].
fn scan_ws(v: &Vec<char>, start: usize) -> (r: usize)
    requires
        start <= v@.len(),
    ensures
        r == skip_ws(v@, start as int),
        start <= r <= v@.len(),
{
    let mut i: usize = start;
    while i < v.len() && is_ws_char(v[i])
        invariant
            start <= i <= v@.len(),
            skip_ws(v@, start as int) == skip_ws(v@, i as int),
        decreases v@.len() - i,
    {
        i = i + 1;
    }
    i
}

/// Exec twin of [`skip_token`].
fn scan_token(v: &Vec<char>, start: usize) -> (r: usize)
    requires
        start <= v@.len(),
    ensures
        r == skip_token(v@, start as int),
        start <= r <= v@.len(),
{
    let mut i: usize = start;
    while i < v.len() && !is_ws_char(v[i])
        invariant
            start <= i <= v@.len(),
            skip_token(v@, start as int) == skip_token(v@, i as int),
        decreases v@.len() - i,
    {
        i = i + 1;
    }
    i
}

} // verus!
