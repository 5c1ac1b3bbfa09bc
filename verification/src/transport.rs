//! The wire shape shared by every transport: a call is framed as a
//! `Request`, a reply as a `Response`, and a failed call carries a
//! recursively nested `ErrorEnvelope`.

use vstd::prelude::*;

verus! {

/// The wire-visible outcome of serving one request.
#[derive(Clone, Copy, Debug, PartialEq, Eq, Structural)]
pub enum ErrorCode {
    /// The call succeeded.
    NoError,
    /// The request named a service this server does not host.
    ServiceNotFound,
    /// The request named a method the service does not have.
    MethodNotFound,
    /// The handler itself failed.
    Runtime,
}

impl ErrorCode {
    /// The numeric value this code takes on the wire.
    pub open spec fn spec_wire_value(self) -> nat {
        match self {
            ErrorCode::NoError => 0,
            ErrorCode::ServiceNotFound => 1,
            ErrorCode::MethodNotFound => 2,
            ErrorCode::Runtime => 3,
        }
    }

    /// Returns the numeric value this code takes on the wire.
    pub fn wire_value(self) -> (v: u64)
        ensures
            v == self.spec_wire_value(),
    {
        match self {
            ErrorCode::NoError => 0,
            ErrorCode::ServiceNotFound => 1,
            ErrorCode::MethodNotFound => 2,
            ErrorCode::Runtime => 3,
        }
    }

    /// Reads a code back from its numeric wire value.
    pub fn from_wire_value(v: u64) -> (r: Option<ErrorCode>)
        ensures
            match r {
                Some(c) => c.spec_wire_value() == v,
                None => v > 3,
            },
    {
        match v {
            0 => Some(ErrorCode::NoError),
            1 => Some(ErrorCode::ServiceNotFound),
            2 => Some(ErrorCode::MethodNotFound),
            3 => Some(ErrorCode::Runtime),
            _ => None,
        }
    }
}

/// A serializable error and its causal chain: one message per level,
/// an optional deeper cause, and the textual backtrace of the level.
#[derive(Debug)]
pub struct ErrorEnvelope {
    /// What went wrong at this level.
    pub message: String,
    /// The error this one wraps, if any.
    pub cause: Option<Box<ErrorEnvelope>>,
    /// The captured backtrace, one line per entry.
    pub backtrace: Vec<String>,
}

impl Clone for ErrorEnvelope {
    /// A clone carries the same message, cause chain and backtrace.
    fn clone(&self) -> (r: Self)
        ensures
            envelope_eq(r, *self),
        decreases *self,
    {
        let cause = match &self.cause {
            None => None,
            Some(c) => Some(Box::new((**c).clone())),
        };
        let mut backtrace: Vec<String> = Vec::new();
        let mut i: usize = 0;
        while i < self.backtrace.len()
            invariant
                i <= self.backtrace@.len(),
                view_of_strings(backtrace@) == view_of_strings(self.backtrace@.take(i as int)),
            decreases self.backtrace@.len() - i,
        {
            backtrace.push(self.backtrace[i].clone());
            i = i + 1;
            proof {
                assert(self.backtrace@.take(i as int) =~= self.backtrace@.take(i - 1).push(
                    self.backtrace@[i - 1]));
                assert(view_of_strings(backtrace@) =~= view_of_strings(self.backtrace@.take(
                    i - 1)).push(self.backtrace@[i - 1]@));
                lemma_view_of_strings_push(self.backtrace@.take(i - 1), self.backtrace@[i - 1]);
            }
        }
        proof {
            assert(self.backtrace@.take(self.backtrace@.len() as int) =~= self.backtrace@);
        }
        ErrorEnvelope { message: self.message.clone(), cause, backtrace }
    }
}

/// One framed call: who is asked to do what, with which argument bytes,
/// correlated by an opaque identifier.
#[derive(Clone, Debug)]
pub struct Request {
    /// The caller-chosen correlation identifier.
    pub id: Vec<u8>,
    /// The full name of the service asked for.
    pub service_name: String,
    /// The wire name of the method asked for.
    pub method_name: String,
    /// The encoded input message.
    pub data: Vec<u8>,
}

/// One framed reply, correlated to its request by identifier.
#[derive(Clone, Debug)]
pub struct Response {
    /// The identifier of the request this reply answers.
    pub id: Vec<u8>,
    /// The encoded output message, empty on failure.
    pub data: Vec<u8>,
    /// The routing or execution outcome.
    pub error_code: ErrorCode,
    /// The handler's error chain, present only for `Runtime` failures.
    pub error: Option<ErrorEnvelope>,
}

/// The views of a sequence of strings, element by element.
pub open spec fn view_of_strings(ss: Seq<String>) -> Seq<Seq<char>> {
    ss.map_values(|s: String| s@)
}

/// Appending one string commutes with taking views.
pub proof fn lemma_view_of_strings_push(ss: Seq<String>, s: String)
    ensures
        view_of_strings(ss.push(s)) =~= view_of_strings(ss).push(s@),
{
}

/// Two requests carry the same call exactly when all four fields agree.
pub open spec fn req_eq(a: Request, b: Request) -> bool {
    &&& a.id@ == b.id@
    &&& a.service_name@ == b.service_name@
    &&& a.method_name@ == b.method_name@
    &&& a.data@ == b.data@
}

/// Structural equality of error envelopes, level by level.
pub open spec fn envelope_eq(a: ErrorEnvelope, b: ErrorEnvelope) -> bool
    decreases a,
{
    &&& a.message@ == b.message@
    &&& view_of_strings(a.backtrace@) == view_of_strings(b.backtrace@)
    &&& match (a.cause, b.cause) {
        (None, None) => true,
        (Some(ca), Some(cb)) => envelope_eq(*ca, *cb),
        _ => false,
    }
}

/// Two responses carry the same reply exactly when all fields agree.
pub open spec fn resp_eq(a: Response, b: Response) -> bool {
    &&& a.id@ == b.id@
    &&& a.data@ == b.data@
    &&& a.error_code == b.error_code
    &&& match (a.error, b.error) {
        (None, None) => true,
        (Some(ea), Some(eb)) => envelope_eq(ea, eb),
        _ => false,
    }
}

/// A reply carrying the output of a successful call.
pub fn data_response(request_id: Vec<u8>, data: Vec<u8>) -> (r: Response)
    ensures
        r.id@ == request_id@,
        r.data@ == data@,
        r.error_code == ErrorCode::NoError,
        r.error is None,
{
    Response { id: request_id, data, error_code: ErrorCode::NoError, error: None }
}

/// A reply carrying only a routing error code and no payload.
pub fn error_code_response(request_id: Vec<u8>, error_code: ErrorCode) -> (r: Response)
    ensures
        r.id@ == request_id@,
        r.data@ == Seq::<u8>::empty(),
        r.error_code == error_code,
        r.error is None,
{
    Response { id: request_id, data: Vec::new(), error_code, error: None }
}

/// A reply carrying a handler failure and its full cause chain.
pub fn error_response(request_id: Vec<u8>, error: ErrorEnvelope) -> (r: Response)
    ensures
        r.id@ == request_id@,
        r.data@ == Seq::<u8>::empty(),
        r.error_code == ErrorCode::Runtime,
        r.error is Some && envelope_eq(r.error->0, error),
{
    let r = Response {
        id: request_id,
        data: Vec::new(),
        error_code: ErrorCode::Runtime,
        error: Some(error),
    };
    proof {
        lemma_envelope_eq_reflexive(r.error->0);
    }
    r
}

/// Envelope equality is reflexive.
pub proof fn lemma_envelope_eq_reflexive(e: ErrorEnvelope)
    ensures
        envelope_eq(e, e),
    decreases e,
{
    match e.cause {
        None => {},
        Some(c) => lemma_envelope_eq_reflexive(*c),
    }
}

} // verus!
