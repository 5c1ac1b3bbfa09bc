//! The client side: each call gets a fresh identifier and a framed
//! `Request`; a reply resolves exactly the waiter whose identifier it
//! carries.  Two transports share this shape: a per-call HTTP-like
//! binding whose replies are bound one-to-one to their calls, and a
//! persistent-connection binding with a shared pending map.

use vstd::prelude::*;

use crate::codec::lemma_parse_of_encode_request;
use crate::codec::lemma_parse_of_encode_response;
use crate::codec::encode_request;
use crate::codec::decode_response;
use crate::codec::spec_parse_request;
use crate::codec::spec_parse_response;
use crate::correlator::Correlator;
use crate::correlator::PendingEntry;
use crate::correlator::spec_lookup;
use crate::correlator::spec_remove;
use crate::descriptor::ServiceDescriptor;
use crate::text::spec_starts_with;
use crate::text::str_starts_with;
use crate::transport::ErrorCode;
use crate::transport::ErrorEnvelope;
use crate::transport::Request;
use crate::transport::Response;
use vstd::string::StringExecFns;

verus! {

/// The wire form of a call identifier.
pub open spec fn spec_id_bytes(id: u128) -> Seq<u8> {
    vstd::bytes::spec_u128_to_le_bytes(id)
}

/// The call identifier a wire identifier field carries, when it is the
/// right width.
pub open spec fn spec_parse_id(b: Seq<u8>) -> Option<u128> {
    if b.len() == 16 {
        Some(vstd::bytes::spec_u128_from_le_bytes(b))
    } else {
        None
    }
}

/// Writes a call identifier in its 16-byte wire form.
pub fn id_to_bytes(id: u128) -> (r: Vec<u8>)
    ensures
        r@ == spec_id_bytes(id),
        r@.len() == 16,
        spec_parse_id(r@) == Some(id),
{
    proof {
        vstd::bytes::lemma_auto_spec_u128_to_from_le_bytes();
    }
    vstd::bytes::u128_to_le_bytes(id)
}

/// Reads a call identifier back from its wire form.
pub fn id_of_bytes(b: &Vec<u8>) -> (r: Option<u128>)
    ensures
        r == spec_parse_id(b@),
{
    if b.len() != 16 {
        return None;
    }
    Some(vstd::bytes::u128_from_le_bytes(b.as_slice()))
}

/// The lifecycle of a persistent connection.
#[derive(Clone, Copy, Debug, PartialEq, Eq, Structural)]
pub enum Phase {
    /// The socket is being established; calls must wait for `onopen`.
    Connecting,
    /// The socket is open; calls go out immediately.
    Open,
    /// The socket is gone.
    Closed,
}

/// What handling one inbound frame did.
#[derive(Debug)]
pub enum MessageOutcome {
    /// The frame is not a well-formed reply; it is logged and dropped.
    DecodeFailed,
    /// The reply's identifier matches no pending call; it is dropped
    /// without resolving anything.
    UnknownId,
    /// The waiter parked under the reply's identifier, resolved with the
    /// whole decoded reply: its payload on success, its typed error code
    /// and error chain on failure.
    Resolved(u64, Response),
}

/// An RPC connection over a persistent socket: a connection phase, a
/// one-shot open signal, and the shared pending-call map.
#[derive(Debug)]
pub struct WebSocketRpcClient {
    phase: Phase,
    opened: bool,
    correlator: Correlator,
}

impl WebSocketRpcClient {
    /// The pending-call table.
    pub closed spec fn view(self) -> Seq<PendingEntry> {
        self.correlator@
    }

    /// The connection phase.
    pub closed spec fn spec_phase(self) -> Phase {
        self.phase
    }

    /// Whether the one-shot open signal has fired.
    pub closed spec fn spec_opened(self) -> bool {
        self.opened
    }

    /// The identifier the next call will get.
    pub closed spec fn spec_next_id(self) -> u128 {
        self.correlator.spec_next_id()
    }

    /// The correlator's identifiers are unique.
    pub closed spec fn wf(self) -> bool {
        self.correlator.wf()
    }

    /// Opens a new RPC link: the connection starts out connecting, with
    /// nothing pending and the open signal not yet fired.  The host owns
    /// the socket itself and reports its events.
    pub fn open() -> (r: Self)
        ensures
            r.wf(),
            r@ == Seq::<PendingEntry>::empty(),
            r.spec_phase() is Connecting,
            !r.spec_opened(),
            r.spec_next_id() == 0,
    {
        WebSocketRpcClient { phase: Phase::Connecting, opened: false, correlator: Correlator::new() }
    }

    /// The host reports the socket open.  The one-shot open signal fires
    /// on the first report and never again; a repeated report changes
    /// nothing and is the caller's cue to log a warning.
    pub fn onopen(&mut self) -> (fired: bool)
        ensures
            fired == !old(self).spec_opened(),
            final(self).spec_opened(),
            final(self)@ == old(self)@,
            final(self).wf() == old(self).wf(),
            final(self).spec_next_id() == old(self).spec_next_id(),
            fired ==> final(self).spec_phase() is Open,
            !fired ==> *final(self) == *old(self),
    {
        if self.opened {
            false
        } else {
            self.opened = true;
            self.phase = Phase::Open;
            true
        }
    }

    /// The host reports the socket closed.  Lifecycle only: no in-flight
    /// call is resolved or dropped by this.
    pub fn onclose(&mut self, _code: u16, _reason: &str, _was_clean: bool)
        ensures
            final(self)@ == old(self)@,
            final(self).wf() == old(self).wf(),
            final(self).spec_opened() == old(self).spec_opened(),
            final(self).spec_next_id() == old(self).spec_next_id(),
            final(self).spec_phase() is Closed,
    {
        self.phase = Phase::Closed;
    }

    /// The host reports a socket error.  Lifecycle only; nothing moves.
    pub fn onerror(&self)
    {
    }

    /// Issues one call: allocates a fresh identifier, parks `waiter`
    /// under it, and returns the framed request for the host to send.
    /// The frame decodes back to exactly this call.
    pub fn call(
        &mut self,
        d: &ServiceDescriptor,
        method_index: usize,
        input: Vec<u8>,
        waiter: u64,
    ) -> (frame: Vec<u8>)
        requires
            old(self).wf(),
            old(self).spec_phase() is Open,
            old(self).spec_next_id() < u128::MAX,
            method_index < d.methods@.len(),
        ensures
            final(self).wf(),
            final(self)@ == old(self)@.push((old(self).spec_next_id(), waiter)),
            final(self).spec_next_id() == old(self).spec_next_id() + 1,
            final(self).spec_phase() == old(self).spec_phase(),
            final(self).spec_opened() == old(self).spec_opened(),
            spec_lookup(final(self)@, old(self).spec_next_id()) == Some(waiter),
            spec_parse_request(frame@) == Some(
                (
                    spec_id_bytes(old(self).spec_next_id()),
                    vstd::utf8::encode_utf8(d.spec_full_name()),
                    vstd::utf8::encode_utf8(d.methods@[method_index as int].proto_name@),
                    input@,
                ),
            ),
    {
        let id = self.correlator.issue(waiter);
        let request = Request {
            id: id_to_bytes(id),
            service_name: d.full_name(),
            method_name: d.methods[method_index].proto_name.clone(),
            data: input,
        };
        let frame = encode_request(&request);
        proof {
            lemma_parse_of_encode_request(request);
        }
        frame
    }

    /// The host hands over one inbound frame.  A malformed frame is
    /// dropped with nothing resolved; a reply to an unknown identifier is
    /// dropped with every pending call untouched; a matching reply takes
    /// exactly its own waiter out of the map and carries the whole reply
    /// to it, typed error and all.
    pub fn onmessage(&mut self, data: &Vec<u8>) -> (outcome: MessageOutcome)
        requires
            old(self).wf(),
        ensures
            final(self).wf(),
            final(self).spec_phase() == old(self).spec_phase(),
            final(self).spec_opened() == old(self).spec_opened(),
            final(self).spec_next_id() == old(self).spec_next_id(),
            match outcome {
                MessageOutcome::DecodeFailed => {
                    &&& final(self)@ == old(self)@
                    &&& (spec_parse_response(data@) is None || forall|m: Response|
                        crate::codec::spec_encode_response(m) != data@ || spec_parse_id(
                            (spec_parse_response(data@)->0).0,
                        ) is None)
                },
                MessageOutcome::UnknownId => {
                    &&& final(self)@ == old(self)@
                    &&& spec_parse_response(data@) is Some
                    &&& spec_parse_id((spec_parse_response(data@)->0).0) is Some
                    &&& spec_lookup(
                        old(self)@,
                        spec_parse_id((spec_parse_response(data@)->0).0)->0,
                    ) is None
                },
                MessageOutcome::Resolved(waiter, reply) => {
                    &&& spec_parse_response(data@) is Some
                    &&& spec_parse_id((spec_parse_response(data@)->0).0) is Some
                    &&& spec_lookup(
                        old(self)@,
                        spec_parse_id((spec_parse_response(data@)->0).0)->0,
                    ) == Some(waiter)
                    &&& final(self)@ == spec_remove(
                        old(self)@,
                        spec_parse_id((spec_parse_response(data@)->0).0)->0,
                    )
                    &&& spec_lookup(
                        final(self)@,
                        spec_parse_id((spec_parse_response(data@)->0).0)->0,
                    ) is None
                    &&& crate::codec::spec_encode_response(reply) == data@
                    &&& reply.data@ == (spec_parse_response(data@)->0).1
                    &&& reply.error_code.spec_wire_value() == (spec_parse_response(data@)->0).2
                    &&& match (reply.error, (spec_parse_response(data@)->0).3) {
                        (None, None) => true,
                        (Some(e), Some(parts)) => crate::codec::env_parts_of(e) == parts,
                        _ => false,
                    }
                },
            },
    {
        let response = match decode_response(data) {
            None => {
                return MessageOutcome::DecodeFailed;
            },
            Some(r) => r,
        };
        proof {
            lemma_parse_of_encode_response(response);
        }
        let id = match id_of_bytes(&response.id) {
            None => {
                proof {
                    assert forall|m: crate::transport::Response|
                        crate::codec::spec_encode_response(m) != data@ || spec_parse_id(
                            (spec_parse_response(data@)->0).0,
                        ) is None by {
                        if crate::codec::spec_encode_response(m) == data@ {
                            lemma_parse_of_encode_response(m);
                        }
                    }
                }
                return MessageOutcome::DecodeFailed;
            },
            Some(id) => id,
        };
        match self.correlator.resolve(id) {
            None => MessageOutcome::UnknownId,
            Some(waiter) => MessageOutcome::Resolved(waiter, response),
        }
    }
}

/// Why a per-call reply did not deliver a success payload.
#[derive(Debug)]
pub enum CallError {
    /// The reply body is not a well-formed response frame.
    Decode,
    /// The reply's identifier is not the one the call went out under.
    IdMismatch,
    /// The reply carries a routing or handler error: its typed code and
    /// the error chain, when one was framed.
    Remote(ErrorCode, Option<ErrorEnvelope>),
}

/// One outbound HTTP-like call: where to send it, the framed request,
/// and the identifier the reply must carry.
#[derive(Debug)]
pub struct HttpCall {
    /// The URL to POST the frame to.
    pub url: String,
    /// The framed request.
    pub frame: Vec<u8>,
    /// The call's identifier.
    pub id: u128,
}

/// An RPC connection over per-call requests.  Replies are bound
/// one-to-one to their calls, so no pending map is needed; the reply's
/// identifier is still checked against the call's.
#[derive(Debug)]
pub struct HttpRpcClient {
    base_url: String,
    next_id: u128,
}

impl HttpRpcClient {
    /// The configured base URL.
    pub closed spec fn spec_base_url(self) -> Seq<char> {
        self.base_url@
    }

    /// The identifier the next call will get.
    pub closed spec fn spec_next_id(self) -> u128 {
        self.next_id
    }

    /// A client that will call endpoints under `base_url`.
    pub fn new(base_url: String) -> (r: Self)
        ensures
            r.spec_base_url() == base_url@,
            r.spec_next_id() == 0,
    {
        HttpRpcClient { base_url, next_id: 0 }
    }

    /// Builds one call: a fresh identifier, the POST target
    /// `{base_url}/{service_name}/{method_name}`, and the framed request.
    pub fn call(&mut self, d: &ServiceDescriptor, method_index: usize, input: Vec<u8>) -> (r:
        HttpCall)
        requires
            old(self).spec_next_id() < u128::MAX,
            method_index < d.methods@.len(),
        ensures
            final(self).spec_base_url() == old(self).spec_base_url(),
            final(self).spec_next_id() == old(self).spec_next_id() + 1,
            r.id == old(self).spec_next_id(),
            r.url@ == old(self).spec_base_url() + "/"@ + d.spec_full_name() + "/"@
                + d.methods@[method_index as int].proto_name@,
            spec_parse_request(r.frame@) == Some(
                (
                    spec_id_bytes(r.id),
                    vstd::utf8::encode_utf8(d.spec_full_name()),
                    vstd::utf8::encode_utf8(d.methods@[method_index as int].proto_name@),
                    input@,
                ),
            ),
    {
        let id = self.next_id;
        self.next_id = self.next_id + 1;
        let service_name = d.full_name();
        let method_name = d.methods[method_index].proto_name.clone();
        let mut url = self.base_url.clone();
        url.append("/");
        url.append(service_name.as_str());
        url.append("/");
        url.append(method_name.as_str());
        let request = Request { id: id_to_bytes(id), service_name, method_name, data: input };
        let frame = encode_request(&request);
        proof {
            lemma_parse_of_encode_request(request);
        }
        HttpCall { url, frame, id }
    }

    /// Checks one reply body against the call it answers: the payload
    /// when the reply decodes, carries the call's identifier and reports
    /// success; the typed error code with its error chain when it reports
    /// a failure; a `Decode` error when it is not a well-formed reply; an
    /// `IdMismatch` error when it answers some other call.
    pub fn finish_call(expected_id: u128, body: &Vec<u8>) -> (r: Result<Vec<u8>, CallError>)
        ensures
            match r {
                Ok(payload) => {
                    &&& spec_parse_response(body@) is Some
                    &&& spec_parse_id((spec_parse_response(body@)->0).0) == Some(expected_id)
                    &&& (spec_parse_response(body@)->0).2 == 0
                    &&& payload@ == (spec_parse_response(body@)->0).1
                },
                Err(CallError::Decode) => (forall|m: Response|
                    crate::codec::spec_encode_response(m) != body@) || spec_parse_id(
                    (spec_parse_response(body@)->0).0,
                ) is None,
                Err(CallError::IdMismatch) => {
                    &&& spec_parse_response(body@) is Some
                    &&& spec_parse_id((spec_parse_response(body@)->0).0) is Some
                    &&& spec_parse_id((spec_parse_response(body@)->0).0) != Some(expected_id)
                },
                Err(CallError::Remote(code, envelope)) => {
                    &&& spec_parse_response(body@) is Some
                    &&& spec_parse_id((spec_parse_response(body@)->0).0) == Some(expected_id)
                    &&& code.spec_wire_value() == (spec_parse_response(body@)->0).2
                    &&& code.spec_wire_value() != 0
                    &&& match (envelope, (spec_parse_response(body@)->0).3) {
                        (None, None) => true,
                        (Some(e), Some(parts)) => crate::codec::env_parts_of(e) == parts,
                        _ => false,
                    }
                },
            },
    {
        let response = match decode_response(body) {
            None => {
                return Err(CallError::Decode);
            },
            Some(r) => r,
        };
        proof {
            lemma_parse_of_encode_response(response);
        }
        let id = match id_of_bytes(&response.id) {
            None => {
                return Err(CallError::Decode);
            },
            Some(id) => id,
        };
        if id != expected_id {
            return Err(CallError::IdMismatch);
        }
        match response.error_code {
            ErrorCode::NoError => Ok(response.data),
            _ => Err(CallError::Remote(response.error_code, response.error)),
        }
    }
}

/// The transport scheme a URL selects.
pub struct UnsupportedScheme;

/// A generic RPC client connection: one of the two transports.
#[derive(Debug)]
pub enum RpcClient {
    /// The per-call HTTP variant.
    Http(HttpRpcClient),
    /// The persistent-connection variant.
    WebSocket(WebSocketRpcClient),
}

impl RpcClient {
    /// Picks the transport from the URL scheme: `http://` URLs get the
    /// per-call client, `ws://` URLs a fresh connecting socket client,
    /// and any other scheme is refused.
    pub fn new(base_url: String) -> (r: Result<RpcClient, UnsupportedScheme>)
        ensures
            spec_starts_with(base_url@, "http://"@) ==> r is Ok && r->Ok_0 is Http
                && r->Ok_0->Http_0.spec_base_url() == base_url@,
            !spec_starts_with(base_url@, "http://"@) && spec_starts_with(base_url@, "ws://"@)
                ==> r is Ok && r->Ok_0 is WebSocket && {
                &&& r->Ok_0->WebSocket_0.wf()
                &&& r->Ok_0->WebSocket_0@ == Seq::<PendingEntry>::empty()
                &&& r->Ok_0->WebSocket_0.spec_phase() is Connecting
            },
            !spec_starts_with(base_url@, "http://"@) && !spec_starts_with(base_url@, "ws://"@)
                ==> r is Err,
    {
        if str_starts_with(base_url.as_str(), "http://") {
            Ok(RpcClient::Http(HttpRpcClient::new(base_url)))
        } else if str_starts_with(base_url.as_str(), "ws://") {
            Ok(RpcClient::WebSocket(WebSocketRpcClient::open()))
        } else {
            Err(UnsupportedScheme)
        }
    }
}

} // verus!
