//! The HTTP-like binding of the wire protocol: a call is a POST to
//! `/{service_name}/{method_name}` under a dedicated content type, a
//! preflight gets a permissive cross-origin reply, and anything naming a
//! bundled file is served statically.

use vstd::prelude::*;

use crate::codec::decode_request;
use crate::codec::lemma_parse_of_encode_request;
use crate::codec::spec_encode_request;
use crate::codec::spec_parse_request;
use crate::text::str_eq;
use crate::transport::Request;
use vstd::string::StringExecFns;

verus! {

/// The content type request bodies must carry.
pub fn request_content_type() -> (r: &'static str)
    ensures
        r@ == "application/x-semantic-editor-request"@,
{
    "application/x-semantic-editor-request"
}

/// The content type response bodies carry.
pub fn response_content_type() -> (r: &'static str)
    ensures
        r@ == "application/x-semantic-editor-response"@,
{
    "application/x-semantic-editor-response"
}

/// The permissive cross-origin headers every response carries.
pub fn cors_headers() -> (r: Vec<(&'static str, &'static str)>)
    ensures
        r@.len() == 3,
        r@[0].0@ == "access-control-allow-origin"@ && r@[0].1@ == "*"@,
        r@[1].0@ == "access-control-allow-methods"@ && r@[1].1@ == "POST"@,
        r@[2].0@ == "access-control-allow-headers"@ && r@[2].1@ == "*"@,
{
    let mut r: Vec<(&'static str, &'static str)> = Vec::new();
    r.push(("access-control-allow-origin", "*"));
    r.push(("access-control-allow-methods", "POST"));
    r.push(("access-control-allow-headers", "*"));
    r
}

/// The file name a request path asks for: the empty path and the bare
/// root name the index page, any other path the path without its
/// leading character.
pub fn canonicalize_path<'a>(path: &'a str) -> (r: &'a str)
    requires
        path@.len() > 0 ==> (path@[0] as u32) < 128,
    ensures
        path@.len() == 0 || path@ == seq!['/'] ==> r@ == "index.html"@,
        path@.len() > 0 && path@ != seq!['/'] ==> r@ == path@.skip(1),
{
    let n = path.unicode_len();
    if n == 0 {
        return "index.html";
    }
    if n == 1 && path.get_char(0) == '/' {
        proof {
            assert(path@ =~= seq!['/']);
        }
        return "index.html";
    }
    proof {
        assert(path@ != seq!['/']);
    }
    path.substring_char(1, n)
}

/// Whether a path has the shape `/{segment}/{segment}`: a leading slash
/// and exactly one further slash.
pub open spec fn rpc_path_shape(p: Seq<char>) -> bool {
    &&& p.len() >= 1
    &&& p[0] == '/'
    &&& exists|j: int|
        1 <= j < p.len() && #[trigger] p[j] == '/' && (forall|k: int|
            1 <= k < p.len() && k != j ==> p[k] != '/')
}

/// Splits `/{service_name}/{method_name}`: the leading character must be
/// a slash and exactly one more slash must follow somewhere; the two
/// segments between are the names, either possibly empty.
pub fn parse_rpc_path(path: &str) -> (r: Option<(String, String)>)
    ensures
        match r {
            Some((s, m)) => {
                &&& path@ == seq!['/'] + s@ + seq!['/'] + m@
                &&& forall|k: int| 0 <= k < s@.len() ==> s@[k] != '/'
                &&& forall|k: int| 0 <= k < m@.len() ==> m@[k] != '/'
            },
            None => !rpc_path_shape(path@),
        },
{
    let n = path.unicode_len();
    if n == 0 || path.get_char(0) != '/' {
        return None;
    }
    let mut j: usize = 1;
    while j < n
        invariant
            1 <= j <= n == path@.len(),
            path@[0] == '/',
            forall|k: int| 1 <= k < j ==> path@[k] != '/',
        decreases n - j,
    {
        if path.get_char(j) == '/' {
            let mut k = j + 1;
            while k < n
                invariant
                    1 <= j < k <= n == path@.len(),
                    path@[0] == '/',
                    path@[j as int] == '/',
                    forall|t: int| 1 <= t < j ==> path@[t] != '/',
                    forall|t: int| j < t < k ==> path@[t] != '/',
                decreases n - k,
            {
                if path.get_char(k) == '/' {
                    proof {
                        let jj = j as int;
                        let kk = k as int;
                        assert(!rpc_path_shape(path@)) by {
                            if rpc_path_shape(path@) {
                                let j2 = choose|j2: int|
                                    1 <= j2 < path@.len() && #[trigger] path@[j2] == '/' && (
                                    forall|t: int|
                                        1 <= t < path@.len() && t != j2 ==> path@[t] != '/');
                                if j2 == jj {
                                    assert(1 <= kk < path@.len() && kk != j2);
                                    assert(path@[kk] != '/');
                                    assert(false);
                                } else {
                                    assert(1 <= jj < path@.len() && jj != j2);
                                    assert(path@[jj] != '/');
                                    assert(false);
                                }
                            }
                        }
                    }
                    return None;
                }
                k = k + 1;
            }
            let service = path.substring_char(1, j).to_owned();
            let method = path.substring_char(j + 1, n).to_owned();
            proof {
                assert(service@ == path@.subrange(1, j as int));
                assert(method@ == path@.subrange(j as int + 1, n as int));
                assert(path@ =~= seq!['/'] + service@ + seq!['/'] + method@);
                assert(forall|t: int|
                    0 <= t < service@.len() ==> service@[t] == path@[t + 1]);
                assert(forall|t: int|
                    0 <= t < method@.len() ==> method@[t] == path@[t + j + 1]);
            }
            return Some((service, method));
        }
        j = j + 1;
    }
    proof {
        assert(!rpc_path_shape(path@)) by {
            if rpc_path_shape(path@) {
                let j2 = choose|j2: int|
                    1 <= j2 < path@.len() && #[trigger] path@[j2] == '/' && (forall|t: int|
                        1 <= t < path@.len() && t != j2 ==> path@[t] != '/');
                assert(path@[j2] != '/');
            }
        }
    }
    None
}

/// Reads one framed call off an inbound HTTP request: the body must
/// carry the request content type and decode as a request frame, and the
/// path must name the service and the method.  The names on the path
/// route the call; the frame contributes its identifier and payload.
pub fn parse_rpc_request(content_type: &str, path: &str, body: &Vec<u8>) -> (r: Option<Request>)
    ensures
        match r {
            Some(req) => {
                &&& content_type@ == "application/x-semantic-editor-request"@
                &&& path@ == seq!['/'] + req.service_name@ + seq!['/'] + req.method_name@
                &&& spec_parse_request(body@) is Some
                &&& req.id@ == (spec_parse_request(body@)->0).0
                &&& req.data@ == (spec_parse_request(body@)->0).3
            },
            None => content_type@ != "application/x-semantic-editor-request"@ || !rpc_path_shape(
                path@,
            ) || (forall|m: Request| spec_encode_request(m) != body@),
        },
{
    if !str_eq(content_type, request_content_type()) {
        return None;
    }
    let (service_name, method_name) = match parse_rpc_path(path) {
        None => {
            return None;
        },
        Some(names) => names,
    };
    let frame = match decode_request(body) {
        None => {
            return None;
        },
        Some(f) => f,
    };
    proof {
        lemma_parse_of_encode_request(frame);
    }
    Some(Request { id: frame.id, service_name, method_name, data: frame.data })
}

/// How an inbound request is treated, in order of precedence: a
/// preflight probe, a bundled static file, a framed call, or nothing.
#[derive(Clone, Copy, Debug, PartialEq, Eq, Structural)]
pub enum RequestKind {
    /// An OPTIONS request: answered with the permissive preflight reply.
    Preflight,
    /// The path names a bundled file: served statically.
    StaticFile,
    /// A POST under the request content type: dispatched as a call.
    Rpc,
    /// Anything else: answered not-found.
    NotFound,
}

/// Classifies one inbound request from what its envelope shows: whether
/// it is an OPTIONS probe, whether its path names a bundled file, and
/// whether it carries the call content type.
pub fn classify_request(is_options: bool, is_static_file: bool, has_rpc_content_type: bool) -> (r:
    RequestKind)
    ensures
        r == (if is_options {
            RequestKind::Preflight
        } else if is_static_file {
            RequestKind::StaticFile
        } else if has_rpc_content_type {
            RequestKind::Rpc
        } else {
            RequestKind::NotFound
        }),
{
    if is_options {
        RequestKind::Preflight
    } else if is_static_file {
        RequestKind::StaticFile
    } else if has_rpc_content_type {
        RequestKind::Rpc
    } else {
        RequestKind::NotFound
    }
}

} // verus!
