//! The server-side dispatcher: routes a decoded `Request` against a
//! descriptor table, invokes the matching handler method, and turns the
//! outcome into a `Response`.

use vstd::prelude::*;

use crate::descriptor::MethodDescriptor;
use crate::descriptor::ServiceDescriptor;
use crate::transport::ErrorCode;
use crate::transport::ErrorEnvelope;
use crate::transport::Request;
use crate::transport::Response;
use crate::transport::data_response;
use crate::transport::error_code_response;
use crate::transport::error_response;
use crate::transport::envelope_eq;

verus! {

/// Where a request routes: to a routing error, or to one method.
#[derive(Debug, PartialEq, Eq, Structural)]
pub enum Route {
    /// The request names a service this table does not describe.
    ServiceMismatch,
    /// The service is right but no method carries the requested wire name.
    UnknownMethod,
    /// The index of the first matching method descriptor.
    Method(usize),
}

/// Resolves a request's service and method names against a descriptor
/// table.  A service mismatch hides everything else; an unknown method is
/// reported only for the right service; otherwise the first descriptor
/// whose wire name matches is chosen.
pub fn route_request(d: &ServiceDescriptor, r: &Request) -> (route: Route)
    ensures
        (route is ServiceMismatch) <==> r.service_name@ != d.spec_full_name(),
        (route is UnknownMethod) <==> (r.service_name@ == d.spec_full_name()
            && !d.spec_has_method(r.method_name@)),
        route is Method ==> {
            &&& r.service_name@ == d.spec_full_name()
            &&& route->Method_0 < d.methods@.len()
            &&& d.methods@[route->Method_0 as int].proto_name@ == r.method_name@
            &&& forall|j: int|
                0 <= j < route->Method_0 ==> (#[trigger] d.methods@[j]).proto_name@
                    != r.method_name@
        },
{
    let expected = d.full_name();
    if !(r.service_name == expected) {
        return Route::ServiceMismatch;
    }
    match d.find_method(&r.method_name) {
        None => Route::UnknownMethod,
        Some(i) => Route::Method(i),
    }
}

/// What a service implementation owes the dispatcher: given the matched
/// method descriptor and the request payload, either the encoded output
/// or an error chain.  Implementations live outside this crate.
pub trait Handler {
    /// Serves one call of the given method on the given input bytes.
    fn call(&self, method: &MethodDescriptor, input: &Vec<u8>) -> Result<Vec<u8>, ErrorEnvelope>;
}

/// Turns a handler's outcome into the reply for request `request_id`:
/// the output bytes on success, the wrapped error chain on failure.
pub fn finish_dispatch(request_id: Vec<u8>, outcome: Result<Vec<u8>, ErrorEnvelope>) -> (r:
    Response)
    ensures
        r.id@ == request_id@,
        match outcome {
            Ok(data) => {
                &&& r.error_code == ErrorCode::NoError
                &&& r.data@ == data@
                &&& r.error is None
            },
            Err(e) => {
                &&& r.error_code == ErrorCode::Runtime
                &&& r.data@ == Seq::<u8>::empty()
                &&& r.error is Some
                &&& envelope_eq(r.error->0, e)
            },
        },
{
    match outcome {
        Ok(data) => data_response(request_id, data),
        Err(e) => error_response(request_id, e),
    }
}

/// Serves one decoded request end to end: resolves the method, invokes
/// the handler, and frames the outcome.  Routing errors never reach the
/// handler; handler failures never unwind past this function.
pub fn handle_request<H: Handler>(d: &ServiceDescriptor, handler: &H, r: Request) -> (resp:
    Response)
    ensures
        resp.id@ == r.id@,
        (resp.error_code == ErrorCode::ServiceNotFound) <==> r.service_name@ != d.spec_full_name(),
        (resp.error_code == ErrorCode::MethodNotFound) <==> (r.service_name@ == d.spec_full_name()
            && !d.spec_has_method(r.method_name@)),
        resp.error_code == ErrorCode::ServiceNotFound || resp.error_code
            == ErrorCode::MethodNotFound ==> resp.data@ == Seq::<u8>::empty() && resp.error is None,
        r.service_name@ == d.spec_full_name() && d.spec_has_method(r.method_name@) ==> {
            &&& (resp.error_code == ErrorCode::NoError || resp.error_code == ErrorCode::Runtime)
            &&& (resp.error_code == ErrorCode::NoError ==> resp.error is None)
            &&& (resp.error_code == ErrorCode::Runtime ==> resp.error is Some && resp.data@
                == Seq::<u8>::empty())
        },
{
    match route_request(d, &r) {
        Route::ServiceMismatch => error_code_response(r.id, ErrorCode::ServiceNotFound),
        Route::UnknownMethod => error_code_response(r.id, ErrorCode::MethodNotFound),
        Route::Method(i) => {
            let m = method_at(d, i);
            let outcome = handler.call(m, &r.data);
            finish_dispatch(r.id, outcome)
        },
    }
}

/// Returns the method descriptor at index `i` of the table.
fn method_at(d: &ServiceDescriptor, i: usize) -> (m: &MethodDescriptor)
    requires
        i < d.methods@.len(),
    ensures
        m == &d.methods@[i as int],
{
    &d.methods[i]
}

} // verus!
