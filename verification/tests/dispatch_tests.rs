use semantic_editor::descriptor::MethodDescriptor;
use semantic_editor::dispatch::{
    finish_dispatch, handle_request, route_request, Handler, Route,
};
use semantic_editor::service::semantic_editor_descriptor;
use semantic_editor::transport::{
    data_response, error_code_response, error_response, ErrorCode, ErrorEnvelope, Request,
};

struct EchoHandler;

impl Handler for EchoHandler {
    fn call(&self, _method: &MethodDescriptor, input: &Vec<u8>) -> Result<Vec<u8>, ErrorEnvelope> {
        let mut out = input.clone();
        out.push(42);
        Ok(out)
    }
}

struct FailingHandler;

impl Handler for FailingHandler {
    fn call(&self, _method: &MethodDescriptor, _input: &Vec<u8>) -> Result<Vec<u8>, ErrorEnvelope> {
        Err(ErrorEnvelope {
            message: String::from("boom"),
            cause: None,
            backtrace: vec![String::from("at the handler")],
        })
    }
}

fn request(service: &str, method: &str) -> Request {
    Request {
        id: vec![1; 16],
        service_name: String::from(service),
        method_name: String::from(method),
        data: vec![10, 20],
    }
}

#[test]
fn known_pairs_dispatch_without_error() {
    let d = semantic_editor_descriptor();
    for method in ["FetchSlateSchema", "ListFiles"] {
        let resp = handle_request(&d, &EchoHandler, request("se.service.SemanticEditor", method));
        assert_eq!(resp.error_code, ErrorCode::NoError);
        assert_eq!(resp.data, vec![10, 20, 42]);
        assert!(resp.error.is_none());
        assert_eq!(resp.id, vec![1; 16]);
    }
}

#[test]
fn wrong_service_reports_service_not_found_whatever_the_method() {
    let d = semantic_editor_descriptor();
    for method in ["FetchSlateSchema", "ListFiles", "Nonsense", ""] {
        let resp = handle_request(&d, &EchoHandler, request("se.service.OtherService", method));
        assert_eq!(resp.error_code, ErrorCode::ServiceNotFound);
        assert!(resp.data.is_empty());
        assert!(resp.error.is_none());
    }
}

#[test]
fn unknown_method_reports_method_not_found() {
    let d = semantic_editor_descriptor();
    let resp = handle_request(&d, &EchoHandler, request("se.service.SemanticEditor", "Missing"));
    assert_eq!(resp.error_code, ErrorCode::MethodNotFound);
    assert!(resp.data.is_empty());
    assert!(resp.error.is_none());
}

#[test]
fn handler_failures_are_wrapped_not_raised() {
    let d = semantic_editor_descriptor();
    let resp =
        handle_request(&d, &FailingHandler, request("se.service.SemanticEditor", "ListFiles"));
    assert_eq!(resp.error_code, ErrorCode::Runtime);
    assert!(resp.data.is_empty());
    let envelope = resp.error.expect("error envelope");
    assert_eq!(envelope.message, "boom");
    assert_eq!(envelope.backtrace, vec![String::from("at the handler")]);
}

#[test]
fn routing_resolves_the_first_matching_descriptor() {
    let d = semantic_editor_descriptor();
    match route_request(&d, &request("se.service.SemanticEditor", "ListFiles")) {
        Route::Method(i) => assert_eq!(i, 1),
        other => panic!("unexpected route: {:?}", other),
    }
    assert_eq!(
        route_request(&d, &request("se.service.Wrong", "ListFiles")),
        Route::ServiceMismatch
    );
    assert_eq!(
        route_request(&d, &request("se.service.SemanticEditor", "listfiles")),
        Route::UnknownMethod
    );
}

#[test]
fn finish_dispatch_frames_both_outcomes() {
    let ok = finish_dispatch(vec![9], Ok(vec![1, 2]));
    assert_eq!(ok.error_code, ErrorCode::NoError);
    assert_eq!(ok.data, vec![1, 2]);
    assert_eq!(ok.id, vec![9]);

    let err = finish_dispatch(
        vec![9],
        Err(ErrorEnvelope { message: String::from("x"), cause: None, backtrace: vec![] }),
    );
    assert_eq!(err.error_code, ErrorCode::Runtime);
    assert!(err.data.is_empty());
    assert_eq!(err.error.expect("envelope").message, "x");
}

#[test]
fn response_builders_fill_exact_fields() {
    let d = data_response(vec![1], vec![2]);
    assert_eq!((d.id, d.data, d.error_code), (vec![1], vec![2], ErrorCode::NoError));
    let c = error_code_response(vec![1], ErrorCode::MethodNotFound);
    assert_eq!(c.error_code, ErrorCode::MethodNotFound);
    assert!(c.data.is_empty());
    let e = error_response(
        vec![1],
        ErrorEnvelope { message: String::from("m"), cause: None, backtrace: vec![] },
    );
    assert_eq!(e.error_code, ErrorCode::Runtime);
    assert_eq!(e.error.expect("envelope").message, "m");
}
