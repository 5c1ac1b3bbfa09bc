use semantic_editor::client::{
    id_of_bytes, id_to_bytes, CallError, HttpRpcClient, MessageOutcome, RpcClient,
    WebSocketRpcClient,
};
use semantic_editor::codec::{decode_request, encode_response};
use semantic_editor::service::semantic_editor_descriptor;
use semantic_editor::transport::{ErrorCode, ErrorEnvelope, Response};

#[test]
fn call_identifiers_round_trip_through_their_wire_form() {
    for id in [0u128, 1, 0xDEAD_BEEF, u128::MAX] {
        let bytes = id_to_bytes(id);
        assert_eq!(bytes.len(), 16);
        assert_eq!(id_of_bytes(&bytes), Some(id));
    }
    assert_eq!(id_of_bytes(&vec![1, 2, 3]), None);
}

#[test]
fn the_open_signal_fires_exactly_once() {
    let mut client = WebSocketRpcClient::open();
    assert!(client.onopen());
    assert!(!client.onopen());
    assert!(!client.onopen());
}

#[test]
fn a_call_goes_out_as_a_decodable_request_frame() {
    let d = semantic_editor_descriptor();
    let mut client = WebSocketRpcClient::open();
    client.onopen();
    let frame = client.call(&d, 1, vec![3, 4], 77);
    let request = decode_request(&frame).expect("frame decodes");
    assert_eq!(request.service_name, "se.service.SemanticEditor");
    assert_eq!(request.method_name, "ListFiles");
    assert_eq!(request.data, vec![3, 4]);
    assert_eq!(request.id.len(), 16);
}

fn reply_to(id_bytes: Vec<u8>, payload: Vec<u8>) -> Vec<u8> {
    encode_response(&Response {
        id: id_bytes,
        data: payload,
        error_code: ErrorCode::NoError,
        error: None,
    })
}

#[test]
fn out_of_order_replies_resolve_their_own_calls() {
    let d = semantic_editor_descriptor();
    let mut client = WebSocketRpcClient::open();
    client.onopen();
    let frame_a = client.call(&d, 0, vec![1], 100);
    let frame_b = client.call(&d, 0, vec![2], 200);
    let id_a = decode_request(&frame_a).expect("frame a").id;
    let id_b = decode_request(&frame_b).expect("frame b").id;

    // Deliver B's reply first.
    match client.onmessage(&reply_to(id_b, vec![0xB])) {
        MessageOutcome::Resolved(waiter, reply) => {
            assert_eq!(waiter, 200);
            assert_eq!(reply.data, vec![0xB]);
        },
        other => panic!("unexpected outcome: {:?}", other),
    }
    // Then A's.
    match client.onmessage(&reply_to(id_a, vec![0xA])) {
        MessageOutcome::Resolved(waiter, reply) => {
            assert_eq!(waiter, 100);
            assert_eq!(reply.data, vec![0xA]);
        },
        other => panic!("unexpected outcome: {:?}", other),
    }
}

#[test]
fn a_failed_reply_reaches_its_call_with_the_typed_error() {
    let d = semantic_editor_descriptor();
    let mut client = WebSocketRpcClient::open();
    client.onopen();
    let frame = client.call(&d, 0, vec![], 7);
    let id = decode_request(&frame).expect("frame").id;

    let failure = Response {
        id,
        data: vec![],
        error_code: ErrorCode::Runtime,
        error: Some(ErrorEnvelope {
            message: String::from("boom"),
            cause: None,
            backtrace: vec![String::from("at the handler")],
        }),
    };
    match client.onmessage(&encode_response(&failure)) {
        MessageOutcome::Resolved(waiter, reply) => {
            assert_eq!(waiter, 7);
            assert!(reply.data.is_empty());
            assert_eq!(reply.error_code, ErrorCode::Runtime);
            let envelope = reply.error.expect("error chain");
            assert_eq!(envelope.message, "boom");
            assert_eq!(envelope.backtrace, vec![String::from("at the handler")]);
        },
        other => panic!("unexpected outcome: {:?}", other),
    }
}

#[test]
fn unknown_id_replies_are_dropped_without_resolving_anything() {
    let d = semantic_editor_descriptor();
    let mut client = WebSocketRpcClient::open();
    client.onopen();
    let frame = client.call(&d, 0, vec![1], 100);
    let id = decode_request(&frame).expect("frame").id;

    // A reply with an identifier never registered is discarded.
    let unknown = id_to_bytes(987_654_321);
    match client.onmessage(&reply_to(unknown, vec![9])) {
        MessageOutcome::UnknownId => {},
        other => panic!("unexpected outcome: {:?}", other),
    }
    // The real call is still pending and resolvable.
    match client.onmessage(&reply_to(id, vec![5])) {
        MessageOutcome::Resolved(waiter, reply) => {
            assert_eq!(waiter, 100);
            assert_eq!(reply.data, vec![5]);
        },
        other => panic!("unexpected outcome: {:?}", other),
    }
}

#[test]
fn malformed_frames_are_dropped() {
    let mut client = WebSocketRpcClient::open();
    client.onopen();
    match client.onmessage(&vec![0xFF, 0xFF]) {
        MessageOutcome::DecodeFailed => {},
        other => panic!("unexpected outcome: {:?}", other),
    }
}

#[test]
fn lifecycle_hooks_do_not_touch_pending_calls() {
    let d = semantic_editor_descriptor();
    let mut client = WebSocketRpcClient::open();
    client.onopen();
    let frame = client.call(&d, 0, vec![1], 100);
    let id = decode_request(&frame).expect("frame").id;
    client.onerror();
    client.onclose(1000, "going away", true);
    match client.onmessage(&reply_to(id, vec![5])) {
        MessageOutcome::Resolved(waiter, _) => assert_eq!(waiter, 100),
        other => panic!("unexpected outcome: {:?}", other),
    }
}

#[test]
fn http_calls_post_to_the_service_and_method_path() {
    let d = semantic_editor_descriptor();
    let mut client = HttpRpcClient::new(String::from("http://localhost:12345"));
    let call = client.call(&d, 1, vec![7]);
    assert_eq!(call.url, "http://localhost:12345/se.service.SemanticEditor/ListFiles");
    let request = decode_request(&call.frame).expect("frame decodes");
    assert_eq!(request.method_name, "ListFiles");
    assert_eq!(request.data, vec![7]);
}

#[test]
fn http_replies_must_carry_the_call_identifier() {
    let d = semantic_editor_descriptor();
    let mut client = HttpRpcClient::new(String::from("http://h"));
    let call = client.call(&d, 0, vec![]);

    let good = reply_to(id_to_bytes(call.id), vec![1, 2]);
    match HttpRpcClient::finish_call(call.id, &good) {
        Ok(payload) => assert_eq!(payload, vec![1, 2]),
        other => panic!("unexpected result: {:?}", other),
    }

    let other = reply_to(id_to_bytes(call.id + 1), vec![1, 2]);
    assert!(matches!(
        HttpRpcClient::finish_call(call.id, &other),
        Err(CallError::IdMismatch)
    ));

    assert!(matches!(
        HttpRpcClient::finish_call(call.id, &vec![0xFF]),
        Err(CallError::Decode)
    ));
}

#[test]
fn http_failure_replies_come_back_as_typed_errors() {
    let d = semantic_editor_descriptor();
    let mut client = HttpRpcClient::new(String::from("http://h"));
    let call = client.call(&d, 0, vec![]);

    let routing = encode_response(&Response {
        id: id_to_bytes(call.id),
        data: vec![],
        error_code: ErrorCode::MethodNotFound,
        error: None,
    });
    match HttpRpcClient::finish_call(call.id, &routing) {
        Err(CallError::Remote(code, envelope)) => {
            assert_eq!(code, ErrorCode::MethodNotFound);
            assert!(envelope.is_none());
        },
        other => panic!("unexpected result: {:?}", other),
    }

    let runtime = encode_response(&Response {
        id: id_to_bytes(call.id),
        data: vec![],
        error_code: ErrorCode::Runtime,
        error: Some(ErrorEnvelope {
            message: String::from("disk full"),
            cause: None,
            backtrace: vec![],
        }),
    });
    match HttpRpcClient::finish_call(call.id, &runtime) {
        Err(CallError::Remote(code, envelope)) => {
            assert_eq!(code, ErrorCode::Runtime);
            assert_eq!(envelope.expect("error chain").message, "disk full");
        },
        other => panic!("unexpected result: {:?}", other),
    }
}

#[test]
fn the_url_scheme_picks_the_transport() {
    assert!(matches!(
        RpcClient::new(String::from("http://example")),
        Ok(RpcClient::Http(_))
    ));
    assert!(matches!(
        RpcClient::new(String::from("ws://example")),
        Ok(RpcClient::WebSocket(_))
    ));
    assert!(RpcClient::new(String::from("ftp://example")).is_err());
    assert!(RpcClient::new(String::from("")).is_err());
}
