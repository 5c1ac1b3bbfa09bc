use semantic_editor::client::{MessageOutcome, WebSocketRpcClient};
use semantic_editor::codec::{decode_request, encode_request, encode_response};
use semantic_editor::descriptor::MethodDescriptor;
use semantic_editor::dispatch::{handle_request, Handler};
use semantic_editor::service::{
    decode_list_files_response, encode_list_files_response, semantic_editor_descriptor,
    FetchSlateSchemaResponse, FileKind, ListFilesResponse, ListedFile,
};
use semantic_editor::transport::{ErrorCode, ErrorEnvelope, Request};

/// A service double whose schema-fetch method returns a fixed schema.
struct SchemaHandler;

impl Handler for SchemaHandler {
    fn call(&self, method: &MethodDescriptor, _input: &Vec<u8>) -> Result<Vec<u8>, ErrorEnvelope> {
        assert_eq!(method.proto_name, "FetchSlateSchema");
        let response = FetchSlateSchemaResponse { schema: vec![0xC0, 0xFF] };
        Ok(response.schema)
    }
}

#[test]
fn a_persistent_connection_serves_one_call_end_to_end() {
    let d = semantic_editor_descriptor();

    // The client opens a persistent connection; the host fires onopen.
    let mut client = WebSocketRpcClient::open();
    assert!(client.onopen());

    // The client calls fetch_slate_schema with an empty input.
    let frame = client.call(&d, 0, vec![], 1);

    // The server decodes the frame, dispatches it, and frames the reply.
    let request = decode_request(&frame).expect("request frame decodes");
    assert_eq!(request.method_name, "FetchSlateSchema");
    assert!(request.data.is_empty());
    let response = handle_request(&d, &SchemaHandler, request);
    assert_eq!(response.error_code, ErrorCode::NoError);
    let reply_frame = encode_response(&response);

    // The reply comes back over the socket and resolves the call.
    match client.onmessage(&reply_frame) {
        MessageOutcome::Resolved(waiter, reply) => {
            assert_eq!(waiter, 1);
            assert_eq!(reply.error_code, ErrorCode::NoError);
            let schema = FetchSlateSchemaResponse { schema: reply.data };
            assert_eq!(schema.schema, vec![0xC0, 0xFF]);
        },
        other => panic!("unexpected outcome: {:?}", other),
    }
}

#[test]
fn a_misspelled_method_name_comes_back_as_method_not_found() {
    let d = semantic_editor_descriptor();

    // A client whose generated table carries a misspelled wire name.
    let mut misspelled = semantic_editor_descriptor();
    misspelled.methods[0].proto_name = String::from("FetchSlateSchemaa");

    let mut client = WebSocketRpcClient::open();
    assert!(client.onopen());
    let frame = client.call(&misspelled, 0, vec![], 1);

    // The server rejects the call with a typed code and an empty payload.
    let request = decode_request(&frame).expect("request frame decodes");
    assert_eq!(request.method_name, "FetchSlateSchemaa");
    let response = handle_request(&d, &SchemaHandler, request);
    assert_eq!(response.error_code, ErrorCode::MethodNotFound);
    assert!(response.data.is_empty());
    assert!(response.error.is_none());

    // The reply reaches exactly the waiting call, typed error and all.
    let reply_frame = encode_response(&response);
    match client.onmessage(&reply_frame) {
        MessageOutcome::Resolved(waiter, reply) => {
            assert_eq!(waiter, 1);
            assert!(reply.data.is_empty());
            assert_eq!(reply.error_code, ErrorCode::MethodNotFound);
            assert!(reply.error.is_none());
        },
        other => panic!("unexpected outcome: {:?}", other),
    }
}

/// A service double whose file-listing method returns a fixed listing.
struct ListingHandler;

impl Handler for ListingHandler {
    fn call(&self, method: &MethodDescriptor, _input: &Vec<u8>) -> Result<Vec<u8>, ErrorEnvelope> {
        assert_eq!(method.proto_name, "ListFiles");
        Ok(encode_list_files_response(&ListFilesResponse {
            file: vec![ListedFile { path: String::from("a.txt"), kind: Some(FileKind::Regular) }],
        }))
    }
}

#[test]
fn a_successful_dispatch_carries_a_payload_of_the_declared_output_type() {
    let d = semantic_editor_descriptor();
    let request = Request {
        id: vec![3; 16],
        service_name: String::from("se.service.SemanticEditor"),
        method_name: String::from("ListFiles"),
        data: vec![],
    };
    let response = handle_request(&d, &ListingHandler, request);
    assert_eq!(response.error_code, ErrorCode::NoError);
    // The payload decodes as the method's declared output type.
    let listing = decode_list_files_response(&response.data).expect("typed payload");
    assert_eq!(listing.file.len(), 1);
    assert_eq!(listing.file[0].path, "a.txt");
    assert_eq!(listing.file[0].kind, Some(FileKind::Regular));
}

#[test]
fn a_reply_to_nobody_is_dropped_on_the_floor() {
    let mut client = WebSocketRpcClient::open();
    client.onopen();
    let stray = Request {
        id: vec![9; 16],
        service_name: String::new(),
        method_name: String::new(),
        data: vec![],
    };
    let reply = semantic_editor::transport::data_response(stray.id, vec![1]);
    match client.onmessage(&encode_response(&reply)) {
        MessageOutcome::UnknownId => {},
        other => panic!("unexpected outcome: {:?}", other),
    }
}
