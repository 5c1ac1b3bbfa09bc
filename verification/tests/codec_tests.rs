use semantic_editor::codec::{
    decode_envelope, decode_request, decode_response, encode_envelope, encode_request,
    encode_response, read_varint, write_varint,
};
use semantic_editor::transport::{ErrorCode, ErrorEnvelope, Request, Response};

fn varint_bytes(n: u64) -> Vec<u8> {
    let mut out = Vec::new();
    write_varint(&mut out, n);
    out
}

#[test]
fn varint_small_values_take_one_byte() {
    assert_eq!(varint_bytes(0), vec![0]);
    assert_eq!(varint_bytes(1), vec![1]);
    assert_eq!(varint_bytes(127), vec![127]);
}

#[test]
fn varint_large_values_use_continuation_bytes() {
    assert_eq!(varint_bytes(128), vec![0x80, 0x01]);
    assert_eq!(varint_bytes(300), vec![0xAC, 0x02]);
    assert_eq!(varint_bytes(u64::MAX), vec![255, 255, 255, 255, 255, 255, 255, 255, 255, 1]);
}

#[test]
fn varint_round_trips() {
    for n in [0u64, 1, 127, 128, 255, 300, 16384, u64::MAX] {
        let bytes = varint_bytes(n);
        let got = read_varint(&bytes, 0).expect("parse");
        assert_eq!(got.0, n);
        assert_eq!(got.1, bytes.len());
    }
}

#[test]
fn varint_rejects_non_minimal_encoding() {
    // 0x80 0x00 would decode to zero with a wasted continuation byte.
    assert!(read_varint(&vec![0x80, 0x00], 0).is_none());
    // A dangling continuation byte is not a varint.
    assert!(read_varint(&vec![0x80], 0).is_none());
    assert!(read_varint(&vec![], 0).is_none());
}

fn sample_request() -> Request {
    Request {
        id: vec![1, 2],
        service_name: String::from("a.B"),
        method_name: String::from("M"),
        data: vec![9],
    }
}

#[test]
fn request_encodes_to_exact_bytes() {
    let bytes = encode_request(&sample_request());
    assert_eq!(
        bytes,
        vec![0x0A, 2, 1, 2, 0x12, 3, b'a', b'.', b'B', 0x1A, 1, b'M', 0x22, 1, 9]
    );
}

#[test]
fn request_with_empty_fields_omits_them() {
    let r = Request {
        id: vec![],
        service_name: String::new(),
        method_name: String::from("M"),
        data: vec![],
    };
    assert_eq!(encode_request(&r), vec![0x1A, 1, b'M']);
    let empty = Request {
        id: vec![],
        service_name: String::new(),
        method_name: String::new(),
        data: vec![],
    };
    assert_eq!(encode_request(&empty), Vec::<u8>::new());
}

#[test]
fn request_round_trips() {
    let r = sample_request();
    let bytes = encode_request(&r);
    let back = decode_request(&bytes).expect("decode");
    assert_eq!(back.id, r.id);
    assert_eq!(back.service_name, r.service_name);
    assert_eq!(back.method_name, r.method_name);
    assert_eq!(back.data, r.data);
    // Re-encoding is bit-identical to the original bytes.
    assert_eq!(encode_request(&back), bytes);
}

#[test]
fn request_decode_rejects_trailing_garbage() {
    let mut bytes = encode_request(&sample_request());
    bytes.push(0);
    assert!(decode_request(&bytes).is_none());
}

#[test]
fn request_decode_rejects_explicit_empty_field() {
    // An empty id would have been omitted by the encoder.
    assert!(decode_request(&vec![0x0A, 0, 0x1A, 1, b'M']).is_none());
}

#[test]
fn request_decode_rejects_truncated_field() {
    assert!(decode_request(&vec![0x0A, 5, 1, 2]).is_none());
}

#[test]
fn request_decode_rejects_invalid_utf8_name() {
    // Service name bytes 0xFF are not UTF-8.
    assert!(decode_request(&vec![0x12, 1, 0xFF]).is_none());
}

fn sample_envelope() -> ErrorEnvelope {
    ErrorEnvelope {
        message: String::from("outer"),
        cause: Some(Box::new(ErrorEnvelope {
            message: String::from("inner"),
            cause: None,
            backtrace: vec![],
        })),
        backtrace: vec![String::from("frame one"), String::new()],
    }
}

#[test]
fn envelope_round_trips() {
    let e = sample_envelope();
    let bytes = encode_envelope(&e);
    let back = decode_envelope(&bytes).expect("decode");
    assert_eq!(back.message, "outer");
    let cause = back.cause.as_ref().expect("cause");
    assert_eq!(cause.message, "inner");
    assert!(cause.cause.is_none());
    assert_eq!(back.backtrace, vec![String::from("frame one"), String::new()]);
    assert_eq!(encode_envelope(&back), bytes);
}

#[test]
fn empty_envelope_encodes_to_nothing() {
    let e = ErrorEnvelope { message: String::new(), cause: None, backtrace: vec![] };
    assert_eq!(encode_envelope(&e), Vec::<u8>::new());
    let back = decode_envelope(&Vec::new()).expect("decode");
    assert_eq!(back.message, "");
    assert!(back.cause.is_none());
    assert!(back.backtrace.is_empty());
}

#[test]
fn response_round_trips_with_error() {
    let r = Response {
        id: vec![7; 16],
        data: vec![],
        error_code: ErrorCode::Runtime,
        error: Some(sample_envelope()),
    };
    let bytes = encode_response(&r);
    let back = decode_response(&bytes).expect("decode");
    assert_eq!(back.id, vec![7; 16]);
    assert!(back.data.is_empty());
    assert_eq!(back.error_code, ErrorCode::Runtime);
    assert_eq!(back.error.as_ref().expect("error").message, "outer");
    assert_eq!(encode_response(&back), bytes);
}

#[test]
fn response_round_trips_plain_payload() {
    let r = Response {
        id: vec![1],
        data: vec![5, 6],
        error_code: ErrorCode::NoError,
        error: None,
    };
    let bytes = encode_response(&r);
    assert_eq!(bytes, vec![0x0A, 1, 1, 0x12, 2, 5, 6]);
    let back = decode_response(&bytes).expect("decode");
    assert_eq!(back.id, vec![1]);
    assert_eq!(back.data, vec![5, 6]);
    assert_eq!(back.error_code, ErrorCode::NoError);
    assert!(back.error.is_none());
}

#[test]
fn response_error_codes_take_their_wire_values() {
    for (code, value) in [
        (ErrorCode::ServiceNotFound, 1u8),
        (ErrorCode::MethodNotFound, 2),
        (ErrorCode::Runtime, 3),
    ] {
        let r = Response { id: vec![], data: vec![], error_code: code, error: None };
        assert_eq!(encode_response(&r), vec![0x18, value]);
    }
    let ok = Response { id: vec![], data: vec![], error_code: ErrorCode::NoError, error: None };
    assert_eq!(encode_response(&ok), Vec::<u8>::new());
}

#[test]
fn response_decode_rejects_unknown_error_code() {
    assert!(decode_response(&vec![0x18, 4]).is_none());
}

#[test]
fn response_decode_rejects_explicit_zero_error_code() {
    // Code zero would have been omitted by the encoder.
    assert!(decode_response(&vec![0x18, 0]).is_none());
}

#[test]
fn response_with_empty_error_envelope_is_distinguishable() {
    // A present but empty error envelope still takes a frame on the wire.
    let r = Response {
        id: vec![],
        data: vec![],
        error_code: ErrorCode::Runtime,
        error: Some(ErrorEnvelope { message: String::new(), cause: None, backtrace: vec![] }),
    };
    let bytes = encode_response(&r);
    assert_eq!(bytes, vec![0x18, 3, 0x22, 0]);
    let back = decode_response(&bytes).expect("decode");
    assert!(back.error.is_some());
}
