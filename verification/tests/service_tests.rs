use semantic_editor::api::FileListing;
use semantic_editor::service::{
    decode_list_files_request, decode_list_files_response, encode_list_files_request,
    encode_list_files_response, semantic_editor_descriptor, to_kind, FileKind, ListFilesRequest,
    ListFilesResponse, ListedFile,
};
use semantic_editor::transport::ErrorEnvelope;
use semantic_editor::errors::{envelope_from_chain, nested_error, RpcError};
use semantic_editor::markdown::{Block, Heading, Inline, Markdown, Paragraph, Text};
use semantic_editor::data::Data;

#[test]
fn the_editor_descriptor_names_its_service_and_methods() {
    let d = semantic_editor_descriptor();
    assert_eq!(d.name().as_str(), "SemanticEditor");
    assert_eq!(d.proto_name().as_str(), "SemanticEditor");
    assert_eq!(d.full_name(), "se.service.SemanticEditor");
    let methods = d.methods();
    assert_eq!(methods.len(), 2);
    assert_eq!(methods[0].name, "fetch_slate_schema");
    assert_eq!(methods[0].proto_name, "FetchSlateSchema");
    assert_eq!(methods[1].name, "list_files");
    assert_eq!(methods[1].proto_name, "ListFiles");
    assert_eq!(d.find_method(&String::from("ListFiles")), Some(1));
    assert_eq!(d.find_method(&String::from("Nothing")), None);
}

#[test]
fn entry_kinds_follow_the_flag_precedence() {
    assert_eq!(to_kind(true, false, false), Some(FileKind::Directory));
    assert_eq!(to_kind(false, true, false), Some(FileKind::Regular));
    assert_eq!(to_kind(false, false, true), Some(FileKind::Link));
    assert_eq!(to_kind(false, false, false), None);
    // A directory flag wins over everything else.
    assert_eq!(to_kind(true, true, true), Some(FileKind::Directory));
}

#[test]
fn list_files_requests_round_trip() {
    let r = ListFilesRequest { path: String::from("/tmp") };
    let bytes = encode_list_files_request(&r);
    assert_eq!(bytes, vec![0x0A, 4, b'/', b't', b'm', b'p']);
    let back = decode_list_files_request(&bytes).expect("decode");
    assert_eq!(back.path, "/tmp");

    let empty = ListFilesRequest { path: String::new() };
    assert_eq!(encode_list_files_request(&empty), Vec::<u8>::new());
    assert_eq!(decode_list_files_request(&Vec::new()).expect("decode").path, "");

    // An explicitly empty path field is not canonical.
    assert!(decode_list_files_request(&vec![0x0A, 0]).is_none());
}

#[test]
fn list_files_responses_round_trip() {
    let response = ListFilesResponse {
        file: vec![
            ListedFile { path: String::from("a"), kind: Some(FileKind::Regular) },
            ListedFile { path: String::from("d"), kind: Some(FileKind::Directory) },
            ListedFile { path: String::new(), kind: None },
            ListedFile { path: String::from("l"), kind: Some(FileKind::Link) },
        ],
    };
    let bytes = encode_list_files_response(&response);
    // Entry one: path "a" under tag 10, a Regular kind as an empty
    // nested message under tag 18, the whole entry framed under tag 10.
    assert_eq!(
        bytes[..7],
        [0x0A, 5, 0x0A, 1, b'a', 0x12, 0]
    );
    let back = decode_list_files_response(&bytes).expect("decode");
    assert_eq!(back.file.len(), 4);
    assert_eq!(back.file[0].path, "a");
    assert_eq!(back.file[0].kind, Some(FileKind::Regular));
    assert_eq!(back.file[1].kind, Some(FileKind::Directory));
    assert_eq!(back.file[2].path, "");
    assert_eq!(back.file[2].kind, None);
    assert_eq!(back.file[3].kind, Some(FileKind::Link));
    assert_eq!(encode_list_files_response(&back), bytes);

    let empty = ListFilesResponse { file: vec![] };
    assert_eq!(encode_list_files_response(&empty), Vec::<u8>::new());
    assert!(decode_list_files_response(&Vec::new()).expect("decode").file.is_empty());

    // A non-empty kind payload is not canonical.
    assert!(decode_list_files_response(&vec![0x0A, 4, 0x12, 2, 0, 0]).is_none());
    // Trailing bytes after the entries are rejected.
    let mut tail = bytes.clone();
    tail.push(0);
    assert!(decode_list_files_response(&tail).is_none());
}

#[test]
fn listings_flatten_for_the_host() {
    let response = ListFilesResponse {
        file: vec![
            ListedFile { path: String::from("a.txt"), kind: Some(FileKind::Regular) },
            ListedFile { path: String::from("sub"), kind: Some(FileKind::Directory) },
            ListedFile { path: String::from("ln"), kind: Some(FileKind::Link) },
            ListedFile { path: String::from("odd"), kind: None },
        ],
    };
    let listing = FileListing::of_response(&response);
    assert_eq!(listing.fileLength(), 4);

    let first = listing.file(0);
    assert_eq!(first.path(), "a.txt");
    assert!(first.isRegular());
    assert!(!first.isDirectory());

    let second = listing.file(1);
    assert!(!second.isRegular());
    assert!(second.isDirectory());

    let third = listing.file(2);
    assert!(!third.isRegular());
    assert!(!third.isDirectory());

    let fourth = listing.file(3);
    assert!(!fourth.isRegular());
    assert!(!fourth.isDirectory());
}

#[test]
fn error_chains_become_nested_envelopes() {
    let levels = vec![
        (String::from("request failed"), vec![String::from("frame 0")]),
        (String::from("disk full"), vec![]),
    ];
    let envelope = envelope_from_chain(&levels);
    assert_eq!(envelope.message, "request failed");
    assert_eq!(envelope.backtrace, vec![String::from("frame 0")]);
    let inner = envelope.cause.expect("cause");
    assert_eq!(inner.message, "disk full");
    assert!(inner.cause.is_none());
}

#[test]
fn rpc_errors_describe_themselves() {
    let decode = RpcError::Decode { message: String::from("bad tag") };
    assert_eq!(decode.describe(), "Decode error: bad tag");
    let encode = RpcError::Encode { message: String::from("no room") };
    assert_eq!(encode.describe(), "Encode error: no room");
    assert_eq!(RpcError::Canceled.describe(), "Canceled error");
}

#[test]
fn nesting_keeps_the_envelope() {
    let envelope = ErrorEnvelope {
        message: String::from("m"),
        cause: None,
        backtrace: vec![String::from("line")],
    };
    let nested = nested_error(envelope.clone());
    assert_eq!(nested.envelope.message, "m");
    assert_eq!(nested.envelope.backtrace, vec![String::from("line")]);
}

#[test]
fn the_document_model_builds_a_small_tree() {
    let doc = Markdown {
        children: vec![
            Block::Heading(Heading::new(
                1,
                vec![Inline::Text(Text { content: String::from("Title") })],
            )),
            Block::Paragraph(Paragraph {
                children: vec![],
            }),
        ],
        declarations: vec![],
    };
    assert_eq!(doc.children.len(), 2);
    match &doc.children[0] {
        Block::Heading(h) => {
            assert_eq!(h.depth, 1);
            assert_eq!(h.children.len(), 1);
        },
        other => panic!("unexpected block: {:?}", other),
    }
    let data = Data::Markdown(doc);
    match data {
        Data::Markdown(d) => assert_eq!(d.declarations.len(), 0),
    }
}
