use semantic_editor::http::{
    canonicalize_path, classify_request, cors_headers, parse_rpc_path, request_content_type,
    response_content_type, RequestKind,
};
use semantic_editor::static_files::{StaticFile, StaticFiles, StaticServe};

#[test]
fn empty_and_root_paths_canonicalize_to_the_index_page() {
    assert_eq!(canonicalize_path(""), "index.html");
    assert_eq!(canonicalize_path("/"), "index.html");
}

#[test]
fn other_paths_lose_their_leading_slash() {
    assert_eq!(canonicalize_path("/app.js"), "app.js");
    assert_eq!(canonicalize_path("/a/b"), "a/b");
}

#[test]
fn rpc_paths_split_into_service_and_method() {
    let (service, method) = parse_rpc_path("/se.service.SemanticEditor/ListFiles").expect("shape");
    assert_eq!(service, "se.service.SemanticEditor");
    assert_eq!(method, "ListFiles");
}

#[test]
fn non_rpc_paths_are_rejected() {
    assert!(parse_rpc_path("").is_none());
    assert!(parse_rpc_path("/onlyone").is_none());
    assert!(parse_rpc_path("noslash/x").is_none());
    assert!(parse_rpc_path("/a/b/c").is_none());
}

#[test]
fn empty_segments_are_still_segments() {
    let (service, method) = parse_rpc_path("//m").expect("shape");
    assert_eq!(service, "");
    assert_eq!(method, "m");
}

#[test]
fn request_classification_follows_precedence() {
    assert_eq!(classify_request(true, true, true), RequestKind::Preflight);
    assert_eq!(classify_request(false, true, true), RequestKind::StaticFile);
    assert_eq!(classify_request(false, false, true), RequestKind::Rpc);
    assert_eq!(classify_request(false, false, false), RequestKind::NotFound);
}

#[test]
fn the_wire_content_types_are_fixed() {
    assert_eq!(request_content_type(), "application/x-semantic-editor-request");
    assert_eq!(response_content_type(), "application/x-semantic-editor-response");
}

#[test]
fn every_response_carries_permissive_cors_headers() {
    let headers = cors_headers();
    assert_eq!(
        headers,
        vec![
            ("access-control-allow-origin", "*"),
            ("access-control-allow-methods", "POST"),
            ("access-control-allow-headers", "*"),
        ]
    );
}

fn bundle() -> StaticFiles {
    // A hand-built brotli stream: one uncompressed metablock holding
    // "hi", then the final empty metablock.
    let hi_brotli = vec![0x10, 0x00, 0x10, b'h', b'i', 0x03];
    StaticFiles::new(vec![
        StaticFile { name: String::from("index.html"), compressed: hi_brotli, size: 2 },
        StaticFile { name: String::from("broken.bin"), compressed: vec![0xFF, 0xFF], size: 9 },
    ])
}

#[test]
fn bundled_files_are_found_by_name() {
    let files = bundle();
    assert!(files.file_exists("index.html"));
    assert!(!files.file_exists("missing.html"));
    let f = files.brotli_compressed_file("index.html").expect("found");
    assert_eq!(f.size, 2);
    assert!(files.brotli_compressed_file("missing.html").is_none());
}

#[test]
fn bundled_files_inflate_to_their_contents() {
    let files = bundle();
    assert_eq!(files.file("index.html"), Some(vec![b'h', b'i']));
    assert_eq!(files.file("missing.html"), None);
    // A corrupt stream yields nothing rather than wrong bytes.
    assert_eq!(files.file("broken.bin"), None);
}

#[test]
fn serving_honors_the_accept_encoding_choice() {
    let files = bundle();
    match files.serve("index.html", true) {
        Some(StaticServe::Brotli(data)) => {
            assert_eq!(data, vec![0x10, 0x00, 0x10, b'h', b'i', 0x03]);
        },
        other => panic!("unexpected serve: {:?}", other),
    }
    match files.serve("index.html", false) {
        Some(StaticServe::Plain(data, size)) => {
            assert_eq!(data, vec![b'h', b'i']);
            assert_eq!(size, 2);
        },
        other => panic!("unexpected serve: {:?}", other),
    }
    assert!(files.serve("missing.html", true).is_none());
}
