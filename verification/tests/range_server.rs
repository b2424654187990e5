use sonoff_diy::httpd::{parse_dec, parse_range_header, parse_headers, parse_request, contains_str,
    dec_string, ipv4_string, Httpd, RequestOutcome};
use sonoff_diy::{Binary, Error, IpAddress};

fn test_binary(path: &str) -> Binary {
    // Probe answers supplied directly: a present regular file.
    Binary::validate(path, true, true).expect("accepted")
}

fn test_server(content: Vec<u8>) -> Httpd {
    let ip = IpAddress::v4_from_octets(127, 0, 0, 1);
    Httpd::new(&ip, 8989, &test_binary("fw/sonoff.bin"), content)
}

fn content_256() -> Vec<u8> {
    (0..=255u8).collect()
}

fn serve(server: &Httpd, raw: &str) -> (String, Vec<u8>) {
    match server.handle_request(raw) {
        RequestOutcome::ServeChunk(resp) => (resp.head, resp.body),
        _ => panic!("expected a chunk response"),
    }
}

#[test]
fn download_range() {
    let server = test_server(content_256());
    let (head, body) = serve(
        &server,
        "GET /sonoff.bin HTTP/1.1\r\nRange: bytes=0-99\r\n\r\n",
    );
    assert_eq!(
        head,
        "HTTP/1.1 206 Partial Content\r\nContent-Type: application/octet-stream\r\n\
         Content-Length: 100\r\nContent-Range: bytes 0-99/256\r\n\r\n"
    );
    assert_eq!(body.len(), 100);
    assert_eq!(body, content_256()[0..100].to_vec());

    let (head2, body2) = serve(
        &server,
        "GET /sonoff.bin HTTP/1.1\r\nRange: bytes=100-255\r\n\r\n",
    );
    assert_eq!(
        head2,
        "HTTP/1.1 206 Partial Content\r\nContent-Type: application/octet-stream\r\n\
         Content-Length: 156\r\nContent-Range: bytes 100-255/256\r\n\r\n"
    );
    // The two chunks, concatenated, are the original content.
    let mut joined = body;
    joined.extend(body2);
    assert_eq!(joined, content_256());
}

#[test]
fn range_is_clamped_to_the_content() {
    let server = test_server(content_256());
    let (head, body) = serve(
        &server,
        "GET /sonoff.bin HTTP/1.1\r\nRange: bytes=0-305\r\n\r\n",
    );
    assert_eq!(body, content_256());
    assert!(head.contains("Content-Range: bytes 0-255/256"));
}

#[test]
fn request_without_range_gets_the_whole_content() {
    let server = test_server(vec![7, 8, 9]);
    let (head, body) = serve(&server, "GET /sonoff.bin HTTP/1.1\r\nHost: x\r\n\r\n");
    assert_eq!(
        head,
        "HTTP/1.1 200 OK\r\nContent-Type: application/octet-stream\r\nContent-Length: 3\r\n\r\n"
    );
    assert_eq!(body, vec![7, 8, 9]);
}

#[test]
fn malformed_range_is_rejected_not_fatal() {
    let server = test_server(content_256());
    match server.handle_request("GET /sonoff.bin HTTP/1.1\r\nRange: pages=0-10\r\n\r\n") {
        RequestOutcome::Failed(Error::ParserError { .. }) => {}
        _ => panic!("a non-bytes range unit must be a parse error"),
    }
    match server.handle_request("GET /sonoff.bin HTTP/1.1\r\nRange: bytes=abc-10\r\n\r\n") {
        RequestOutcome::Failed(Error::ParserError { .. }) => {}
        _ => panic!("a non-numeric bound must be a parse error"),
    }
}

#[test]
fn refetch_yields_identical_bytes() {
    let server = test_server(content_256());
    let raw = "GET /sonoff.bin HTTP/1.1\r\nRange: bytes=17-42\r\n\r\n";
    let (head1, body1) = serve(&server, raw);
    let (head2, body2) = serve(&server, raw);
    assert_eq!(head1, head2);
    assert_eq!(body1, body2);
}

#[test]
fn post_is_acknowledged_with_its_body() {
    let server = test_server(vec![1]);
    match server.handle_request("POST /done HTTP/1.1\r\nHost: x\r\n\r\nall flashed") {
        RequestOutcome::UploadDone(body) => assert_eq!(body, "all flashed"),
        _ => panic!("expected the upload acknowledgment"),
    }
}

#[test]
fn other_methods_are_unexpected() {
    let server = test_server(vec![1]);
    match server.handle_request("PUT /sonoff.bin HTTP/1.1\r\nHost: x\r\n\r\n") {
        RequestOutcome::Unexpected(req) => assert_eq!(req.method, "PUT"),
        _ => panic!("expected an unexpected-request report"),
    }
}

#[test]
fn unparsable_requests_fail_cleanly() {
    let server = test_server(vec![1]);
    match server.handle_request("GET /sonoff.bin HTTP/1.1") {
        RequestOutcome::Failed(Error::InvalidRequest { .. }) => {}
        _ => panic!("missing blank line must be an invalid request"),
    }
    match server.handle_request("GETONLY\r\n\r\n") {
        RequestOutcome::Failed(Error::InvalidRequest { .. }) => {}
        _ => panic!("short request line must be an invalid request"),
    }
}

#[test]
fn parse_request_extracts_the_parts() {
    let req = parse_request("GET /a/b HTTP/1.1\r\nHost: h\r\nRange: bytes=1-2\r\n\r\nrest")
        .expect("well-formed");
    assert_eq!(req.method, "GET");
    assert_eq!(req.path, "/a/b");
    assert_eq!(req.body, "rest");
    assert_eq!(req.headers.get("host").unwrap(), "h");
    assert_eq!(req.headers.get("range").unwrap(), "bytes=1-2");
}

#[test]
fn header_names_are_lowercased_and_last_wins() {
    let h = parse_headers("RaNgE: bytes=0-1\r\nRange: bytes=5-6\r\nbroken-line\r\nA: b");
    assert_eq!(h.get("range").unwrap(), "bytes=5-6");
    assert_eq!(h.get("a").unwrap(), "b");
    assert!(h.get("broken-line").is_none());
}

#[test]
fn parse_range_header_reads_both_bounds() {
    assert_eq!(parse_range_header("bytes=0-99").unwrap(), (0, 99));
    assert_eq!(parse_range_header("bytes=100-200").unwrap(), (100, 200));
    assert!(parse_range_header("pages=0-10").is_err());
    assert!(parse_range_header("bytes=abc-10").is_err());
    assert!(parse_range_header("bytes=10").is_err());
    assert!(parse_range_header("bytes=1-99999999999999999999999999").is_err());
}

#[test]
fn decimal_text_round_trips() {
    assert_eq!(dec_string(0), "0");
    assert_eq!(dec_string(90210), "90210");
    assert_eq!(parse_dec("0").unwrap(), 0);
    assert_eq!(parse_dec("007").unwrap(), 7);
    assert_eq!(parse_dec(&dec_string(123456)).unwrap(), 123456);
    assert!(parse_dec("").is_err());
    assert!(parse_dec("12x").is_err());
}

#[test]
fn contains_finds_the_binary_name() {
    assert!(contains_str("/fw/sonoff.bin", "sonoff.bin"));
    assert!(contains_str("sonoff.bin", "sonoff.bin"));
    assert!(!contains_str("/fw/other.bin", "sonoff.bin"));
    assert!(contains_str("anything", ""));
}

#[test]
fn basename_is_the_part_after_the_last_slash() {
    assert_eq!(test_binary("fw/sonoff.bin").basename(), "sonoff.bin");
    assert_eq!(test_binary("sonoff.bin").basename(), "sonoff.bin");
    assert_eq!(test_binary("/a/b/c.bin").basename(), "c.bin");
}

#[test]
fn binary_validation_reports_each_rejection() {
    match Binary::validate("missing.bin", false, false) {
        Err(Error::InvalidBinary { msg }) => assert_eq!(msg, "not found!"),
        _ => panic!("a missing path must be rejected"),
    }
    match Binary::validate("somedir", true, false) {
        Err(Error::InvalidBinary { msg }) => assert_eq!(msg, "binary must be a file"),
        _ => panic!("a non-file must be rejected"),
    }
    assert!(Binary::validate("fw.bin", true, true).is_ok());
}

#[test]
fn sha256sum_uses_shortest_hex_per_byte() {
    // SHA-256 of "abc", each byte in its shortest hex form (0x01 -> "1").
    assert_eq!(
        Binary::sha256sum(b"abc"),
        "ba7816bf8f1cfea414140de5dae2223b0361a396177a9cb410ff61f2015ad"
    );
}

#[test]
fn binary_new_probes_the_filesystem() {
    match Binary::new("/definitely/not/there/sonoff.bin") {
        Err(Error::InvalidBinary { msg }) => assert_eq!(msg, "not found!"),
        _ => panic!("a missing path must be rejected"),
    }
    match Binary::new("/") {
        Err(Error::InvalidBinary { msg }) => assert_eq!(msg, "binary must be a file"),
        _ => panic!("a directory must be rejected"),
    }
}

#[test]
fn request_line_alone_is_a_complete_request() {
    // A well-formed request line with zero header lines parses.
    let req = parse_request("GET /p HTTP/1.1\r\n\r\nx").expect("well-formed");
    assert_eq!(req.method, "GET");
    assert_eq!(req.path, "/p");
    assert_eq!(req.body, "x");
    assert!(req.headers.get("range").is_none());
    // And a server answers it: no Range header, so the whole content.
    let server = test_server(vec![4, 5]);
    let (head, body) = serve(&server, "GET /sonoff.bin HTTP/1.1\r\n\r\n");
    assert!(head.starts_with("HTTP/1.1 200 OK"));
    assert_eq!(body, vec![4, 5]);
}

#[test]
fn short_request_line_is_rejected_despite_headers() {
    // Two tokens on the first line stay an error, however many header
    // lines follow.
    assert!(parse_request("GET /p\r\nHost: x\r\n\r\n").is_err());
}

#[test]
fn request_line_splits_on_any_whitespace() {
    let req = parse_request("GET\u{00A0}/p\tHTTP/1.1\r\nHost: x\r\n\r\n").expect("well-formed");
    assert_eq!(req.method, "GET");
    assert_eq!(req.path, "/p");
    assert_eq!(req.headers.get("host").unwrap(), "x");
}

#[test]
fn numerals_may_carry_a_plus_sign() {
    assert_eq!(parse_dec("+7").unwrap(), 7);
    assert!(parse_dec("+").is_err());
    assert!(parse_dec("++1").is_err());
    assert_eq!(parse_range_header("bytes=+0-+99").unwrap(), (0, 99));
}

#[test]
fn endpoint_url_names_the_binary() {
    let server = test_server(vec![1]);
    assert_eq!(
        server.endpoint_url("192.168.1.10"),
        "http://192.168.1.10:8989/sonoff.bin"
    );
    assert_eq!(ipv4_string(0xC0A8010A), "192.168.1.10");
    assert_eq!(ipv4_string(0), "0.0.0.0");
}
