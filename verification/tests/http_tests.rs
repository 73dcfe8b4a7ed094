use http::msg::{Request, Response};
use http::parse::ParseError;
use http::route::{
    apply_encoding, build_response, handle, plan_file_action, wants_gzip, FileAction, FileOutcome,
    RouteError,
};
use std::collections::HashMap;
use std::io::Read;

fn bytes(s: &str) -> Vec<u8> {
    s.as_bytes().to_vec()
}

fn parse_ok(input: &str) -> (Request, usize) {
    Request::parse(&bytes(input)).expect("expected a parse")
}

/// Splits serialized response bytes into (status line, headers, body).
fn split_response(raw: &[u8]) -> (String, HashMap<String, String>, Vec<u8>) {
    let pos = raw
        .windows(4)
        .position(|w| w == b"\r\n\r\n")
        .expect("no header terminator");
    let head = String::from_utf8(raw[..pos].to_vec()).expect("head not utf-8");
    let body = raw[pos + 4..].to_vec();
    let mut lines = head.split("\r\n");
    let status = lines.next().expect("no status line").to_string();
    let mut headers = HashMap::new();
    for line in lines {
        let (name, value) = line.split_once(':').expect("header line without colon");
        headers.insert(name.trim().to_string(), value.trim().to_string());
    }
    (status, headers, body)
}

#[test]
fn parse_simple_get() {
    let (req, used) = parse_ok("GET / HTTP/1.1\r\nHost: example\r\n\r\n");
    assert_eq!(req.request_line.method, bytes("GET"));
    assert_eq!(req.request_line.target, bytes("/"));
    assert_eq!(req.request_line.version, bytes("HTTP/1.1"));
    assert_eq!(used, "GET / HTTP/1.1\r\nHost: example\r\n\r\n".len());
    assert!(req.body.is_empty());
}

#[test]
fn parse_body_exact_and_no_more() {
    // Content-Length 5: exactly five body bytes are consumed, not the extra.
    let input = "POST /files/x HTTP/1.1\r\nContent-Length: 5\r\n\r\nhelloEXTRA";
    let (req, used) = parse_ok(input);
    assert_eq!(req.body, bytes("hello"));
    assert_eq!(used, input.len() - "EXTRA".len());
}

#[test]
fn parse_body_lf_only_lines() {
    let (req, used) = parse_ok("GET /x HTTP/1.1\nContent-Length: 2\n\nab");
    assert_eq!(req.body, bytes("ab"));
    assert_eq!(used, "GET /x HTTP/1.1\nContent-Length: 2\n\nab".len());
}

#[test]
fn parse_duplicate_header_keeps_first() {
    let (req, _) = parse_ok("GET / HTTP/1.1\r\nX-Test: one\r\nX-Test: two\r\n\r\n");
    let entry = req
        .headers
        .iter()
        .find(|h| h.name == bytes("X-Test"))
        .expect("header missing");
    assert_eq!(entry.values, vec![bytes("one")]);
    assert_eq!(
        req.headers.iter().filter(|h| h.name == bytes("X-Test")).count(),
        1
    );
}

#[test]
fn parse_header_values_split_on_commas() {
    let (req, _) = parse_ok("GET / HTTP/1.1\r\nAccept-Encoding: deflate , gzip,br\r\n\r\n");
    let entry = req
        .headers
        .iter()
        .find(|h| h.name == bytes("Accept-Encoding"))
        .expect("header missing");
    assert_eq!(entry.values, vec![bytes("deflate"), bytes("gzip"), bytes("br")]);
}

#[test]
fn parse_malformed_start_line() {
    assert_eq!(
        Request::parse(&bytes("GET /\r\n\r\n")).unwrap_err(),
        ParseError::MalformedStartLine
    );
    assert_eq!(
        Request::parse(&bytes("GET / HTTP/1.1 extra\r\n\r\n")).unwrap_err(),
        ParseError::MalformedStartLine
    );
}

#[test]
fn parse_truncated_headers() {
    assert_eq!(
        Request::parse(&bytes("GET / HTTP/1.1\r\nHost: x")).unwrap_err(),
        ParseError::TruncatedHeaders
    );
    assert_eq!(Request::parse(&bytes("")).unwrap_err(), ParseError::TruncatedHeaders);
}

#[test]
fn parse_malformed_header() {
    assert_eq!(
        Request::parse(&bytes("GET / HTTP/1.1\r\nnocolon\r\n\r\n")).unwrap_err(),
        ParseError::MalformedHeader
    );
}

#[test]
fn parse_incomplete_body() {
    assert_eq!(
        Request::parse(&bytes("GET / HTTP/1.1\r\nContent-Length: 10\r\n\r\nabc")).unwrap_err(),
        ParseError::IncompleteBody
    );
}

#[test]
fn parse_unparseable_content_length_means_empty_body() {
    let (req, used) = parse_ok("GET / HTTP/1.1\r\nContent-Length: ten\r\n\r\nabc");
    assert!(req.body.is_empty());
    assert_eq!(used, "GET / HTTP/1.1\r\nContent-Length: ten\r\n\r\n".len());
}

fn run(input: &str, peer: &str, file: FileOutcome) -> Result<(String, HashMap<String, String>, Vec<u8>), RouteError> {
    let (req, _) = parse_ok(input);
    let raw = handle(&req, &bytes(peer), &file)?;
    Ok(split_response(&raw))
}

#[test]
fn route_root_hello_world() {
    let (status, _, body) = run("GET / HTTP/1.1\r\n\r\n", "1.2.3.4", FileOutcome::NoFile).unwrap();
    assert_eq!(status, "HTTP/1.1 200 OK");
    assert_eq!(body, bytes("Hello, World!"));
}

#[test]
fn route_echo() {
    let (status, headers, body) =
        run("GET /echo/abc123 HTTP/1.1\r\n\r\n", "1.2.3.4", FileOutcome::NoFile).unwrap();
    assert_eq!(status, "HTTP/1.1 200 OK");
    assert_eq!(body, bytes("abc123"));
    assert_eq!(headers.get("Content-Length").unwrap(), "6");
    assert_eq!(headers.get("Content-Type").unwrap(), "text/plain");
    assert_eq!(headers.get("Server").unwrap(), "faras");
}

#[test]
fn route_user_agent() {
    let (status, _, body) = run(
        "GET /user-agent HTTP/1.1\r\nUser-Agent: foo/1.0\r\n\r\n",
        "1.2.3.4",
        FileOutcome::NoFile,
    )
    .unwrap();
    assert_eq!(status, "HTTP/1.1 200 OK");
    assert_eq!(body, bytes("foo/1.0"));
}

#[test]
fn route_user_agent_missing_is_fatal() {
    assert_eq!(
        run("GET /user-agent HTTP/1.1\r\n\r\n", "1.2.3.4", FileOutcome::NoFile).unwrap_err(),
        RouteError::MissingUserAgent
    );
}

#[test]
fn route_ip_reflects_peer() {
    let (status, _, body) =
        run("GET /ip HTTP/1.1\r\n\r\n", "10.0.0.7", FileOutcome::NoFile).unwrap();
    assert_eq!(status, "HTTP/1.1 200 OK");
    assert_eq!(body, bytes("10.0.0.7"));
}

#[test]
fn route_files_missing_is_404() {
    // An empty file store answers every read with a failure.
    let (req, _) = parse_ok("GET /files/missing.txt HTTP/1.1\r\n\r\n");
    match plan_file_action(&req) {
        FileAction::ReadFile(name) => assert_eq!(name, bytes("missing.txt")),
        _ => panic!("expected a read plan"),
    }
    let (status, headers, body) = run(
        "GET /files/missing.txt HTTP/1.1\r\n\r\n",
        "1.2.3.4",
        FileOutcome::ReadFailed,
    )
    .unwrap();
    assert_eq!(status, "HTTP/1.1 404 Not Found");
    assert_eq!(body, bytes("Not Found"));
    assert_eq!(headers.get("Content-Type").unwrap(), "application/octet-stream");
}

#[test]
fn route_files_write_then_read_back() {
    // A store of plain values stands in for the directory.
    let mut store: HashMap<Vec<u8>, Vec<u8>> = HashMap::new();
    let (post, _) = parse_ok("POST /files/new.txt HTTP/1.1\r\nContent-Length: 5\r\n\r\nhello");
    let outcome = match plan_file_action(&post) {
        FileAction::WriteFile(name, content) => {
            store.insert(name, content);
            FileOutcome::WriteOk
        }
        _ => panic!("expected a write plan"),
    };
    let raw = handle(&post, &bytes("1.2.3.4"), &outcome).unwrap();
    let (status, _, _) = split_response(&raw);
    assert_eq!(status, "HTTP/1.1 201 Created");

    let (get, _) = parse_ok("GET /files/new.txt HTTP/1.1\r\n\r\n");
    let outcome = match plan_file_action(&get) {
        FileAction::ReadFile(name) => match store.get(&name) {
            Some(content) => FileOutcome::ReadOk(content.clone()),
            None => FileOutcome::ReadFailed,
        },
        _ => panic!("expected a read plan"),
    };
    let (status, _, body) = {
        let raw = handle(&get, &bytes("1.2.3.4"), &outcome).unwrap();
        split_response(&raw)
    };
    assert_eq!(status, "HTTP/1.1 200 OK");
    assert_eq!(body, bytes("hello"));
}

#[test]
fn route_get_unknown_is_404() {
    let (status, _, body) =
        run("GET /nothing HTTP/1.1\r\n\r\n", "1.2.3.4", FileOutcome::NoFile).unwrap();
    assert_eq!(status, "HTTP/1.1 404 Not Found");
    assert_eq!(body, bytes("Not Found"));
}

#[test]
fn route_other_method_is_405() {
    for method in ["DELETE", "PUT", "PATCH", "get"] {
        let input = format!("{method} / HTTP/1.1\r\n\r\n");
        let (req, _) = parse_ok(&input);
        let raw = handle(&req, &bytes("1.2.3.4"), &FileOutcome::NoFile).unwrap();
        let (status, _, body) = split_response(&raw);
        assert_eq!(status, "HTTP/1.1 405 Method Not Allowed");
        assert_eq!(body, bytes("Method Not Allowed"));
    }
}

#[test]
fn encoding_negotiation() {
    let (req, _) = parse_ok("GET /echo/x HTTP/1.1\r\nAccept-Encoding: gzip\r\n\r\n");
    assert!(wants_gzip(&req));
    let (req, _) = parse_ok("GET /echo/x HTTP/1.1\r\nAccept-Encoding: deflate, gzip\r\n\r\n");
    assert!(wants_gzip(&req));
    let (req, _) = parse_ok("GET /echo/x HTTP/1.1\r\nAccept-Encoding: deflate\r\n\r\n");
    assert!(!wants_gzip(&req));
    let (req, _) = parse_ok("GET /echo/x HTTP/1.1\r\n\r\n");
    assert!(!wants_gzip(&req));
}

#[test]
fn encoded_echo_round_trips_through_gzip() {
    let (status, headers, body) = run(
        "GET /echo/abc HTTP/1.1\r\nAccept-Encoding: gzip\r\n\r\n",
        "1.2.3.4",
        FileOutcome::NoFile,
    )
    .unwrap();
    assert_eq!(status, "HTTP/1.1 200 OK");
    assert_eq!(headers.get("Content-Encoding").unwrap(), "gzip");
    assert_eq!(headers.get("Content-Length").unwrap(), &body.len().to_string());
    assert_ne!(body, bytes("abc"));
    let mut decoder = flate2::read::GzDecoder::new(body.as_slice());
    let mut decoded = String::new();
    decoder.read_to_string(&mut decoded).expect("not a gzip stream");
    assert_eq!(decoded, "abc");
}

#[test]
fn encoding_skips_empty_bodies() {
    // POST outside /files leaves the default empty body; no gzip is applied.
    let (status, headers, body) = run(
        "POST /other HTTP/1.1\r\nAccept-Encoding: gzip\r\n\r\n",
        "1.2.3.4",
        FileOutcome::NoFile,
    )
    .unwrap();
    assert_eq!(status, "HTTP/1.1 200 OK");
    assert!(headers.get("Content-Encoding").is_none());
    assert!(body.is_empty());
}

#[test]
fn response_defaults() {
    let resp = Response::new();
    assert_eq!(resp.status_line.version, bytes("HTTP/1.1"));
    assert_eq!(resp.status_line.status_code, 200);
    assert_eq!(resp.status_line.reason_phrase, Some(bytes("OK")));
    assert!(resp.body.is_empty());
    let names: Vec<&[u8]> = resp.headers.iter().map(|h| h.name.as_slice()).collect();
    assert_eq!(names, vec![b"Server".as_slice(), b"Content-Type".as_slice()]);
}

#[test]
fn serializer_recomputes_content_length() {
    let mut resp = Response::new();
    resp.body = bytes("hello");
    let raw = resp.to_bytes();
    let (status, headers, body) = split_response(&raw);
    assert_eq!(status, "HTTP/1.1 200 OK");
    assert_eq!(headers.get("Content-Length").unwrap(), "5");
    assert_eq!(body, bytes("hello"));
    // serializing again after a body change overwrites the header
    resp.body = bytes("hi");
    let raw = resp.to_bytes();
    let (_, headers, body) = split_response(&raw);
    assert_eq!(headers.get("Content-Length").unwrap(), "2");
    assert_eq!(body, bytes("hi"));
}

#[test]
fn status_line_without_reason_keeps_trailing_space() {
    let sl = http::msg::StatusLine {
        version: bytes("HTTP/1.1"),
        status_code: 404,
        reason_phrase: None,
    };
    assert_eq!(sl.to_bytes(), bytes("HTTP/1.1 404 "));
}

#[test]
fn apply_encoding_marks_and_replaces_body() {
    let mut resp = build_response(
        &parse_ok("GET /echo/zzz HTTP/1.1\r\n\r\n").0,
        &bytes("1.2.3.4"),
        &FileOutcome::NoFile,
    )
    .unwrap();
    assert_eq!(resp.body, bytes("zzz"));
    apply_encoding(&mut resp, true);
    assert_ne!(resp.body, bytes("zzz"));
    assert!(resp.headers.iter().any(|h| h.name == bytes("Content-Encoding")
        && h.values == vec![bytes("gzip")]));
    let mut decoder = flate2::read::GzDecoder::new(resp.body.as_slice());
    let mut decoded = String::new();
    decoder.read_to_string(&mut decoded).expect("not a gzip stream");
    assert_eq!(decoded, "zzz");
}

#[test]
fn response_default_matches_new() {
    let resp = Response::default();
    assert_eq!(resp.status_line.status_code, 200);
    assert_eq!(resp.status_line.reason_phrase, Some(bytes("OK")));
    assert!(resp.body.is_empty());
    assert_eq!(resp.headers.len(), 2);
}

#[test]
fn route_echo_without_trailing_slash_keeps_path() {
    // "/echo" matches the prefix, but there is no "/echo/" to strip.
    let (status, _, body) =
        run("GET /echo HTTP/1.1\r\n\r\n", "1.2.3.4", FileOutcome::NoFile).unwrap();
    assert_eq!(status, "HTTP/1.1 200 OK");
    assert_eq!(body, bytes("/echo"));
}

#[test]
fn route_files_write_failure_keeps_default_status() {
    let (status, _, body) = run(
        "POST /files/x HTTP/1.1\r\nContent-Length: 2\r\n\r\nab",
        "1.2.3.4",
        FileOutcome::WriteFailed,
    )
    .unwrap();
    assert_eq!(status, "HTTP/1.1 200 OK");
    assert!(body.is_empty());
}

#[test]
fn content_length_with_plus_sign_is_accepted() {
    let (req, _) = parse_ok("GET / HTTP/1.1\r\nContent-Length: +3\r\n\r\nxyz");
    assert_eq!(req.body, bytes("xyz"));
}

#[test]
fn header_name_and_value_are_trimmed() {
    let (req, _) = parse_ok("GET / HTTP/1.1\r\n  Host  :   example.com  \r\n\r\n");
    let entry = req
        .headers
        .iter()
        .find(|h| h.name == bytes("Host"))
        .expect("header missing");
    assert_eq!(entry.values, vec![bytes("example.com")]);
}

#[test]
fn route_user_agent_path_is_case_insensitive() {
    let (status, _, body) = run(
        "GET /USER-Agent HTTP/1.1\r\nUser-Agent: curl/8\r\n\r\n",
        "1.2.3.4",
        FileOutcome::NoFile,
    )
    .unwrap();
    assert_eq!(status, "HTTP/1.1 200 OK");
    assert_eq!(body, bytes("curl/8"));

    let (status, _, body) = run("GET /IP HTTP/1.1\r\n\r\n", "9.8.7.6", FileOutcome::NoFile).unwrap();
    assert_eq!(status, "HTTP/1.1 200 OK");
    assert_eq!(body, bytes("9.8.7.6"));
}

#[test]
fn route_user_agent_joins_values() {
    // The parser split the line on commas; the route joins them back.
    let (_, _, body) = run(
        "GET /user-agent HTTP/1.1\r\nUser-Agent: one,two , three\r\n\r\n",
        "1.2.3.4",
        FileOutcome::NoFile,
    )
    .unwrap();
    assert_eq!(body, bytes("one, two, three"));
}
