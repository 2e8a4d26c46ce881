use teeify_enclave::http::{
    build_http_request, decode_response, extract_json_boundary, overflows, parse_http_response,
};
use teeify_enclave::weburl::UrlParts;

fn chunked(body: &[u8]) -> Vec<u8> {
    let mut bytes = b"HTTP/1.1 200 OK\r\nTransfer-Encoding: CHUNKED\r\n\r\n".to_vec();
    bytes.extend_from_slice(body);
    bytes
}

fn fault(body: &[u8]) -> String {
    parse_http_response(&chunked(body)).unwrap_err()
}

#[test]
fn plain_body_comes_back() {
    let bytes = b"HTTP/1.1 200 OK\r\nContent-Length: 7\r\n\r\n{\"a\":1}";
    assert_eq!(parse_http_response(bytes), Ok("{\"a\":1}".to_string()));
    assert_eq!(parse_http_response(b"x\r\n\r\n"), Ok(String::new()));
    assert_eq!(parse_http_response(b"x\r\n\r\na\r\n\r\nb"), Ok("a\r\n\r\nb".to_string()));
}

#[test]
fn faulty_utf8_is_replaced() {
    assert_eq!(parse_http_response(b"x\r\n\r\n{\xff}"), Ok("{\u{fffd}}".to_string()));
}

#[test]
fn response_without_blank_line_is_incomplete() {
    assert_eq!(
        parse_http_response(b"HTTP/1.1 200 OK\r\n"),
        Err("Incomplete HTTP response (no header/body delimiter)".to_string())
    );
}

#[test]
fn chunks_are_joined() {
    assert_eq!(
        parse_http_response(&chunked(b"4\r\n{\"a\"\r\n3;x=y\r\n:1}\r\n0\r\nTrailer: z\r\n\r\n")),
        Ok("{\"a\":1}".to_string())
    );
    assert_eq!(parse_http_response(&chunked(b" +A \r\n0123456789\r\n0\r\n")), Ok("0123456789".to_string()));
    assert_eq!(parse_http_response(&chunked(b"0\r\n")), Ok(String::new()));
}

#[test]
fn chunk_can_hold_line_ends() {
    assert_eq!(parse_http_response(&chunked(b"4\r\n\r\n\r\n\r\n0\r\n")), Ok("\r\n\r\n".to_string()));
}

#[test]
fn faults_of_chunks_are_named() {
    assert_eq!(fault(b""), "Incomplete chunked encoding (unexpected EOF before size line)");
    assert_eq!(fault(b"1\r\na\r\n"), "Incomplete chunked encoding (unexpected EOF before size line)");
    assert_eq!(fault(b"5"), "Incomplete chunked encoding (missing CRLF after size)");
    assert_eq!(fault(b"\xff\r\n"), "Invalid UTF-8 in chunk-size line");
    assert_eq!(fault(b"zz\r\n"), "Invalid chunk size: \"zz\"");
    assert_eq!(fault(b"\r\n"), "Invalid chunk size: \"\"");
    assert_eq!(fault(b"5\r\nabc"), "Incomplete chunk body (need 7 bytes incl. CRLF, have 3)");
    assert_eq!(fault(b"3\r\nabcdef"), "Malformed chunk framing (missing trailing CRLF)");
    assert_eq!(fault(b"10000000000000000\r\n"), "Invalid chunk size: \"10000000000000000\"");
}

#[test]
fn chunk_without_an_end_is_told_apart() {
    let bytes = chunked(b"ffffffffffffffff\r\nabc");
    assert!(overflows(&bytes));
    assert_eq!(decode_response(&bytes), None);
    let bytes = chunked(b"fffffffffffffffe\r\nabc");
    assert!(overflows(&bytes));
    let bytes = chunked(b"fffffffffffffffd\r\nabc");
    assert!(!overflows(&bytes));
    assert_eq!(
        decode_response(&bytes),
        Some(Err("Incomplete chunk body (need 18446744073709551615 bytes incl. CRLF, have 3)".to_string()))
    );
    assert!(!overflows(b"x\r\n\r\nffffffffffffffff\r\nabc"));
}

#[test]
fn chunks_are_announced_in_any_case() {
    let bytes = b"A\r\ntransfer-encoding: chunked, x\r\n\r\n1\r\na\r\n0\r\n";
    assert_eq!(parse_http_response(bytes), Ok("a".to_string()));
    let bytes = b"A\r\ntransfer-encoding:chunked\r\n\r\n1\r\na\r\n0\r\n";
    assert_eq!(parse_http_response(bytes), Ok("1\r\na\r\n0\r\n".to_string()));
    let bytes = "A: \u{c4}\r\nTRANSFER-ENCODING: chun\u{212a}ed\r\n\r\n1\r\na\r\n0\r\n".as_bytes();
    assert_eq!(parse_http_response(bytes), Ok("a".to_string()));
}

#[test]
fn json_is_cut_out() {
    let cut = |s: &str| extract_json_boundary(s);
    assert_eq!(cut("\0 {\"a\":1}\n\0"), Ok("{\"a\":1}".to_string()));
    assert_eq!(cut("1a;{\"a\":{}} tail"), Ok("{\"a\":{}}".to_string()));
    assert_eq!(cut("x [1,2] y"), Ok("[1,2]".to_string()));
    assert_eq!(cut("[{\"a\":1},{\"b\":2}]"), Ok("[{\"a\":1},{\"b\":2}]".to_string()));
    assert_eq!(cut("{\"a\":[1,2]}"), Ok("{\"a\":[1,2]}".to_string()));
    assert_eq!(cut("n=2 [{}, {}] ok"), Ok("[{}, {}]".to_string()));
    assert_eq!(cut("[1, 2] }{"), Ok("[1, 2]".to_string()));
    assert_eq!(cut("\u{e4}{\u{f6}}\u{fc}"), Ok("{\u{f6}}".to_string()));
}

#[test]
fn brackets_that_do_not_enclose_the_braces_give_way() {
    let cut = |s: &str| extract_json_boundary(s);
    assert_eq!(cut("[x] {\"a\":1}"), Ok("{\"a\":1}".to_string()));
    assert_eq!(cut("[x {\"a\":1}"), Ok("{\"a\":1}".to_string()));
    assert_eq!(cut("[log] {\"a\":[1]}"), Ok("{\"a\":[1]}".to_string()));
    assert_eq!(cut("{\"a\":1} [x]"), Ok("{\"a\":1}".to_string()));
    assert_eq!(cut("[{}, {}] ok }"), Ok("{}, {}] ok }".to_string()));
}

#[test]
fn text_without_json_is_refused() {
    let message = Err("Could not locate JSON boundaries in response body".to_string());
    for text in ["", "plain", "}{", "][", "{", "]", "}x{", "[}{", "[1}", "{1]", "{[1]"] {
        assert_eq!(extract_json_boundary(text), message, "{text:?}");
    }
}

#[test]
fn cutting_twice_changes_nothing() {
    let once = extract_json_boundary("  ab {\"x\": [1]} cd ").unwrap();
    assert_eq!(extract_json_boundary(&once), Ok(once.clone()));
}

fn parts(path: &str, query: Option<&str>) -> UrlParts {
    UrlParts {
        scheme: "https".to_string(),
        host: Some("api.example".to_string()),
        port: Some(443),
        path: path.to_string(),
        query: query.map(|q| q.to_string()),
    }
}

#[test]
fn request_without_body() {
    assert_eq!(
        build_http_request(&parts("/a/b", Some("c=d")), "GET", &None, &vec![]),
        "GET /a/b?c=d HTTP/1.1\r\nHost: api.example\r\nUser-Agent: teeify-enclave/1\r\nConnection: close\r\n\r\n"
    );
}

#[test]
fn request_with_body_counts_bytes() {
    let headers = vec![
        ("Accept".to_string(), "*/*".to_string()),
        ("CONNECTION".to_string(), "keep-alive".to_string()),
        ("X".to_string(), String::new()),
    ];
    assert_eq!(
        build_http_request(&parts("", Some("")), "POST", &Some("h\u{e9}".to_string()), &headers),
        "POST /? HTTP/1.1\r\nHost: api.example\r\nUser-Agent: teeify-enclave/1\r\nAccept: */*\r\nX: \r\n\
         Connection: close\r\nContent-Length: 3\r\n\r\nh\u{e9}"
    );
}

#[test]
fn request_without_host_or_with_empty_body() {
    let mut url = parts("/", None);
    url.host = None;
    assert_eq!(
        build_http_request(&url, "PUT", &Some(String::new()), &vec![]),
        "PUT / HTTP/1.1\r\nHost: \r\nUser-Agent: teeify-enclave/1\r\nConnection: close\r\nContent-Length: 0\r\n\r\n"
    );
}
