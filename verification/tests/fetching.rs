use teeify_enclave::fetch::{
    decide_after_target, finish_response, target_line, AfterTarget, Command, FetchSession, FetchStep, Happened,
};
use teeify_enclave::options::{
    wants_header, Answer, Ask, FetchOptions, Key, OptionsReader, Progress, Slot,
};
use teeify_enclave::proxy::{
    bridge_target, connect_authority, ProxyCommand, ProxyHappened, ProxySession,
};
use teeify_enclave::script::Fault;
use teeify_enclave::weburl::UrlParts;

fn text(s: &str) -> Slot {
    Slot::Text(s.to_string())
}

fn name(s: &str) -> Key {
    Key::Name(s.to_string())
}

struct Raw {
    method: fn() -> Slot,
    body: fn() -> Slot,
    headers: Option<Vec<(&'static str, fn() -> Slot)>>,
}

fn read(url: Slot, options: Option<Raw>) -> (Result<FetchOptions, Fault>, Vec<usize>) {
    let mut asked = vec![];
    let mut reader = OptionsReader::start();
    let mut url = Some(url);
    loop {
        let answer = match reader.ask() {
            Ask::Url => Answer::Value(url.take().unwrap()),
            Ask::Options => Answer::IsObject(options.is_some()),
            Ask::Method => Answer::Value((options.as_ref().unwrap().method)()),
            Ask::Body => Answer::Value((options.as_ref().unwrap().body)()),
            Ask::Headers => Answer::Keys(options.as_ref().unwrap().headers.as_ref().map(|h| {
                h.iter().map(|(k, _)| if *k == "[0]" { Key::Other } else { name(k) }).collect()
            })),
            Ask::HeaderValue(i) => {
                asked.push(*i);
                Answer::Value((options.as_ref().unwrap().headers.as_ref().unwrap()[*i].1)())
            }
        };
        match reader.answer(answer) {
            Progress::Asking(r) => reader = r,
            Progress::Done(r) => return (r, asked),
        }
    }
}

fn message(r: Result<FetchOptions, Fault>) -> String {
    match r {
        Err(Fault::TypeError(m)) => m,
        _ => panic!("no TypeError"),
    }
}

#[test]
fn url_is_required() {
    assert_eq!(message(read(Slot::Undefined, None).0), "teeify.fetch: first argument (url) is required");
    assert_eq!(message(read(Slot::Null, None).0), "teeify.fetch: first argument (url) is required");
    assert_eq!(message(read(text(""), None).0), "teeify.fetch: url is empty");
}

#[test]
fn options_have_defaults() {
    let f = read(text("http://a/"), None).0.unwrap_or_else(|_| panic!());
    assert_eq!((f.url.as_str(), f.method.as_str()), ("http://a/", "GET"));
    assert!(f.body.is_none() && f.headers.is_empty());
    let raw = Raw { method: || Slot::Undefined, body: || Slot::Null, headers: None };
    let f = read(text("u"), Some(raw)).0.unwrap_or_else(|_| panic!());
    assert_eq!(f.method, "GET");
    assert!(f.body.is_none());
    let raw = Raw { method: || text(""), body: || text(""), headers: None };
    let f = read(text("u"), Some(raw)).0.unwrap_or_else(|_| panic!());
    assert_eq!(f.method, "GET");
    assert_eq!(f.body.as_deref(), Some(""));
    let raw = Raw { method: || Slot::Null, body: || Slot::Undefined, headers: None };
    let f = read(text("u"), Some(raw)).0.unwrap_or_else(|_| panic!());
    assert_eq!(f.method, "null");
}

#[test]
fn headers_are_filtered_before_they_are_read() {
    let raw = Raw {
        method: || text("POST"),
        body: || text("b"),
        headers: Some(vec![
            ("Accept", || text("x")),
            ("HOST", || panic!("read")),
            ("[0]", || panic!("read")),
            ("Content-Length", || panic!("read")),
            ("", || panic!("read")),
            ("X-Gone", || Slot::Undefined),
            ("X-Null", || Slot::Null),
            ("connection", || panic!("read")),
        ]),
    };
    let (f, asked) = read(text("u"), Some(raw));
    let f = f.unwrap_or_else(|_| panic!());
    assert_eq!(asked, [0, 5, 6]);
    assert_eq!(f.method, "POST");
    assert_eq!(f.body.as_deref(), Some("b"));
    assert_eq!(
        f.headers,
        [("Accept".to_string(), "x".to_string()), ("X-Null".to_string(), "null".to_string())]
    );
    assert!(wants_header(&name("Hosts")));
    assert!(!wants_header(&Key::Other));
}

#[test]
fn answer_to_something_else_is_ignored() {
    let reader = OptionsReader::start();
    match reader.answer(Answer::IsObject(true)) {
        Progress::Asking(r) => assert!(matches!(r.ask(), Ask::Url)),
        Progress::Done(_) => panic!(),
    }
}

fn options(url: &str) -> FetchOptions {
    FetchOptions { url: url.to_string(), method: "GET".to_string(), body: None, headers: vec![] }
}

fn go(step: FetchStep) -> (FetchSession, Command) {
    match step {
        FetchStep::Go(s, c) => (s, c),
        FetchStep::Done(Err(Fault::Error(m))) => panic!("Error: {m}"),
        FetchStep::Done(Err(Fault::TypeError(m))) => panic!("TypeError: {m}"),
        _ => panic!("done"),
    }
}

fn error(step: FetchStep) -> String {
    match step {
        FetchStep::Done(Err(Fault::Error(m))) => m,
        _ => panic!("no Error"),
    }
}

fn type_error(step: FetchStep) -> String {
    match step {
        FetchStep::Done(Err(Fault::TypeError(m))) => m,
        _ => panic!("no TypeError"),
    }
}

fn failure(message: &str) -> Happened {
    Happened::Failed { unexpected_eof: false, message: message.to_string() }
}

fn reading(url: &str) -> FetchSession {
    let (mut s, mut c) = go(FetchSession::begin(options(url)));
    while !matches!(c, Command::Read) {
        (s, c) = go(s.step(Happened::Done));
    }
    s
}

#[test]
fn bad_urls_are_refused() {
    assert_eq!(
        type_error(FetchSession::begin(options("nowhere"))),
        "teeify.fetch: bad url: relative URL without a base"
    );
    assert_eq!(
        type_error(FetchSession::begin(options("ftp://a/b"))),
        "teeify.fetch: unsupported url scheme ftp (use http: or https:)"
    );
    let parts = UrlParts {
        scheme: "http".to_string(),
        host: None,
        port: None,
        path: "/".to_string(),
        query: None,
    };
    assert_eq!(
        type_error(FetchSession::begin_with(options("x"), Ok(parts))),
        "teeify.fetch: url has no host"
    );
    assert_eq!(
        type_error(FetchSession::begin_with(options("x"), Err("e".to_string()))),
        "teeify.fetch: bad url: e"
    );
}

#[test]
fn https_goes_through_a_handshake() {
    let (s, c) = go(FetchSession::begin(options("https://API.example/a?b=c#d")));
    assert!(matches!(c, Command::Open));
    let (s, c) = go(s.step(Happened::Done));
    assert!(matches!(c, Command::SendTarget(line) if line == "api.example:443\n"));
    let (s, c) = go(s.step(Happened::Done));
    assert!(matches!(c, Command::Handshake(host) if host == "api.example"));
    let (s, c) = go(s.step(Happened::Done));
    assert!(matches!(c, Command::Write(r) if r == "GET /a?b=c HTTP/1.1\r\nHost: api.example\r\n\
        User-Agent: teeify-enclave/1\r\nConnection: close\r\n\r\n"));
    let (s, c) = go(s.step(Happened::Done));
    assert!(matches!(c, Command::Read));
    let (s, _) = go(s.step(Happened::Chunk(b"HTTP/1.1 200 OK\r\n\r\n{\"a\"".to_vec())));
    let (s, _) = go(s.step(Happened::Chunk(b":1}".to_vec())));
    match s.step(Happened::Chunk(vec![])) {
        FetchStep::Done(Ok(json)) => assert_eq!(json, "{\"a\":1}"),
        _ => panic!("no result"),
    }
}

#[test]
fn http_goes_without_a_handshake() {
    let (s, _) = go(FetchSession::begin(options("http://1.2.3.4:8080")));
    let (s, c) = go(s.step(Happened::Done));
    assert!(matches!(c, Command::SendTarget(line) if line == "1.2.3.4:8080\n"));
    let (_, c) = go(s.step(Happened::Done));
    assert!(matches!(c, Command::Write(r) if r.starts_with("GET / HTTP/1.1\r\nHost: 1.2.3.4\r\n")));
    let (s, _) = go(FetchSession::begin(options("http://a.b")));
    let (_, c) = go(s.step(Happened::Done));
    assert!(matches!(c, Command::SendTarget(line) if line == "a.b:80\n"));
}

#[test]
fn server_without_a_name_is_refused() {
    let (s, _) = go(FetchSession::begin(options("https://a_.-b..c/")));
    let (s, _) = go(s.step(Happened::Done));
    assert_eq!(error(s.step(Happened::Done)), "teeify.fetch: invalid TLS server name (SNI)");
}

#[test]
fn handshake_needs_a_name() {
    assert!(decide_after_target(false, false) == AfterTarget::Write);
    assert!(decide_after_target(false, true) == AfterTarget::Write);
    assert!(decide_after_target(true, true) == AfterTarget::ShakeHands);
    assert!(decide_after_target(true, false) == AfterTarget::Refuse);
}

#[test]
fn failures_on_the_tunnel_are_named() {
    let at = |n: usize| {
        let (mut s, _) = go(FetchSession::begin(options("https://a.b/")));
        for _ in 0..n {
            s = go(s.step(Happened::Done)).0;
        }
        error(s.step(failure("e")))
    };
    assert_eq!(at(0), "egress socket: e");
    assert_eq!(at(1), "egress target line: e");
    assert_eq!(at(2), "TLS handshake: e");
    assert_eq!(at(3), "egress write: e");
    assert_eq!(at(4), "egress read: e");
    assert_eq!(
        error(reading("http://a.b/").step(Happened::TimedOut)),
        "teeify.fetch: response read timed out (10s)"
    );
}

#[test]
fn close_without_notice_ends_a_response() {
    let (s, _) = go(reading("https://a.b/").step(Happened::Chunk(b"x\r\n\r\n[1]".to_vec())));
    let end = Happened::Failed { unexpected_eof: true, message: "eof".to_string() };
    match s.step(end) {
        FetchStep::Done(Ok(json)) => assert_eq!(json, "[1]"),
        _ => panic!("no result"),
    }
}

#[test]
fn response_has_a_limit() {
    let mut s = reading("http://a.b/");
    for _ in 0..4 {
        s = go(s.step(Happened::Chunk(vec![b'x'; 1024 * 1024]))).0;
    }
    assert_eq!(
        error(s.step(Happened::Chunk(vec![b'x']))),
        "teeify.fetch: response exceeded size limit (4 MiB)"
    );
}

#[test]
fn pieces_of_a_response_do_not_matter() {
    let bytes = b"A\r\nTransfer-Encoding: chunked\r\n\r\n3\r\n[1,\r\n2\r\n2]\r\n0\r\n\r\n";
    for size in 1..bytes.len() + 1 {
        let mut s = reading("http://a.b/");
        for piece in bytes.chunks(size) {
            s = go(s.step(Happened::Chunk(piece.to_vec()))).0;
        }
        match s.step(Happened::Chunk(vec![])) {
            FetchStep::Done(Ok(json)) => assert_eq!(json, "[1,2]"),
            _ => panic!("no result"),
        }
    }
}

#[test]
fn responses_come_to_results() {
    assert_eq!(
        error(finish_response(b"")),
        "teeify.fetch HTTP decode error: Incomplete HTTP response (no header/body delimiter)"
    );
    assert_eq!(
        error(finish_response(b"x\r\n\r\nplain")),
        "teeify.fetch JSON boundary error: Could not locate JSON boundaries in response body"
    );
    let large = b"Transfer-Encoding: chunked\r\n\r\nffffffffffffffff\r\n";
    assert!(matches!(finish_response(large), FetchStep::Overflow));
}

#[test]
fn what_is_not_awaited_changes_nothing() {
    let (s, _) = go(FetchSession::begin(options("http://a.b/")));
    let (s, c) = go(s.step(Happened::TimedOut));
    assert!(matches!(c, Command::Open));
    assert!(matches!(s.command(), Command::Open));
}

#[test]
fn target_is_a_line() {
    assert_eq!(target_line("[::1]", 1), "[::1]:1\n");
}

fn line(s: &str) -> ProxyHappened {
    ProxyHappened::Line(s.to_string())
}

fn bridge(first: &str) -> ProxyCommand {
    let (s, c) = ProxySession::begin().step(line(first));
    assert!(matches!(c, ProxyCommand::ReadLine));
    let (s, c) = s.step(line("Host: ignored\r\n"));
    assert!(matches!(c, ProxyCommand::ReadLine));
    let (s, c) = s.step(line(""));
    assert!(matches!(c, ProxyCommand::ReadLine));
    s.step(line("\r\n")).1
}

#[test]
fn connect_becomes_a_tunnel() {
    let command = bridge("connect kms.eu-central-1.amazonaws.com:443 HTTP/1.1\r\n");
    assert!(matches!(command, ProxyCommand::Bridge(t) if t == "kms.eu-central-1.amazonaws.com:443\n"));
    let command = bridge("CONNECT kms.example HTTP/1.1\r\n");
    assert!(matches!(command, ProxyCommand::Bridge(t) if t == "kms.example:80\n"));
    assert!(matches!(bridge("CONNECT a:99999 HTTP/1.1\r\n"), ProxyCommand::Close));
}

#[test]
fn anything_but_connect_is_closed() {
    for first in ["", "\r\n", "GET / HTTP/1.1\r\n", "CONNECT\r\n", "CONNECTED a:1\r\n"] {
        let (s, c) = ProxySession::begin().step(line(first));
        assert!(matches!(c, ProxyCommand::Close), "{first:?}");
        assert!(matches!(s.step(line("\n")).1, ProxyCommand::Close));
    }
    assert_eq!(connect_authority(" CONNECT  a:1  "), Some("a:1".to_string()));
    assert_eq!(connect_authority("a:1 CONNECT"), None);
}

#[test]
fn tunnel_is_relayed_with_what_was_read_ahead() {
    let start = || {
        let (s, _) = ProxySession::begin().step(line("CONNECT a:1"));
        s.step(line("\n")).0
    };
    match start().step(ProxyHappened::Bridged(vec![22, 3])).1 {
        ProxyCommand::Relay { reply, forward } => {
            assert_eq!(reply, "HTTP/1.1 200 Connection established\r\n\r\n");
            assert_eq!(forward, Some(vec![22, 3]));
        }
        _ => panic!("no relay"),
    }
    match start().step(ProxyHappened::Bridged(vec![])).1 {
        ProxyCommand::Relay { forward, .. } => assert_eq!(forward, None),
        _ => panic!("no relay"),
    }
    assert!(matches!(start().step(ProxyHappened::NotBridged).1, ProxyCommand::Close));
}

#[test]
fn tunnel_without_port_goes_to_https() {
    let parts = |host: Option<&str>| UrlParts {
        scheme: "x".to_string(),
        host: host.map(|h| h.to_string()),
        port: None,
        path: String::new(),
        query: None,
    };
    assert_eq!(bridge_target(Ok(parts(Some("h")))), Some("h:443\n".to_string()));
    assert_eq!(bridge_target(Ok(parts(None))), None);
    assert_eq!(bridge_target(Err("e".to_string())), None);
}
