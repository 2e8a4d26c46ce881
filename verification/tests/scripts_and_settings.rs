use teeify_enclave::intake::{RequestBuffer, MAX_INCOMING_JSON_BYTES, REQUEST_CHUNK};
use teeify_enclave::script::{
    console_line, engine_failure_text, EngineStep, Round, Settling, MAX_ROUNDS,
};
use teeify_enclave::settings::{
    aws_region, parent_vsock_cid, proxy_address, proxy_port, proxy_start, proxy_url, ProxyStart,
};

fn some(s: &str) -> Option<String> {
    Some(s.to_string())
}

#[test]
fn console_puts_spaces_between() {
    assert_eq!(console_line(&vec![]), "");
    assert_eq!(console_line(&vec!["a".to_string()]), "a");
    assert_eq!(
        console_line(&vec!["a".to_string(), String::new(), "b c".to_string()]),
        "a  b c"
    );
}

#[test]
fn failures_of_the_engine_are_named() {
    let text = |step| engine_failure_text(step, "E");
    assert_eq!(text(EngineStep::Teeify), "teeify init: E");
    assert_eq!(text(EngineStep::Console), "console init: E");
    assert_eq!(text(EngineStep::RequestValue), "TEEIFY_REQUEST: serde_json to JsValue: E");
    assert_eq!(text(EngineStep::RequestProperty), "TEEIFY_REQUEST: register: E");
    assert_eq!(text(EngineStep::SecretsValue), "TEEIFY_SECRETS: serde_json to JsValue: E");
    assert_eq!(text(EngineStep::SecretsProperty), "TEEIFY_SECRETS: register: E");
    assert_eq!(text(EngineStep::Evaluation), "JS Execution Error: E");
}

#[test]
fn value_settles_at_once() {
    assert_eq!(Settling::new().observe(Round::Settled("42".to_string())), some("42"));
    assert_eq!(Settling::new().observe(Round::Rejected("no".to_string())), some("Promise rejected: no"));
    assert_eq!(Settling::new().observe(Round::JobsFailed("e".to_string())), some("run_jobs: e"));
}

#[test]
fn promise_is_unwrapped() {
    let mut s = Settling::new();
    assert_eq!(s.observe(Round::Pending), None);
    assert_eq!(s.observe(Round::Fulfilled), None);
    assert_eq!(s.observe(Round::Fulfilled), None);
    assert_eq!(s.observe(Round::Settled("v".to_string())), some("v"));
}

#[test]
fn promise_can_take_all_rounds() {
    let mut s = Settling::new();
    for _ in 0..MAX_ROUNDS - 1 {
        assert_eq!(s.observe(Round::Fulfilled), None);
    }
    assert_eq!(s.observe(Round::Settled("v".to_string())), some("v"));
}

#[test]
fn promise_that_stays_pending_is_stalled() {
    let mut s = Settling::new();
    for _ in 0..63 {
        assert_eq!(s.observe(Round::Pending), None);
    }
    assert_eq!(
        s.observe(Round::Pending),
        some("Promise { <pending> } (stalled in run_to_completion)")
    );
}

#[test]
fn promise_with_too_many_hops_fails() {
    let mut s = Settling::new();
    for _ in 0..63 {
        assert_eq!(s.observe(Round::Fulfilled), None);
    }
    assert_eq!(s.observe(Round::Fulfilled), some("Error: too many Promise fulfillment hops"));
}

#[test]
fn settings_have_defaults() {
    assert_eq!(parent_vsock_cid(&None), 3);
    assert_eq!(parent_vsock_cid(&some("16")), 16);
    assert_eq!(parent_vsock_cid(&some("4294967295")), 4294967295);
    assert_eq!(parent_vsock_cid(&some("4294967296")), 3);
    assert_eq!(parent_vsock_cid(&some(" 16")), 3);
    assert_eq!(proxy_port(&None), 5107);
    assert_eq!(proxy_port(&some("+80")), 80);
    assert_eq!(proxy_port(&some("65536")), 5107);
    assert_eq!(proxy_address(5107), "127.0.0.1:5107");
    assert_eq!(proxy_url(80), "http://127.0.0.1:80");
}

#[test]
fn proxy_starts_once() {
    let first = proxy_start(None, &some("6000"));
    assert!(first == ProxyStart::Bind(6000));
    let second = proxy_start(Some(first.port()), &some("7000"));
    assert!(second == ProxyStart::Reuse(6000));
    assert!(proxy_start(Some(second.port()), &None) == ProxyStart::Reuse(6000));
    assert!(proxy_start(None, &some("no port")) == ProxyStart::Bind(5107));
    assert!(proxy_start(None, &None) == ProxyStart::Bind(5107));
}

#[test]
fn region_is_looked_for_in_order() {
    assert_eq!(aws_region(some("a"), some("b")), "a");
    assert_eq!(aws_region(None, some("b")), "b");
    assert_eq!(aws_region(None, None), "eu-central-1");
}

#[test]
fn request_is_read_up_to_the_limit() {
    let mut b = RequestBuffer::new();
    assert_eq!(b.room(), REQUEST_CHUNK);
    b.push(b"{}");
    while b.room() > 0 {
        let n = b.room();
        assert!(n <= REQUEST_CHUNK);
        b.push(&vec![b' '; n]);
    }
    let bytes = b.finish();
    assert_eq!(bytes.len(), MAX_INCOMING_JSON_BYTES);
    assert_eq!(&bytes[..3], b"{} ");
    assert_eq!(MAX_INCOMING_JSON_BYTES, 2 * 1024 * 1024);
}

#[test]
fn short_request_is_read_whole() {
    let mut b = RequestBuffer::new();
    for piece in [&b"{\"a\""[..], b":", b"1}"] {
        b.push(piece);
    }
    assert_eq!(b.finish(), b"{\"a\":1}");
}
