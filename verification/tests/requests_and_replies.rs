use serde_json::Value;
use teeify_enclave::json::{find_member, get_filled, get_text, Field, Member, Parsed};
use teeify_enclave::reply::{error_response, key_response, success_response};
use teeify_enclave::request::{
    parse_aws_creds, read_request, request_from, request_or_empty, Request,
};

fn read(json: &str) -> Request {
    read_request(json.as_bytes())
}

fn member(name: &str, text: &str) -> Member {
    Member {
        name: name.to_string(),
        field: Field::Text(text.to_string()),
        value: Value::String(text.to_string()),
    }
}

fn creds(json: &str) -> Result<Option<(String, String, String)>, String> {
    read(json)
        .creds
        .map(|c| c.map(|c| (c.access_key_id, c.secret_access_key, c.token)))
}

#[test]
fn anything_else_is_an_empty_request() {
    for text in ["", "{", "[1]", "\"x\"", "12", "null", "{}", " {\"other\": 1} "] {
        let r = read(text);
        assert_eq!(r.action, "");
        assert_eq!(r.agent_name, "unknown");
        assert_eq!(r.agent_code, "'No code provided';");
        assert!(r.encrypted_code.is_none() && r.encrypted_key.is_none());
        assert!(matches!(r.creds, Ok(None)));
        assert_eq!(r.secrets, Some(vec![]));
        assert_eq!(r.payload.to_string(), "{}");
    }
}

#[test]
fn what_was_parsed_comes_to_a_request() {
    for parsed in [Parsed::Refused, Parsed::Other, Parsed::Object(vec![])] {
        let r = request_or_empty(parsed);
        assert_eq!(r.agent_name, "unknown");
        assert_eq!(r.secrets, Some(vec![]));
        assert_eq!(r.payload.to_string(), "{}");
    }
    let r = request_or_empty(Parsed::Object(vec![member("agent_name", "eve")]));
    assert_eq!(r.agent_name, "eve");
}

#[test]
fn name_that_comes_twice_counts_once() {
    let r = read("{\"secrets\":{\"a\":\"1\",\"a\":\"2\"},\"agent_name\":\"x\",\"agent_name\":\"y\"}");
    assert_eq!(r.secrets, Some(vec![("a".to_string(), Some("2".to_string()))]));
    assert_eq!(r.agent_name, "y");
}

#[test]
fn members_of_a_request_are_read() {
    let r = read(
        "\n{\"action\":\"deploy\",\"agent_name\":\"bob\",\"agent_code\":\" 1+1 \",\
         \"encrypted_code_b64\":\" QQ== \",\"aes_iv_b64\":\"\\tQg==\",\
         \"encrypted_aes_key_b64\":\"Qw==\",\"kms_sealed_aes_key_b64\":\"RA==\",\
         \"encrypted_key_b64\":\"RQ==\\n\",\"request_payload\":{\"b\":[1,2.5,null],\"a\":\"x\"}}\0"
            .trim_end_matches('\0'),
    );
    assert_eq!(r.action, "deploy");
    assert_eq!(r.agent_name, "bob");
    assert_eq!(r.agent_code, " 1+1 ");
    assert_eq!(r.encrypted_code.as_deref(), Some("QQ=="));
    assert_eq!(r.aes_iv.as_deref(), Some("Qg=="));
    assert_eq!(r.encrypted_aes_key.as_deref(), Some("Qw=="));
    assert_eq!(r.sealed_aes_key.as_deref(), Some("RA=="));
    assert_eq!(r.encrypted_key.as_deref(), Some("RQ=="));
    assert_eq!(r.payload.to_string(), "{\"a\":\"x\",\"b\":[1,2.5,null]}");
}

#[test]
fn members_of_another_kind_count_as_missing() {
    let r = read("{\"action\":1,\"agent_code\":\"\",\"encrypted_code_b64\":\"  \",\"aes_iv_b64\":null,\"request_payload\":null}");
    assert_eq!(r.action, "");
    assert_eq!(r.agent_code, "'No code provided';");
    assert!(r.encrypted_code.is_none());
    assert!(r.aes_iv.is_none());
    assert_eq!(r.payload, Value::Null);
}

#[test]
fn bytes_that_are_no_text_are_replaced() {
    let r = read_request(b"{\"agent_name\":\"a\xffb\"}");
    assert_eq!(r.agent_name, "a\u{fffd}b");
}

#[test]
fn secrets_are_read() {
    assert_eq!(read("{\"secrets\":null}").secrets, Some(vec![]));
    assert_eq!(read("{\"secrets\":[]}").secrets, None);
    assert_eq!(read("{\"secrets\":\"x\"}").secrets, None);
    assert_eq!(
        read("{\"secrets\":{\"b\":\"QQ==\",\"a\":1}}").secrets,
        Some(vec![("a".to_string(), None), ("b".to_string(), Some("QQ==".to_string()))])
    );
}

#[test]
fn credentials_are_whole_or_refused() {
    assert_eq!(creds("{}"), Ok(None));
    assert_eq!(creds("{\"aws_creds\":null}"), Ok(None));
    assert_eq!(creds("{\"aws_creds\":{}}"), Ok(None));
    assert_eq!(
        creds("{\"aws_creds\":{\"AccessKeyId\":\" a \",\"SecretAccessKey\":\"s\",\"Token\":\"t\\n\",\"Extra\":1}}"),
        Ok(Some(("a".to_string(), "s".to_string(), "t".to_string())))
    );
    let incomplete = Err("aws_creds: AccessKeyId, SecretAccessKey, and Token are required together".to_string());
    assert_eq!(creds("{\"aws_creds\":{\"AccessKeyId\":\"a\"}}"), incomplete);
    assert_eq!(
        creds("{\"aws_creds\":{\"AccessKeyId\":\"a\",\"SecretAccessKey\":\"s\",\"Token\":\" \"}}"),
        incomplete
    );
    assert_eq!(creds("{\"aws_creds\":{\"x\":1}}"), incomplete);
    assert_eq!(creds("{\"aws_creds\":[]}"), Err("aws_creds must be a JSON object".to_string()));
    assert_eq!(creds("{\"aws_creds\":\"a\"}"), Err("aws_creds must be a JSON object".to_string()));
}

#[test]
fn members_can_be_given() {
    let members = vec![member("agent_name", "eve"), member("agent_code", "2"), member("x", " y ")];
    assert_eq!(find_member(&members, "agent_code"), Some(1));
    assert_eq!(find_member(&members, "none"), None);
    assert_eq!(get_text(&members, "x"), Some(" y ".to_string()));
    assert_eq!(get_filled(&members, "x"), Some("y".to_string()));
    assert!(matches!(parse_aws_creds(&members), Ok(None)));
    let r = request_from(members);
    assert_eq!(r.agent_name, "eve");
    assert_eq!(r.agent_code, "2");
    assert_eq!(r.payload.to_string(), "{}");
}

#[test]
fn payload_is_taken_from_its_member() {
    let mut members = vec![member("a", "1"), member("request_payload", "p"), member("b", "2")];
    members[1].value = Value::Bool(true);
    assert_eq!(request_from(members).payload, Value::Bool(true));
}

#[test]
fn refusal_names_its_reason() {
    assert_eq!(
        error_response("no \"key\""),
        "{\"attestation_b64\":\"\",\"encrypted_key_b64\":\"\",\"execution_output\":\"\",\
         \"message\":\"no \\\"key\\\"\",\"status\":\"error\",\"wallet_address\":null}"
    );
}

#[test]
fn refusal_reads_back() {
    let v: Value = serde_json::from_str(&error_response("l\u{1}\n\u{2028}\u{1f512}")).unwrap();
    assert_eq!(v["message"], "l\u{1}\n\u{2028}\u{1f512}");
    assert_eq!(v["status"], "error");
    assert_eq!(v["wallet_address"], Value::Null);
    assert_eq!(v.as_object().unwrap().len(), 6);
}

#[test]
fn public_key_is_handed_out() {
    assert_eq!(key_response("PEM\n"), "{\"public_key_pem\":\"PEM\\n\",\"status\":\"success\"}");
}

#[test]
fn success_without_anything_sealed() {
    assert_eq!(
        success_response("0xa", "out", "att", "key", &None, vec![]),
        "{\"attestation_b64\":\"att\",\"encrypted_key_b64\":\"key\",\"execution_output\":\"out\",\
         \"status\":\"success\",\"wallet_address\":\"0xa\"}"
    );
}

#[test]
fn success_with_what_was_sealed() {
    let sealed = vec![("b".to_string(), "2".to_string()), ("a".to_string(), "1".to_string())];
    assert_eq!(
        success_response("0xa", "out", "att", "key", &Some("k".to_string()), sealed),
        "{\"attestation_b64\":\"att\",\"encrypted_key_b64\":\"key\",\"execution_output\":\"out\",\
         \"kms_sealed_aes_key_b64\":\"k\",\"kms_sealed_secrets\":{\"a\":\"1\",\"b\":\"2\"},\
         \"status\":\"success\",\"wallet_address\":\"0xa\"}"
    );
}
