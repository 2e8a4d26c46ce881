use aes_gcm::aead::Aead;
use aes_gcm::{Aes256Gcm, KeyInit, Nonce};
use base64::engine::general_purpose::STANDARD;
use base64::Engine;
use rand_core::OsRng;
use rsa::pkcs8::{DecodePublicKey, EncodePrivateKey};
use rsa::{Oaep, RsaPrivateKey, RsaPublicKey};
use serde_json::Value;
use sha2::Sha256;
use sha3::{Digest, Keccak256};
use teeify_enclave::keys::EnclaveKey;
use teeify_enclave::request::read_request;
use teeify_enclave::session::{
    decode_kms_ciphertext, kms_decrypt_plaintext, kms_encrypt_plaintext, open_code,
    unwrap_secret_value, Action, Event, KmsReply, ReplyKind, SecretOutcome, Session,
};
use teeify_enclave::wallet::{get_eth_address, WalletKey};

const AES_KEY: [u8; 32] = [5; 32];
const NONCE: [u8; 12] = [6; 12];

fn enclave_key() -> EnclaveKey {
    let key = RsaPrivateKey::new(&mut OsRng, 1024).unwrap();
    EnclaveKey::from_pkcs8(key.to_pkcs8_der().unwrap().as_bytes().to_vec()).unwrap()
}

fn wrap(key: &EnclaveKey, plain: &[u8]) -> String {
    let public = RsaPublicKey::from_public_key_pem(&key.rsa_public_key_pem()).unwrap();
    STANDARD.encode(public.encrypt(&mut OsRng, Oaep::new::<Sha256>(), plain).unwrap())
}

fn seal_code(code: &str) -> String {
    let cipher = Aes256Gcm::new_from_slice(&AES_KEY).unwrap();
    STANDARD.encode(cipher.encrypt(Nonce::from_slice(&NONCE), code.as_bytes()).unwrap())
}

fn object(members: &[(&str, Value)]) -> Value {
    members.iter().map(|(k, v)| (k.to_string(), v.clone())).collect()
}

fn text(s: &str) -> Value {
    Value::String(s.to_string())
}

fn wallet_bytes() -> Vec<u8> {
    let mut bytes = vec![0u8; 32];
    bytes[31] = 1;
    bytes
}

fn wallet() -> WalletKey {
    WalletKey::from_slice(&wallet_bytes()).unwrap_or_else(|e| panic!("{e}"))
}

/// A key service that "encrypts" by putting the key's id in front.
struct World {
    key_id: Option<String>,
    broken: Option<KmsBroken>,
    ran: Vec<(String, Vec<(String, String)>, String)>,
    attested: Vec<(Vec<u8>, Vec<u8>)>,
    document: Option<Vec<u8>>,
    connected: Vec<Option<String>>,
}

#[derive(Clone, Copy)]
enum KmsBroken {
    Failing,
    Silent,
}

fn world() -> World {
    World {
        key_id: Some("id/".to_string()),
        broken: None,
        ran: vec![],
        attested: vec![],
        document: Some(b"doc".to_vec()),
        connected: vec![],
    }
}

impl World {
    fn kms(&self, data: Vec<u8>) -> Event {
        Event::Kms(match self.broken {
            Some(KmsBroken::Failing) => KmsReply::Failed("down".to_string()),
            Some(KmsBroken::Silent) => KmsReply::Missing,
            None => KmsReply::Data(data),
        })
    }

    fn answer(&mut self, action: Action) -> Result<Event, (String, ReplyKind)> {
        Ok(match action {
            Action::Connect(creds) => {
                self.connected.push(creds.map(|c| c.token));
                Event::Connected
            }
            Action::Decrypt(data) => {
                let plain = data.strip_prefix(b"id/").map(|d| d.to_vec());
                match plain {
                    Some(p) => self.kms(p),
                    None => Event::Kms(KmsReply::Failed("not mine".to_string())),
                }
            }
            Action::Encrypt { key_id, plaintext } => {
                let mut data = key_id.into_bytes();
                data.extend_from_slice(&plaintext);
                self.kms(data)
            }
            Action::ReadKeyId => Event::KeyId(self.key_id.clone()),
            Action::Draw => Event::Drawn(wallet()),
            Action::Run { code, secrets, wallet, payload } => {
                assert_eq!(wallet.to_bytes(), wallet_bytes());
                self.ran.push((code, secrets, payload.to_string()));
                Event::Ran("output".to_string())
            }
            Action::Attest { public_key, user_data } => {
                self.attested.push((public_key, user_data));
                Event::Attested(self.document.clone())
            }
            Action::Reply { text, kind } => return Err((text, kind)),
            Action::Nothing => panic!("nothing to do"),
        })
    }
}

fn serve(world: &mut World, key: &EnclaveKey, request: &Value) -> (Value, ReplyKind) {
    let (mut session, mut action) = Session::begin(read_request(request.to_string().as_bytes()), key);
    for _ in 0..100 {
        match world.answer(action) {
            Ok(event) => {
                let (s, a) = session.step(key, event);
                session = s;
                action = a;
            }
            Err((reply, kind)) => {
                let (_, after) = session.step(key, Event::Connected);
                assert!(matches!(after, Action::Nothing));
                return (serde_json::from_str(&reply).unwrap(), kind);
            }
        }
    }
    panic!("no reply");
}

fn refusal(world: &mut World, key: &EnclaveKey, request: &Value) -> String {
    let (reply, kind) = serve(world, key, request);
    assert!(kind == ReplyKind::Refusal || kind == ReplyKind::WalletRefusal);
    assert_eq!(reply["status"], "error");
    assert_eq!(reply["wallet_address"], Value::Null);
    assert_eq!(reply["execution_output"], "");
    assert_eq!(reply["attestation_b64"], "");
    assert_eq!(reply["encrypted_key_b64"], "");
    assert!(world.ran.is_empty());
    reply["message"].as_str().unwrap().to_string()
}

fn sealed_wallet() -> String {
    let mut data = b"id/".to_vec();
    data.extend_from_slice(&wallet_bytes());
    STANDARD.encode(data)
}

#[test]
fn public_key_is_served_at_once() {
    let key = enclave_key();
    let (reply, kind) = serve(&mut world(), &key, &object(&[("action", text("get_key"))]));
    assert!(kind == ReplyKind::PublicKey);
    assert_eq!(reply["status"], "success");
    assert_eq!(reply["public_key_pem"], key.rsa_public_key_pem());
}

#[test]
fn plain_code_runs_with_a_new_wallet() {
    let key = enclave_key();
    let mut w = world();
    let request = object(&[("agent_code", text("1+1")), ("request_payload", text("p"))]);
    let (reply, kind) = serve(&mut w, &key, &request);
    assert!(kind == ReplyKind::Success);
    assert_eq!(w.ran, [("1+1".to_string(), vec![], "\"p\"".to_string())]);
    assert_eq!(w.connected, [None]);
    assert_eq!(reply["status"], "success");
    assert_eq!(reply["execution_output"], "output");
    assert_eq!(reply["attestation_b64"], STANDARD.encode(b"doc"));
    assert_eq!(reply["encrypted_key_b64"], sealed_wallet());
    assert_eq!(reply["wallet_address"], get_eth_address(&wallet().verifying_key()));
    assert_eq!(reply.as_object().unwrap().len(), 5);
    assert_eq!(w.attested.len(), 1);
    assert_eq!(w.attested[0].0, wallet().verifying_key().to_encoded_point());
    assert_eq!(w.attested[0].1, Keccak256::digest(b"1+1").to_vec());
}

#[test]
fn wallet_of_the_request_is_kept() {
    let key = enclave_key();
    let mut w = world();
    w.key_id = None;
    w.document = None;
    let request = object(&[("encrypted_key_b64", text(&format!(" {} ", sealed_wallet())))]);
    let (reply, kind) = serve(&mut w, &key, &request);
    assert!(kind == ReplyKind::Success);
    assert_eq!(reply["encrypted_key_b64"], sealed_wallet());
    assert_eq!(reply["attestation_b64"], "mock_attestation_for_local_dev");
    assert_eq!(w.ran[0].0, "'No code provided';");
    assert_eq!(w.ran[0].2, "{}");
}

#[test]
fn wrapped_code_is_deployed_and_its_key_sealed() {
    let key = enclave_key();
    let mut w = world();
    let request = object(&[
        ("encrypted_code_b64", text(&seal_code("code()"))),
        ("aes_iv_b64", text(&STANDARD.encode(NONCE))),
        ("encrypted_aes_key_b64", text(&wrap(&key, &AES_KEY))),
        ("agent_code", text("ignored")),
    ]);
    let (reply, kind) = serve(&mut w, &key, &request);
    assert!(kind == ReplyKind::Success);
    assert_eq!(w.ran[0].0, "code()");
    assert_eq!(w.attested[0].1, Keccak256::digest(b"code()").to_vec());
    let mut sealed = b"id/".to_vec();
    sealed.extend_from_slice(&AES_KEY);
    assert_eq!(reply["kms_sealed_aes_key_b64"], STANDARD.encode(&sealed));

    let mut w = world();
    let request = object(&[
        ("encrypted_code_b64", text(&seal_code("code()"))),
        ("aes_iv_b64", text(&STANDARD.encode(NONCE))),
        ("kms_sealed_aes_key_b64", reply["kms_sealed_aes_key_b64"].clone()),
    ]);
    let (reply, _) = serve(&mut w, &key, &request);
    assert_eq!(w.ran[0].0, "code()");
    assert!(reply.get("kms_sealed_aes_key_b64").is_none());
}

#[test]
fn secrets_are_opened_in_order_and_sealed_where_wrapped() {
    let key = enclave_key();
    let mut w = world();
    let request = object(&[(
        "secrets",
        object(&[
            ("a", text(&wrap(&key, b"alpha"))),
            ("b", text(&STANDARD.encode(b"id/beta"))),
            ("c", text(&wrap(&key, "\u{3b3}".as_bytes()))),
        ]),
    )]);
    let (reply, _) = serve(&mut w, &key, &request);
    let expected: Vec<(String, String)> = [("a", "alpha"), ("b", "beta"), ("c", "\u{3b3}")]
        .iter()
        .map(|(k, v)| (k.to_string(), v.to_string()))
        .collect();
    assert_eq!(w.ran[0].1, expected);
    assert_eq!(
        reply["kms_sealed_secrets"],
        object(&[
            ("a", text(&STANDARD.encode(b"id/alpha"))),
            ("c", text(&STANDARD.encode("id/\u{3b3}".as_bytes()))),
        ])
    );
}

#[test]
fn sealed_secrets_and_wallet_work_again() {
    let key = enclave_key();
    let secrets = object(&[("a", text(&wrap(&key, b"alpha")))]);
    let (first, _) = serve(&mut world(), &key, &object(&[("secrets", secrets)]));
    let mut w = world();
    w.key_id = None;
    let request = object(&[
        ("secrets", first["kms_sealed_secrets"].clone()),
        ("encrypted_key_b64", first["encrypted_key_b64"].clone()),
    ]);
    let (second, kind) = serve(&mut w, &key, &request);
    assert!(kind == ReplyKind::Success);
    assert_eq!(w.ran[0].1, [("a".to_string(), "alpha".to_string())]);
    assert_eq!(second["wallet_address"], first["wallet_address"]);
    assert_eq!(second["encrypted_key_b64"], first["encrypted_key_b64"]);
    assert!(second.get("kms_sealed_secrets").is_none());
}

#[test]
fn credentials_of_the_request_are_used() {
    let key = enclave_key();
    let mut w = world();
    let creds = object(&[
        ("AccessKeyId", text("a")),
        ("SecretAccessKey", text("s")),
        ("Token", text("t")),
    ]);
    serve(&mut w, &key, &object(&[("aws_creds", creds)]));
    assert_eq!(w.connected, [Some("t".to_string())]);
    let message = refusal(&mut world(), &key, &object(&[("aws_creds", text("x"))]));
    assert_eq!(message, "aws_creds must be a JSON object");
}

#[test]
fn encrypted_code_needs_a_nonce_and_one_key() {
    let key = enclave_key();
    let ec = ("encrypted_code_b64", text("AAAA"));
    let iv = ("aes_iv_b64", text(&STANDARD.encode(NONCE)));
    let rsa = ("encrypted_aes_key_b64", text("AAAA"));
    let kms = ("kms_sealed_aes_key_b64", text("AAAA"));
    assert_eq!(
        refusal(&mut world(), &key, &object(&[ec.clone(), rsa.clone()])),
        "E2EE: when encrypted_code_b64 is set, aes_iv_b64 is required"
    );
    assert_eq!(
        refusal(&mut world(), &key, &object(&[ec.clone(), iv.clone(), rsa.clone(), kms.clone()])),
        "E2EE: encrypted_aes_key_b64 and kms_sealed_aes_key_b64 are mutually exclusive"
    );
    assert_eq!(
        refusal(&mut world(), &key, &object(&[ec.clone(), iv.clone()])),
        "E2EE: when encrypted_code_b64 is set, provide encrypted_aes_key_b64 (deploy) or kms_sealed_aes_key_b64 (execute)"
    );
    assert_eq!(
        refusal(&mut world(), &key, &object(&[ec.clone(), iv.clone(), rsa])),
        "encrypted_aes_key_b64: RSA OAEP/SHA-256 decrypt: decryption error"
    );
    assert_eq!(
        refusal(&mut world(), &key, &object(&[ec.clone(), iv.clone(), kms])),
        "KMS decrypt (AES envelope): not mine"
    );
    let bad = ("kms_sealed_aes_key_b64", text("?"));
    assert!(refusal(&mut world(), &key, &object(&[ec, iv, bad])).starts_with("kms ciphertext base64: "));
}

#[test]
fn faults_of_the_code_key_are_named() {
    let key = enclave_key();
    let iv = ("aes_iv_b64", text(&STANDARD.encode(NONCE)));
    let ec = ("encrypted_code_b64", text(&seal_code("x")));
    let short = ("kms_sealed_aes_key_b64", text(&STANDARD.encode(b"id/short")));
    assert_eq!(
        refusal(&mut world(), &key, &object(&[ec.clone(), iv.clone(), short.clone()])),
        "KMS plaintext: expected 32-byte AES key, got 5 bytes"
    );
    let mut w = world();
    w.broken = Some(KmsBroken::Silent);
    assert_eq!(refusal(&mut w, &key, &object(&[ec.clone(), iv.clone(), short])), "KMS decrypt: missing plaintext");
    let empty = ("encrypted_code_b64", text(&seal_code("")));
    let rsa = ("encrypted_aes_key_b64", text(&wrap(&key, &AES_KEY)));
    assert_eq!(
        refusal(&mut world(), &key, &object(&[empty.clone(), iv.clone(), rsa.clone()])),
        "E2EE: decrypted agent code is empty"
    );
    let mut sealed = b"id/".to_vec();
    sealed.extend_from_slice(&AES_KEY);
    let kms = ("kms_sealed_aes_key_b64", text(&STANDARD.encode(&sealed)));
    assert_eq!(
        refusal(&mut world(), &key, &object(&[empty, iv.clone(), kms])),
        "E2EE: decrypted agent code is empty"
    );
    let mut w = world();
    w.key_id = None;
    assert_eq!(
        refusal(&mut w, &key, &object(&[ec.clone(), iv.clone(), rsa.clone()])),
        "TEEIFY_KMS_KEY_ID must be set to seal the code AES key for durable execute"
    );
    let mut w = world();
    w.broken = Some(KmsBroken::Failing);
    assert_eq!(
        refusal(&mut w, &key, &object(&[ec.clone(), iv.clone(), rsa.clone()])),
        "KMS encrypt (AES envelope): down"
    );
    let mut w = world();
    w.broken = Some(KmsBroken::Silent);
    assert_eq!(refusal(&mut w, &key, &object(&[ec, iv, rsa])), "KMS encrypt: missing ciphertext_blob");
}

#[test]
fn faults_of_secrets_are_named() {
    let key = enclave_key();
    let with = |name: &str, value: Value| object(&[("secrets", object(&[(name, value)]))]);
    assert_eq!(
        refusal(&mut world(), &key, &object(&[("secrets", text("x"))])),
        "secrets must be a JSON object (string keys \u{2192} base64 ciphertext values)"
    );
    assert_eq!(
        refusal(&mut world(), &key, &with("n", text("  "))),
        "secrets[n]: expected non-empty base64 string"
    );
    assert_eq!(
        refusal(&mut world(), &key, &with("n", Value::Bool(true))),
        "secrets[n]: expected non-empty base64 string"
    );
    assert_eq!(
        refusal(&mut world(), &key, &with("n", text(&wrap(&key, b"\xff")))),
        "secrets[n]: RSA plaintext is not UTF-8: invalid utf-8 sequence of 1 bytes from index 0"
    );
    assert_eq!(
        refusal(&mut world(), &key, &with("n", text(&STANDARD.encode(b"id/\xff")))),
        "secrets[n]: KMS plaintext is not UTF-8: invalid utf-8 sequence of 1 bytes from index 0"
    );
    assert_eq!(
        refusal(&mut world(), &key, &with("n", text("AAAA"))),
        "secrets[n]: decrypt failed (RSA: RSA OAEP/SHA-256 decrypt: decryption error; KMS: KMS decrypt (AES envelope): not mine)"
    );
    let message = refusal(&mut world(), &key, &with("n", text("?")));
    assert!(message.starts_with("secrets[n]: decrypt failed (RSA: RSA ciphertext base64: "), "{message}");
    assert!(message.contains("; KMS: kms ciphertext base64: "), "{message}");
    let mut w = world();
    w.key_id = None;
    assert_eq!(
        refusal(&mut w, &key, &with("n", text(&wrap(&key, b"s")))),
        "TEEIFY_KMS_KEY_ID must be set to seal secrets after RSA unwrap"
    );
    let mut w = world();
    w.broken = Some(KmsBroken::Failing);
    assert_eq!(refusal(&mut w, &key, &with("n", text(&wrap(&key, b"s")))), "KMS encrypt (AES envelope): down");
}

#[test]
fn faults_of_the_wallet_are_named() {
    let key = enclave_key();
    let with = |b64: &str| object(&[("encrypted_key_b64", text(b64))]);
    let kind = |w: &mut World, r: &Value| serve(w, &key, r).1;
    assert!(refusal(&mut world(), &key, &with("?")).starts_with("encrypted_key_b64: base64 decode: "));
    assert!(kind(&mut world(), &with("?")) == ReplyKind::WalletRefusal);
    assert_eq!(refusal(&mut world(), &key, &with("AAAA")), "KMS decrypt: not mine");
    assert_eq!(
        refusal(&mut world(), &key, &with(&STANDARD.encode(b"id/short"))),
        "invalid decrypted key: signature error"
    );
    let mut w = world();
    w.broken = Some(KmsBroken::Silent);
    assert_eq!(refusal(&mut w, &key, &with(&sealed_wallet())), "KMS decrypt: missing plaintext");
    let mut w = world();
    w.broken = Some(KmsBroken::Silent);
    assert_eq!(refusal(&mut w, &key, &object(&[])), "KMS encrypt: missing ciphertext_blob");
    let mut w = world();
    w.broken = Some(KmsBroken::Failing);
    assert_eq!(refusal(&mut w, &key, &object(&[])), "KMS encrypt: down");
    let mut w = world();
    w.key_id = None;
    assert_eq!(
        refusal(&mut w, &key, &object(&[])),
        "TEEIFY_KMS_KEY_ID must be set to create a new persisted wallet"
    );
    assert!(kind(&mut w, &object(&[])) == ReplyKind::WalletRefusal);
}

#[test]
fn events_out_of_turn_change_nothing() {
    let key = enclave_key();
    let (session, action) = Session::begin(read_request(b"{}"), &key);
    assert!(matches!(action, Action::Connect(None)));
    let (session, action) = session.step(&key, Event::Ran("early".to_string()));
    assert!(matches!(action, Action::Nothing));
    let (session, action) = session.step(&key, Event::Connected);
    assert!(matches!(action, Action::ReadKeyId));
    let (_, action) = session.step(&key, Event::Connected);
    assert!(matches!(action, Action::Nothing));
}

#[test]
fn answers_of_the_key_service_are_read() {
    assert_eq!(decode_kms_ciphertext(" Zm9v "), Ok(b"foo".to_vec()));
    assert_eq!(kms_decrypt_plaintext(KmsReply::Data(vec![1])), Ok(vec![1]));
    assert_eq!(kms_encrypt_plaintext(KmsReply::Data(b"foo".to_vec())), Ok("Zm9v".to_string()));
    assert_eq!(
        open_code(&AES_KEY, &STANDARD.encode(NONCE), &seal_code("c")),
        Ok("c".to_string())
    );
}

#[test]
fn secret_is_opened_refused_or_forwarded() {
    match unwrap_secret_value("n", "Zm9v", Ok(b"plain".to_vec())) {
        SecretOutcome::Opened(s) => assert_eq!(s, "plain"),
        _ => panic!("not opened"),
    }
    match unwrap_secret_value("n", "Zm9v", Err("r".to_string())) {
        SecretOutcome::Forwarded { rsa, data } => {
            assert_eq!(rsa, "r");
            assert_eq!(data, b"foo");
        }
        _ => panic!("not forwarded"),
    }
    match unwrap_secret_value("n", "?", Err("r".to_string())) {
        SecretOutcome::Refused(m) => {
            assert!(m.starts_with("secrets[n]: decrypt failed (RSA: r; KMS: kms ciphertext base64: "));
            assert!(m.ends_with(')'));
        }
        _ => panic!("not refused"),
    }
}
