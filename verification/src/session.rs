//! One client's request, from its first byte to the reply: what is decrypted and
//! sealed in which order, what is run, and what goes back. The key service, the
//! script engine and the attestation device are asked through actions, and answer
//! through events.

use vstd::prelude::*;
use vstd::string::StringExecFns;
use vstd::utf8::*;

use crate::encoding;
use crate::json;
use crate::keys;
use crate::keys::EnclaveKey;
use crate::reply;
use crate::request;
use crate::request::{AwsCredsPayload, Request};
use crate::text;
use crate::wallet;
use crate::wallet::WalletKey;

verus! {

/// What the key service answered, as plain values.
pub ghost enum KmsView {
    Failed(Seq<char>),
    Missing,
    Data(Seq<u8>),
}

/// What the key service answered: an error, nothing, or bytes.
pub enum KmsReply {
    Failed(String),
    Missing,
    Data(Vec<u8>),
}

impl View for KmsReply {
    type V = KmsView;

    open spec fn view(&self) -> KmsView {
        match self {
            KmsReply::Failed(e) => KmsView::Failed(e@),
            KmsReply::Missing => KmsView::Missing,
            KmsReply::Data(d) => KmsView::Data(d@),
        }
    }
}

/// What happened outside, as plain values.
pub ghost enum EventView {
    Connected,
    Kms(KmsView),
    KeyId(Option<Seq<char>>),
    Drawn(Seq<u8>),
    Ran(Seq<char>),
    Attested(Option<Seq<u8>>),
}

/// What happened outside: the key service is connected, or has answered; the id
/// of its key was looked up; a wallet key was drawn; the agent code has run; the
/// attestation device has answered.
pub enum Event {
    Connected,
    Kms(KmsReply),
    KeyId(Option<String>),
    Drawn(WalletKey),
    Ran(String),
    Attested(Option<Vec<u8>>),
}

impl View for Event {
    type V = EventView;

    open spec fn view(&self) -> EventView {
        match self {
            Event::Connected => EventView::Connected,
            Event::Kms(r) => EventView::Kms(r@),
            Event::KeyId(id) => EventView::KeyId(text::optional_text(*id)),
            Event::Drawn(key) => EventView::Drawn(key@),
            Event::Ran(output) => EventView::Ran(output@),
            Event::Attested(doc) => EventView::Attested(text::optional_bytes(*doc)),
        }
    }
}

/// What a reply is: the public key, a refusal, a refusal for want of a wallet, or
/// what came of the request.
#[derive(Clone, Copy, PartialEq, Eq, Structural)]
pub enum ReplyKind {
    PublicKey,
    Refusal,
    WalletRefusal,
    Success,
}

/// What is to be done outside, as plain values.
pub ghost enum ActionView {
    Connect(Option<request::CredsView>),
    Decrypt(Seq<u8>),
    Encrypt { key_id: Seq<char>, plaintext: Seq<u8> },
    ReadKeyId,
    Draw,
    Run {
        code: Seq<char>,
        secrets: Seq<(Seq<char>, Seq<char>)>,
        wallet: Seq<u8>,
        payload: Seq<char>,
    },
    Attest { public_key: Seq<u8>, user_data: Seq<u8> },
    Reply { text: Seq<char>, kind: ReplyKind },
    Nothing,
}

/// What is to be done outside: connect the key service, with the given
/// credentials or else those of the environment; have it decrypt or encrypt; look
/// up the id of its key; draw a wallet key; run agent code; ask for an
/// attestation; send the reply, which is the last thing to do.
pub enum Action {
    Connect(Option<AwsCredsPayload>),
    Decrypt(Vec<u8>),
    Encrypt { key_id: String, plaintext: Vec<u8> },
    ReadKeyId,
    Draw,
    Run {
        code: String,
        secrets: Vec<(String, String)>,
        wallet: WalletKey,
        payload: serde_json::Value,
    },
    Attest { public_key: Vec<u8>, user_data: Vec<u8> },
    Reply { text: String, kind: ReplyKind },
    Nothing,
}

impl View for Action {
    type V = ActionView;

    open spec fn view(&self) -> ActionView {
        match self {
            Action::Connect(creds) => ActionView::Connect(request::optional_creds(*creds)),
            Action::Decrypt(data) => ActionView::Decrypt(data@),
            Action::Encrypt { key_id, plaintext } => ActionView::Encrypt {
                key_id: key_id@,
                plaintext: plaintext@,
            },
            Action::ReadKeyId => ActionView::ReadKeyId,
            Action::Draw => ActionView::Draw,
            Action::Run { code, secrets, wallet, payload } => ActionView::Run {
                code: code@,
                secrets: text::pairs(secrets@),
                wallet: wallet@,
                payload: json::value_text(*payload),
            },
            Action::Attest { public_key, user_data } => ActionView::Attest {
                public_key: public_key@,
                user_data: user_data@,
            },
            Action::Reply { text, kind } => ActionView::Reply { text: text@, kind: *kind },
            Action::Nothing => ActionView::Nothing,
        }
    }
}

/// How far a request has come, as plain values.
pub ghost enum StageView {
    Connecting,
    CodeKey,
    CodeKeyId(Seq<u8>),
    SealCodeKey,
    SecretOpening(Seq<char>),
    SecretKeyId,
    SealSecret,
    WalletOpening,
    WalletKeyId,
    WalletDraw(Seq<char>),
    SealWallet,
    Running,
    Attesting,
    Done,
}

/// How far a request has come, that is, what it waits for: the key service; the
/// AES key of the code; the id under which to seal that key, and the sealed key; a
/// secret that the enclave's key did not open, and why it did not; the id under
/// which to seal a secret, and the sealed secret; the wallet; the id under which to
/// seal a new one, the new one, and the sealed one; the output of the code; the
/// attestation; nothing any more.
enum Stage {
    Connecting,
    CodeKey,
    CodeKeyId([u8; 32]),
    SealCodeKey,
    SecretOpening(String),
    SecretKeyId,
    SealSecret,
    WalletOpening,
    WalletKeyId,
    WalletDraw(String),
    SealWallet,
    Running,
    Attesting,
    Done,
}

impl View for Stage {
    type V = StageView;

    closed spec fn view(&self) -> StageView {
        match self {
            Stage::Connecting => StageView::Connecting,
            Stage::CodeKey => StageView::CodeKey,
            Stage::CodeKeyId(raw) => StageView::CodeKeyId(raw@),
            Stage::SealCodeKey => StageView::SealCodeKey,
            Stage::SecretOpening(e) => StageView::SecretOpening(e@),
            Stage::SecretKeyId => StageView::SecretKeyId,
            Stage::SealSecret => StageView::SealSecret,
            Stage::WalletOpening => StageView::WalletOpening,
            Stage::WalletKeyId => StageView::WalletKeyId,
            Stage::WalletDraw(id) => StageView::WalletDraw(id@),
            Stage::SealWallet => StageView::SealWallet,
            Stage::Running => StageView::Running,
            Stage::Attesting => StageView::Attesting,
            Stage::Done => StageView::Done,
        }
    }
}

/// A request under way, as plain values: the request, what it waits for, the code
/// to run, its sealed key, the secrets opened so far and those sealed, the wallet
/// and its sealed form, and the output of the code.
pub ghost struct SessionView {
    pub request: request::RequestView,
    pub stage: StageView,
    pub code: Seq<char>,
    pub sealed_key: Option<Seq<char>>,
    pub secrets: Seq<(Seq<char>, Seq<char>)>,
    pub sealed_secrets: Seq<(Seq<char>, Seq<char>)>,
    pub wallet: Option<Seq<u8>>,
    pub encrypted_key: Seq<char>,
    pub output: Seq<char>,
}

/// A request under way.
pub struct Session {
    request: Request,
    stage: Stage,
    code: String,
    sealed_key: Option<String>,
    secrets: Vec<(String, String)>,
    sealed_secrets: Vec<(String, String)>,
    wallet: Option<WalletKey>,
    encrypted_key: String,
    output: String,
}

spec fn optional_wallet(w: Option<WalletKey>) -> Option<Seq<u8>> {
    match w {
        Some(key) => Some(key@),
        None => None,
    }
}

impl View for Session {
    type V = SessionView;

    closed spec fn view(&self) -> SessionView {
        SessionView {
            request: self.request@,
            stage: self.stage@,
            code: self.code@,
            sealed_key: text::optional_text(self.sealed_key),
            secrets: text::pairs(self.secrets@),
            sealed_secrets: text::pairs(self.sealed_secrets@),
            wallet: optional_wallet(self.wallet),
            encrypted_key: self.encrypted_key@,
            output: self.output@,
        }
    }
}

/// A session and what it wants done.
pub type Turn = (SessionView, ActionView);

/// The request ends with a refusal.
pub open spec fn refused(s: SessionView, message: Seq<char>) -> Turn {
    (
        SessionView { stage: StageView::Done, ..s },
        ActionView::Reply {
            text: json::json_text(reply::error_members(message)),
            kind: ReplyKind::Refusal,
        },
    )
}

/// The request ends with a refusal for want of a wallet.
pub open spec fn wallet_refused(s: SessionView, message: Seq<char>) -> Turn {
    (
        SessionView { stage: StageView::Done, ..s },
        ActionView::Reply {
            text: json::json_text(reply::error_members(message)),
            kind: ReplyKind::WalletRefusal,
        },
    )
}

/// The bytes for the key service in a Base64 text.
pub open spec fn kms_ciphertext(b64: Seq<char>) -> Result<Seq<u8>, Seq<char>> {
    match encoding::base64_result(text::trimmed(b64)) {
        Ok(bytes) => Ok(bytes),
        Err(e) => Err("kms ciphertext base64: "@ + e),
    }
}

/// What the key service decrypted.
pub open spec fn kms_plaintext(r: KmsView) -> Result<Seq<u8>, Seq<char>> {
    match r {
        KmsView::Failed(e) => Err("KMS decrypt (AES envelope): "@ + e),
        KmsView::Missing => Err("KMS decrypt: missing plaintext"@),
        KmsView::Data(plain) => Ok(plain),
    }
}

/// What the key service encrypted, in Base64.
pub open spec fn kms_sealed(r: KmsView) -> Result<Seq<char>, Seq<char>> {
    match r {
        KmsView::Failed(e) => Err("KMS encrypt (AES envelope): "@ + e),
        KmsView::Missing => Err("KMS encrypt: missing ciphertext_blob"@),
        KmsView::Data(sealed) => Ok(encoding::base64_text(sealed)),
    }
}

/// A reply can be read by whoever knows JSON.
pub open spec fn is_readable(a: ActionView) -> bool {
    a matches ActionView::Reply { text, .. } ==> json::is_readable(text)
}

/// A request begins: one for the public key is answered at once; any other
/// connects the key service, unless its credentials are refused.
pub open spec fn begun(request: request::RequestView, pkcs8: Seq<u8>) -> Turn {
    let s = SessionView {
        request,
        stage: StageView::Connecting,
        code: seq![],
        sealed_key: None,
        secrets: seq![],
        sealed_secrets: seq![],
        wallet: None,
        encrypted_key: seq![],
        output: seq![],
    };
    if request.action == "get_key"@ {
        (
            SessionView { stage: StageView::Done, ..s },
            ActionView::Reply {
                text: json::json_text(reply::key_members(keys::public_pem(pkcs8)->0)),
                kind: ReplyKind::PublicKey,
            },
        )
    } else {
        match request.creds {
            Err(e) => refused(s, e),
            Ok(creds) => (s, ActionView::Connect(creds)),
        }
    }
}

/// Once the key service is connected, the agent code is looked for: it comes as
/// it is, or encrypted with an AES key that comes wrapped for the enclave or
/// sealed by the key service, but not both.
pub open spec fn connected(s: SessionView, pkcs8: Seq<u8>) -> Turn {
    match s.request.encrypted_code {
        None => code_ready(SessionView { code: s.request.agent_code, ..s }, pkcs8),
        Some(code_b64) => match s.request.aes_iv {
            None => refused(s, "E2EE: when encrypted_code_b64 is set, aes_iv_b64 is required"@),
            Some(iv) => match (s.request.encrypted_aes_key, s.request.sealed_aes_key) {
                (Some(_), Some(_)) => refused(
                    s,
                    "E2EE: encrypted_aes_key_b64 and kms_sealed_aes_key_b64 are mutually exclusive"@,
                ),
                (None, None) => refused(
                    s,
                    "E2EE: when encrypted_code_b64 is set, provide encrypted_aes_key_b64 (deploy) or kms_sealed_aes_key_b64 (execute)"@,
                ),
                (Some(wrapped), None) => match keys::aes_key_result(
                    keys::oaep_b64_result(pkcs8, wrapped),
                ) {
                    Err(e) => refused(s, e),
                    Ok(raw) => match opened_code(raw, iv, code_b64) {
                        Err(e) => refused(s, e),
                        Ok(code) => (
                            SessionView { stage: StageView::CodeKeyId(raw), code, ..s },
                            ActionView::ReadKeyId,
                        ),
                    },
                },
                (None, Some(sealed)) => match kms_ciphertext(sealed) {
                    Err(e) => refused(s, e),
                    Ok(data) => (
                        SessionView { stage: StageView::CodeKey, ..s },
                        ActionView::Decrypt(data),
                    ),
                },
            },
        },
    }
}

/// The agent code that an AES key opens: it must not be empty.
pub open spec fn opened_code(raw: Seq<u8>, iv: Seq<char>, code_b64: Seq<char>) -> Result<
    Seq<char>,
    Seq<char>,
> {
    match keys::agent_code_result(raw, iv, code_b64) {
        Err(e) => Err(e),
        Ok(code) => if code.len() > 0 {
            Ok(code)
        } else {
            Err("E2EE: decrypted agent code is empty"@)
        },
    }
}

/// The key service has answered for the AES key of the code.
pub open spec fn code_key_answered(s: SessionView, pkcs8: Seq<u8>, r: KmsView) -> Turn {
    match (s.request.encrypted_code, s.request.aes_iv) {
        (Some(code_b64), Some(iv)) => match kms_plaintext(r) {
            Err(e) => refused(s, e),
            Ok(raw) => if raw.len() != 32 {
                refused(
                    s,
                    "KMS plaintext: expected 32-byte AES key, got "@ + text::decimal(raw.len())
                        + " bytes"@,
                )
            } else {
                match opened_code(raw, iv, code_b64) {
                    Err(e) => refused(s, e),
                    Ok(code) => code_ready(SessionView { code, ..s }, pkcs8),
                }
            },
        },
        _ => (s, ActionView::Nothing),
    }
}

/// Once the agent code is there, the secrets are opened one after the other.
pub open spec fn code_ready(s: SessionView, pkcs8: Seq<u8>) -> Turn {
    match s.request.secrets {
        None => refused(
            s,
            "secrets must be a JSON object (string keys → base64 ciphertext values)"@,
        ),
        Some(list) => next_secret(s, list, pkcs8),
    }
}

/// What is said of a secret.
pub open spec fn of_secret(name: Seq<char>, what: Seq<char>) -> Seq<char> {
    "secrets["@ + name + "]: "@ + what
}

/// What is said of a secret that neither the enclave nor the key service opens.
pub open spec fn not_opened(name: Seq<char>, rsa: Seq<char>, kms: Seq<char>) -> Seq<char> {
    of_secret(name, "decrypt failed (RSA: "@ + rsa + "; KMS: "@ + kms + ")"@)
}

/// The next secret is opened: with the enclave's key, after which it is sealed by
/// the key service, or else by the key service. After the last one comes the
/// wallet.
pub open spec fn next_secret(
    s: SessionView,
    list: Seq<(Seq<char>, Option<Seq<char>>)>,
    pkcs8: Seq<u8>,
) -> Turn {
    if s.secrets.len() >= list.len() {
        wallet_wanted(s)
    } else {
        let (name, value) = list[s.secrets.len() as int];
        match json::filled(value) {
            None => refused(s, of_secret(name, "expected non-empty base64 string"@)),
            Some(b64) => match unwrapped_secret(name, b64, keys::oaep_b64_result(pkcs8, b64)) {
                SecretView::Refused(message) => refused(s, message),
                SecretView::Opened(secret) => (
                    SessionView {
                        stage: StageView::SecretKeyId,
                        secrets: s.secrets.push((name, secret)),
                        ..s
                    },
                    ActionView::ReadKeyId,
                ),
                SecretView::Forwarded { rsa, data } => (
                    SessionView { stage: StageView::SecretOpening(rsa), ..s },
                    ActionView::Decrypt(data),
                ),
            },
        }
    }
}

/// What comes of trying the enclave's key on a secret, as plain values.
pub ghost enum SecretView {
    Refused(Seq<char>),
    Opened(Seq<char>),
    Forwarded { rsa: Seq<char>, data: Seq<u8> },
}

/// What comes of trying the enclave's key on a secret: it is opened and is text, or
/// it is no text, or it is not opened, for a reason, and the key service is to try.
pub open spec fn unwrapped_secret(
    name: Seq<char>,
    b64: Seq<char>,
    opened: Result<Seq<u8>, Seq<char>>,
) -> SecretView {
    match opened {
        Ok(plain) => match encoding::utf8_result(plain) {
            Err(e) => SecretView::Refused(of_secret(name, "RSA plaintext is not UTF-8: "@ + e)),
            Ok(secret) => SecretView::Opened(secret),
        },
        Err(rsa) => match kms_ciphertext(b64) {
            Err(kms) => SecretView::Refused(not_opened(name, rsa, kms)),
            Ok(data) => SecretView::Forwarded { rsa, data },
        },
    }
}

/// The key service has answered for a secret.
pub open spec fn secret_answered(s: SessionView, rsa: Seq<char>, pkcs8: Seq<u8>, r: KmsView) -> Turn {
    match s.request.secrets {
        None => (s, ActionView::Nothing),
        Some(list) => if s.secrets.len() >= list.len() {
            (s, ActionView::Nothing)
        } else {
            let name = list[s.secrets.len() as int].0;
            match kms_plaintext(r) {
                Err(kms) => refused(s, not_opened(name, rsa, kms)),
                Ok(plain) => match encoding::utf8_result(plain) {
                    Err(e) => refused(s, of_secret(name, "KMS plaintext is not UTF-8: "@ + e)),
                    Ok(secret) => next_secret(
                        SessionView { secrets: s.secrets.push((name, secret)), ..s },
                        list,
                        pkcs8,
                    ),
                },
            }
        },
    }
}

/// The key service has sealed a secret.
pub open spec fn secret_sealed(s: SessionView, pkcs8: Seq<u8>, r: KmsView) -> Turn {
    match s.request.secrets {
        None => (s, ActionView::Nothing),
        Some(list) => if s.secrets.len() == 0 {
            (s, ActionView::Nothing)
        } else {
            match kms_sealed(r) {
                Err(e) => refused(s, e),
                Ok(sealed) => next_secret(
                    SessionView {
                        sealed_secrets: s.sealed_secrets.push((s.secrets.last().0, sealed)),
                        ..s
                    },
                    list,
                    pkcs8,
                ),
            }
        },
    }
}

/// The wallet is wanted: the one that the request brings, or else a new one.
pub open spec fn wallet_wanted(s: SessionView) -> Turn {
    match s.request.encrypted_key {
        Some(b64) => match encoding::base64_result(text::trimmed(b64)) {
            Err(e) => wallet_refused(s, "encrypted_key_b64: base64 decode: "@ + e),
            Ok(data) => (
                SessionView { stage: StageView::WalletOpening, ..s },
                ActionView::Decrypt(data),
            ),
        },
        None => (SessionView { stage: StageView::WalletKeyId, ..s }, ActionView::ReadKeyId),
    }
}

/// The key service has answered for the wallet.
pub open spec fn wallet_answered(s: SessionView, r: KmsView) -> Turn {
    match s.request.encrypted_key {
        None => (s, ActionView::Nothing),
        Some(b64) => match r {
            KmsView::Failed(e) => wallet_refused(s, "KMS decrypt: "@ + e),
            KmsView::Missing => wallet_refused(s, "KMS decrypt: missing plaintext"@),
            KmsView::Data(plain) => match wallet::private_key_of(plain) {
                None => wallet_refused(s, "invalid decrypted key: "@ + "signature error"@),
                Some(key) => ready_to_run(
                    SessionView { wallet: Some(key), encrypted_key: b64, ..s },
                    key,
                ),
            },
        },
    }
}

/// The key service has sealed a new wallet.
pub open spec fn wallet_sealed(s: SessionView, r: KmsView) -> Turn {
    match s.wallet {
        None => (s, ActionView::Nothing),
        Some(key) => match r {
            KmsView::Failed(e) => wallet_refused(s, "KMS encrypt: "@ + e),
            KmsView::Missing => wallet_refused(s, "KMS encrypt: missing ciphertext_blob"@),
            KmsView::Data(sealed) => ready_to_run(
                SessionView { encrypted_key: encoding::base64_text(sealed), ..s },
                key,
            ),
        },
    }
}

/// The agent code is run.
pub open spec fn ready_to_run(s: SessionView, key: Seq<u8>) -> Turn {
    (
        SessionView { stage: StageView::Running, ..s },
        ActionView::Run {
            code: s.code,
            secrets: s.secrets,
            wallet: key,
            payload: s.request.payload,
        },
    )
}

/// The code has run: the attestation binds the wallet and the code.
pub open spec fn has_run(s: SessionView, output: Seq<char>) -> Turn {
    match s.wallet {
        None => (s, ActionView::Nothing),
        Some(key) => (
            SessionView { stage: StageView::Attesting, output, ..s },
            ActionView::Attest {
                public_key: wallet::public_point(key),
                user_data: wallet::keccak256(encode_utf8(s.code)),
            },
        ),
    }
}

/// An attestation document in Base64, or what stands for it where there is none.
pub open spec fn attestation_text(document: Option<Seq<u8>>) -> Seq<char> {
    match document {
        Some(d) => encoding::base64_text(d),
        None => "mock_attestation_for_local_dev"@,
    }
}

/// The members of the reply to a request that was carried out.
pub open spec fn outcome(s: SessionView, key: Seq<u8>, document: Option<Seq<u8>>) -> Seq<
    (Seq<char>, json::OutView),
> {
    reply::success_members(
        wallet::eth_address(wallet::public_point(key)),
        s.output,
        attestation_text(document),
        s.encrypted_key,
        s.sealed_key,
        s.sealed_secrets,
    )
}

/// The attestation device has answered, and the request ends.
pub open spec fn attested(s: SessionView, document: Option<Seq<u8>>) -> Turn {
    match s.wallet {
        None => (s, ActionView::Nothing),
        Some(key) => (
            SessionView { stage: StageView::Done, ..s },
            ActionView::Reply {
                text: json::json_text(outcome(s, key, document)),
                kind: ReplyKind::Success,
            },
        ),
    }
}

/// What an event makes of a request under way. An event that the request does
/// not wait for changes nothing.
pub open spec fn next(s: SessionView, pkcs8: Seq<u8>, e: EventView) -> Turn {
    match (s.stage, e) {
        (StageView::Connecting, EventView::Connected) => connected(s, pkcs8),
        (StageView::CodeKey, EventView::Kms(r)) => code_key_answered(s, pkcs8, r),
        (StageView::CodeKeyId(raw), EventView::KeyId(None)) => refused(
            s,
            "TEEIFY_KMS_KEY_ID must be set to seal the code AES key for durable execute"@,
        ),
        (StageView::CodeKeyId(raw), EventView::KeyId(Some(id))) => (
            SessionView { stage: StageView::SealCodeKey, ..s },
            ActionView::Encrypt { key_id: id, plaintext: raw },
        ),
        (StageView::SealCodeKey, EventView::Kms(r)) => match kms_sealed(r) {
            Err(e) => refused(s, e),
            Ok(sealed) => code_ready(SessionView { sealed_key: Some(sealed), ..s }, pkcs8),
        },
        (StageView::SecretOpening(rsa), EventView::Kms(r)) => secret_answered(s, rsa, pkcs8, r),
        (StageView::SecretKeyId, EventView::KeyId(None)) => refused(
            s,
            "TEEIFY_KMS_KEY_ID must be set to seal secrets after RSA unwrap"@,
        ),
        (StageView::SecretKeyId, EventView::KeyId(Some(id))) => if s.secrets.len() == 0 {
            (s, ActionView::Nothing)
        } else {
            (
                SessionView { stage: StageView::SealSecret, ..s },
                ActionView::Encrypt { key_id: id, plaintext: encode_utf8(s.secrets.last().1) },
            )
        },
        (StageView::SealSecret, EventView::Kms(r)) => secret_sealed(s, pkcs8, r),
        (StageView::WalletOpening, EventView::Kms(r)) => wallet_answered(s, r),
        (StageView::WalletKeyId, EventView::KeyId(None)) => wallet_refused(
            s,
            "TEEIFY_KMS_KEY_ID must be set to create a new persisted wallet"@,
        ),
        (StageView::WalletKeyId, EventView::KeyId(Some(id))) => (
            SessionView { stage: StageView::WalletDraw(id), ..s },
            ActionView::Draw,
        ),
        (StageView::WalletDraw(id), EventView::Drawn(key)) => (
            SessionView { stage: StageView::SealWallet, wallet: Some(key), ..s },
            ActionView::Encrypt { key_id: id, plaintext: key },
        ),
        (StageView::SealWallet, EventView::Kms(r)) => wallet_sealed(s, r),
        (StageView::Running, EventView::Ran(output)) => has_run(s, output),
        (StageView::Attesting, EventView::Attested(document)) => attested(s, document),
        _ => (s, ActionView::Nothing),
    }
}

/// The same pairs once more.
fn copy_pairs(list: &Vec<(String, String)>) -> (r: Vec<(String, String)>)
    ensures
        text::pairs(r@) == text::pairs(list@),
{
    let mut r: Vec<(String, String)> = Vec::new();
    let mut i: usize = 0;
    while i < list.len()
        invariant
            i <= list@.len(),
            text::pairs(r@) == text::pairs(list@).take(i as int),
        decreases list.len() - i,
    {
        let ghost before = r@;
        r.push((list[i].0.clone(), list[i].1.clone()));
        assert(text::pairs(r@) =~= text::pairs(before).push(text::pairs(list@)[i as int]));
        assert(text::pairs(list@).take(i + 1) =~= text::pairs(list@).take(i as int).push(
            text::pairs(list@)[i as int],
        ));
        i += 1;
    }
    assert(text::pairs(list@).take(i as int) =~= text::pairs(list@));
    r
}

/// The bytes for the key service in a Base64 text.
pub fn decode_kms_ciphertext(b64: &str) -> (r: Result<Vec<u8>, String>)
    ensures
        text::to_bytes_result(r) == kms_ciphertext(b64@),
{
    match encoding::decode_base64(text::trim(b64).as_str()) {
        Ok(bytes) => Ok(bytes),
        Err(e) => Err(text::prefixed("kms ciphertext base64: ", e.as_str())),
    }
}

/// What the key service decrypted.
pub fn kms_decrypt_plaintext(r: KmsReply) -> (plain: Result<Vec<u8>, String>)
    ensures
        text::to_bytes_result(plain) == kms_plaintext(r@),
{
    match r {
        KmsReply::Failed(e) => Err(text::prefixed("KMS decrypt (AES envelope): ", e.as_str())),
        KmsReply::Missing => Err("KMS decrypt: missing plaintext".to_string()),
        KmsReply::Data(plain) => Ok(plain),
    }
}

/// What the key service encrypted, in Base64.
pub fn kms_encrypt_plaintext(r: KmsReply) -> (sealed: Result<String, String>)
    ensures
        text::to_text_result(sealed) == kms_sealed(r@),
{
    match r {
        KmsReply::Failed(e) => Err(text::prefixed("KMS encrypt (AES envelope): ", e.as_str())),
        KmsReply::Missing => Err("KMS encrypt: missing ciphertext_blob".to_string()),
        KmsReply::Data(sealed) => Ok(encoding::base64_encode(sealed.as_slice())),
    }
}

/// The agent code that an AES key opens.
pub fn open_code(raw: &[u8; 32], iv: &str, code_b64: &str) -> (r: Result<String, String>)
    ensures
        text::to_text_result(r) == opened_code(raw@, iv@, code_b64@),
{
    match keys::decrypt_aes_gcm_agent_code(raw, iv, code_b64) {
        Err(e) => Err(e),
        Ok(code) => {
            if code.as_str().is_empty() {
                Err("E2EE: decrypted agent code is empty".to_string())
            } else {
                Ok(code)
            }
        },
    }
}

/// What is said of a secret.
fn secret_note(name: &str, what: &str) -> (r: String)
    ensures
        r@ == of_secret(name@, what@),
{
    let mut r = text::prefixed("secrets[", name);
    r.append("]: ");
    r.append(what);
    r
}

/// What is said of a secret that nothing opens.
fn not_opened_note(name: &str, rsa: &str, kms: &str) -> (r: String)
    ensures
        r@ == not_opened(name@, rsa@, kms@),
{
    let mut what = text::prefixed("decrypt failed (RSA: ", rsa);
    what.append("; KMS: ");
    what.append(kms);
    what.append(")");
    secret_note(name, what.as_str())
}

/// What comes of trying the enclave's key on a secret.
pub enum SecretOutcome {
    Refused(String),
    Opened(String),
    Forwarded { rsa: String, data: Vec<u8> },
}

impl View for SecretOutcome {
    type V = SecretView;

    open spec fn view(&self) -> SecretView {
        match self {
            SecretOutcome::Refused(m) => SecretView::Refused(m@),
            SecretOutcome::Opened(s) => SecretView::Opened(s@),
            SecretOutcome::Forwarded { rsa, data } => SecretView::Forwarded {
                rsa: rsa@,
                data: data@,
            },
        }
    }
}

/// What comes of trying the enclave's key on a secret, once it has been tried.
pub fn unwrap_secret_value(
    name: &str,
    encrypted_b64: &str,
    opened: Result<Vec<u8>, String>,
) -> (r: SecretOutcome)
    ensures
        r@ == unwrapped_secret(name@, encrypted_b64@, text::to_bytes_result(opened)),
{
    match opened {
        Ok(plain) => match encoding::utf8_text(plain.as_slice()) {
            Err(e) => {
                let what = text::prefixed("RSA plaintext is not UTF-8: ", e.as_str());
                SecretOutcome::Refused(secret_note(name, what.as_str()))
            },
            Ok(secret) => SecretOutcome::Opened(secret),
        },
        Err(rsa) => match decode_kms_ciphertext(encrypted_b64) {
            Err(kms) => SecretOutcome::Refused(
                not_opened_note(name, rsa.as_str(), kms.as_str()),
            ),
            Ok(data) => SecretOutcome::Forwarded { rsa, data },
        },
    }
}

impl Session {
    fn refuse(self, message: &str) -> (r: (Session, Action))
        ensures
            (r.0@, r.1@) == refused(self@, message@),
            is_readable(r.1@),
    {
        let text = reply::error_response(message);
        (
            Session { stage: Stage::Done, ..self },
            Action::Reply { text, kind: ReplyKind::Refusal },
        )
    }

    fn refuse_wallet(self, message: &str) -> (r: (Session, Action))
        ensures
            (r.0@, r.1@) == wallet_refused(self@, message@),
            is_readable(r.1@),
    {
        let text = reply::error_response(message);
        (
            Session { stage: Stage::Done, ..self },
            Action::Reply { text, kind: ReplyKind::WalletRefusal },
        )
    }

    /// A request begins.
    pub fn begin(request: Request, key: &EnclaveKey) -> (r: (Session, Action))
        ensures
            (r.0@, r.1@) == begun(request@, key@),
            is_readable(r.1@),
    {
        let creds = match &request.creds {
            Err(e) => Err(e.clone()),
            Ok(None) => Ok(None),
            Ok(Some(c)) => Ok(
                Some(
                    AwsCredsPayload {
                        access_key_id: c.access_key_id.clone(),
                        secret_access_key: c.secret_access_key.clone(),
                        token: c.token.clone(),
                    },
                ),
            ),
        };
        assert(request::to_creds_result(creds) == request@.creds);
        let get_key = text::same_text(request.action.as_str(), "get_key");
        let s = Session {
            request,
            stage: Stage::Connecting,
            code: String::new(),
            sealed_key: None,
            secrets: Vec::new(),
            sealed_secrets: Vec::new(),
            wallet: None,
            encrypted_key: String::new(),
            output: String::new(),
        };
        proof {
            assert(s.code@ =~= seq![]);
            assert(s.encrypted_key@ =~= seq![]);
            assert(s.output@ =~= seq![]);
            assert(text::pairs(s.secrets@) =~= seq![]);
            assert(text::pairs(s.sealed_secrets@) =~= seq![]);
        }
        if get_key {
            let text = reply::key_response(key.rsa_public_key_pem().as_str());
            return (
                Session { stage: Stage::Done, ..s },
                Action::Reply { text, kind: ReplyKind::PublicKey },
            );
        }
        match creds {
            Err(e) => s.refuse(e.as_str()),
            Ok(c) => (s, Action::Connect(c)),
        }
    }

    fn on_connected(self, key: &EnclaveKey) -> (r: (Session, Action))
        ensures
            (r.0@, r.1@) == connected(self@, key@),
            is_readable(r.1@),
    {
        let code_b64 = match &self.request.encrypted_code {
            None => {
                let code = self.request.agent_code.clone();
                return Session { code, ..self }.on_code_ready(key);
            },
            Some(code_b64) => code_b64,
        };
        let iv = match &self.request.aes_iv {
            None => {
                return self.refuse(
                    "E2EE: when encrypted_code_b64 is set, aes_iv_b64 is required",
                );
            },
            Some(iv) => iv,
        };
        match (&self.request.encrypted_aes_key, &self.request.sealed_aes_key) {
            (Some(_), Some(_)) => self.refuse(
                "E2EE: encrypted_aes_key_b64 and kms_sealed_aes_key_b64 are mutually exclusive",
            ),
            (None, None) => self.refuse(
                "E2EE: when encrypted_code_b64 is set, provide encrypted_aes_key_b64 (deploy) or kms_sealed_aes_key_b64 (execute)",
            ),
            (Some(wrapped), None) => match keys::rsa_decrypt_aes256_key_ct(
                key,
                wrapped.as_str(),
            ) {
                Err(e) => self.refuse(e.as_str()),
                Ok(raw) => {
                    match open_code(&raw, iv.as_str(), code_b64.as_str()) {
                        Err(e) => self.refuse(e.as_str()),
                        Ok(code) => (
                            Session { stage: Stage::CodeKeyId(raw), code, ..self },
                            Action::ReadKeyId,
                        ),
                    }
                },
            },
            (None, Some(sealed)) => match decode_kms_ciphertext(sealed.as_str()) {
                Err(e) => self.refuse(e.as_str()),
                Ok(data) => (Session { stage: Stage::CodeKey, ..self }, Action::Decrypt(data)),
            },
        }
    }

    fn on_code_key(self, key: &EnclaveKey, reply: KmsReply) -> (r: (Session, Action))
        ensures
            (r.0@, r.1@) == code_key_answered(self@, key@, reply@),
            is_readable(r.1@),
    {
        match (&self.request.encrypted_code, &self.request.aes_iv) {
            (Some(code_b64), Some(iv)) => match kms_decrypt_plaintext(reply) {
                Err(e) => self.refuse(e.as_str()),
                Ok(plain) => {
                    if plain.len() != 32 {
                        let mut message = text::prefixed(
                            "KMS plaintext: expected 32-byte AES key, got ",
                            text::to_decimal(plain.len() as u64).as_str(),
                        );
                        message.append(" bytes");
                        return self.refuse(message.as_str());
                    }
                    let raw = keys::first_32(plain.as_slice());
                    assert(raw@ =~= plain@);
                    match open_code(&raw, iv.as_str(), code_b64.as_str()) {
                        Err(e) => self.refuse(e.as_str()),
                        Ok(code) => Session { code, ..self }.on_code_ready(key),
                    }
                },
            },
            _ => (self, Action::Nothing),
        }
    }

    fn on_code_ready(self, key: &EnclaveKey) -> (r: (Session, Action))
        ensures
            (r.0@, r.1@) == code_ready(self@, key@),
            is_readable(r.1@),
    {
        match &self.request.secrets {
            None => self.refuse(
                "secrets must be a JSON object (string keys → base64 ciphertext values)",
            ),
            Some(_) => self.open_next_secret(key),
        }
    }

    fn open_next_secret(self, key: &EnclaveKey) -> (r: (Session, Action))
        requires
            self@.request.secrets is Some,
        ensures
            (r.0@, r.1@) == next_secret(self@, self@.request.secrets->0, key@),
            is_readable(r.1@),
    {
        let list = match &self.request.secrets {
            None => {
                return (self, Action::Nothing);
            },
            Some(list) => list,
        };
        let i: usize = self.secrets.len();
        assert(text::pairs(self.secrets@).len() == i);
        assert(json::entries(list@).len() == list@.len());
        if i >= list.len() {
            return self.on_wallet_wanted();
        }
        let name = list[i].0.clone();
        let b64 = match json::fill(&list[i].1) {
            None => {
                let message = secret_note(name.as_str(), "expected non-empty base64 string");
                return self.refuse(message.as_str());
            },
            Some(b64) => b64,
        };
        let opened = keys::rsa_decrypt_oaep_b64(key, b64.as_str());
        match unwrap_secret_value(name.as_str(), b64.as_str(), opened) {
            SecretOutcome::Refused(message) => self.refuse(message.as_str()),
            SecretOutcome::Opened(secret) => (
                Session { stage: Stage::SecretKeyId, ..self.with_secret(name, secret) },
                Action::ReadKeyId,
            ),
            SecretOutcome::Forwarded { rsa, data } => (
                Session { stage: Stage::SecretOpening(rsa), ..self },
                Action::Decrypt(data),
            ),
        }
    }

    fn with_secret(self, name: String, secret: String) -> (r: Session)
        ensures
            r@ == (SessionView { secrets: self@.secrets.push((name@, secret@)), ..self@ }),
    {
        let ghost before = self.secrets@;
        let mut secrets = self.secrets;
        secrets.push((name, secret));
        assert(text::pairs(secrets@) =~= text::pairs(before).push((name@, secret@)));
        Session { secrets, ..self }
    }

    fn with_sealed_secret(self, name: String, sealed: String) -> (r: Session)
        ensures
            r@ == (SessionView {
                sealed_secrets: self@.sealed_secrets.push((name@, sealed@)),
                ..self@
            }),
    {
        let ghost before = self.sealed_secrets@;
        let mut sealed_secrets = self.sealed_secrets;
        sealed_secrets.push((name, sealed));
        assert(text::pairs(sealed_secrets@) =~= text::pairs(before).push((name@, sealed@)));
        Session { sealed_secrets, ..self }
    }

    fn on_secret(self, rsa: String, key: &EnclaveKey, reply: KmsReply) -> (r: (Session, Action))
        ensures
            (r.0@, r.1@) == secret_answered(self@, rsa@, key@, reply@),
            is_readable(r.1@),
    {
        let list = match &self.request.secrets {
            None => {
                return (self, Action::Nothing);
            },
            Some(list) => list,
        };
        let i: usize = self.secrets.len();
        assert(text::pairs(self.secrets@).len() == i);
        assert(json::entries(list@).len() == list@.len());
        if i >= list.len() {
            return (self, Action::Nothing);
        }
        let name = list[i].0.clone();
        match kms_decrypt_plaintext(reply) {
            Err(kms) => {
                let message = not_opened_note(name.as_str(), rsa.as_str(), kms.as_str());
                self.refuse(message.as_str())
            },
            Ok(plain) => match encoding::utf8_text(plain.as_slice()) {
                Err(e) => {
                    let what = text::prefixed("KMS plaintext is not UTF-8: ", e.as_str());
                    let message = secret_note(name.as_str(), what.as_str());
                    self.refuse(message.as_str())
                },
                Ok(secret) => self.with_secret(name, secret).open_next_secret(key),
            },
        }
    }

    fn on_secret_sealed(self, key: &EnclaveKey, reply: KmsReply) -> (r: (Session, Action))
        ensures
            (r.0@, r.1@) == secret_sealed(self@, key@, reply@),
            is_readable(r.1@),
    {
        if self.request.secrets.is_none() {
            return (self, Action::Nothing);
        }
        let n: usize = self.secrets.len();
        assert(text::pairs(self.secrets@).len() == n);
        if n == 0 {
            return (self, Action::Nothing);
        }
        match kms_encrypt_plaintext(reply) {
            Err(e) => self.refuse(e.as_str()),
            Ok(sealed) => {
                let name = self.secrets[n - 1].0.clone();
                self.with_sealed_secret(name, sealed).open_next_secret(key)
            },
        }
    }

    fn on_wallet_wanted(self) -> (r: (Session, Action))
        ensures
            (r.0@, r.1@) == wallet_wanted(self@),
            is_readable(r.1@),
    {
        match &self.request.encrypted_key {
            Some(b64) => match encoding::decode_base64(text::trim(b64.as_str()).as_str()) {
                Err(e) => {
                    let message = text::prefixed(
                        "encrypted_key_b64: base64 decode: ",
                        e.as_str(),
                    );
                    self.refuse_wallet(message.as_str())
                },
                Ok(data) => (
                    Session { stage: Stage::WalletOpening, ..self },
                    Action::Decrypt(data),
                ),
            },
            None => (Session { stage: Stage::WalletKeyId, ..self }, Action::ReadKeyId),
        }
    }

    fn on_wallet(self, reply: KmsReply) -> (r: (Session, Action))
        ensures
            (r.0@, r.1@) == wallet_answered(self@, reply@),
            is_readable(r.1@),
    {
        let b64 = match &self.request.encrypted_key {
            None => {
                return (self, Action::Nothing);
            },
            Some(b64) => b64.clone(),
        };
        match reply {
            KmsReply::Failed(e) => {
                let message = text::prefixed("KMS decrypt: ", e.as_str());
                self.refuse_wallet(message.as_str())
            },
            KmsReply::Missing => self.refuse_wallet("KMS decrypt: missing plaintext"),
            KmsReply::Data(plain) => match WalletKey::from_slice(plain.as_slice()) {
                Err(e) => {
                    let message = text::prefixed("invalid decrypted key: ", e.as_str());
                    self.refuse_wallet(message.as_str())
                },
                Ok(key) => {
                    let copy = key.copy();
                    Session { wallet: Some(key), encrypted_key: b64, ..self }.run(copy)
                },
            },
        }
    }

    fn on_wallet_sealed(self, reply: KmsReply) -> (r: (Session, Action))
        ensures
            (r.0@, r.1@) == wallet_sealed(self@, reply@),
            is_readable(r.1@),
    {
        let key = match &self.wallet {
            None => {
                return (self, Action::Nothing);
            },
            Some(key) => key.copy(),
        };
        match reply {
            KmsReply::Failed(e) => {
                let message = text::prefixed("KMS encrypt: ", e.as_str());
                self.refuse_wallet(message.as_str())
            },
            KmsReply::Missing => self.refuse_wallet("KMS encrypt: missing ciphertext_blob"),
            KmsReply::Data(sealed) => {
                let encrypted_key = encoding::base64_encode(sealed.as_slice());
                Session { encrypted_key, ..self }.run(key)
            },
        }
    }

    fn run(self, key: WalletKey) -> (r: (Session, Action))
        ensures
            (r.0@, r.1@) == ready_to_run(self@, key@),
            is_readable(r.1@),
    {
        let action = Action::Run {
            code: self.code.clone(),
            secrets: copy_pairs(&self.secrets),
            wallet: key,
            payload: json::copy_value(&self.request.payload),
        };
        (Session { stage: Stage::Running, ..self }, action)
    }

    fn on_ran(self, output: String) -> (r: (Session, Action))
        ensures
            (r.0@, r.1@) == has_run(self@, output@),
            is_readable(r.1@),
    {
        let public_key = match &self.wallet {
            None => {
                return (self, Action::Nothing);
            },
            Some(key) => key.verifying_key().to_encoded_point(),
        };
        let digest = wallet::keccak256_digest(self.code.as_str().as_bytes());
        let user_data = text::copy_bytes(digest.as_slice());
        (
            Session { stage: Stage::Attesting, output, ..self },
            Action::Attest { public_key, user_data },
        )
    }

    fn on_attested(self, document: Option<Vec<u8>>) -> (r: (Session, Action))
        ensures
            (r.0@, r.1@) == attested(self@, text::optional_bytes(document)),
            is_readable(r.1@),
    {
        let address = match &self.wallet {
            None => {
                return (self, Action::Nothing);
            },
            Some(key) => wallet::get_eth_address(&key.verifying_key()),
        };
        let attestation = match document {
            Some(d) => encoding::base64_encode(d.as_slice()),
            None => "mock_attestation_for_local_dev".to_string(),
        };
        let text = reply::success_response(
            address.as_str(),
            self.output.as_str(),
            attestation.as_str(),
            self.encrypted_key.as_str(),
            &self.sealed_key,
            copy_pairs(&self.sealed_secrets),
        );
        (
            Session { stage: Stage::Done, ..self },
            Action::Reply { text, kind: ReplyKind::Success },
        )
    }

    /// Takes in an event and says what is to be done next.
    pub fn step(self, key: &EnclaveKey, event: Event) -> (r: (Session, Action))
        ensures
            (r.0@, r.1@) == next(self@, key@, event@),
            is_readable(r.1@),
    {
        let Session {
            request,
            stage,
            code,
            sealed_key,
            secrets,
            sealed_secrets,
            wallet,
            encrypted_key,
            output,
        } = self;
        let s = Session {
            request,
            stage: Stage::Done,
            code,
            sealed_key,
            secrets,
            sealed_secrets,
            wallet,
            encrypted_key,
            output,
        };
        match (stage, event) {
            (Stage::Connecting, Event::Connected) => Session {
                stage: Stage::Connecting,
                ..s
            }.on_connected(key),
            (Stage::CodeKey, Event::Kms(r)) => Session { stage: Stage::CodeKey, ..s }.on_code_key(
                key,
                r,
            ),
            (Stage::CodeKeyId(_), Event::KeyId(None)) => s.refuse(
                "TEEIFY_KMS_KEY_ID must be set to seal the code AES key for durable execute",
            ),
            (Stage::CodeKeyId(raw), Event::KeyId(Some(id))) => (
                Session { stage: Stage::SealCodeKey, ..s },
                Action::Encrypt { key_id: id, plaintext: text::copy_bytes(raw.as_slice()) },
            ),
            (Stage::SealCodeKey, Event::Kms(r)) => match kms_encrypt_plaintext(r) {
                Err(e) => s.refuse(e.as_str()),
                Ok(sealed) => Session {
                    stage: Stage::SealCodeKey,
                    sealed_key: Some(sealed),
                    ..s
                }.on_code_ready(key),
            },
            (Stage::SecretOpening(rsa), Event::Kms(r)) => {
                let waiting = Session { stage: Stage::SecretOpening(rsa.clone()), ..s };
                waiting.on_secret(rsa, key, r)
            },
            (Stage::SecretKeyId, Event::KeyId(None)) => s.refuse(
                "TEEIFY_KMS_KEY_ID must be set to seal secrets after RSA unwrap",
            ),
            (Stage::SecretKeyId, Event::KeyId(Some(id))) => {
                let n: usize = s.secrets.len();
                assert(text::pairs(s.secrets@).len() == n);
                if n == 0 {
                    (Session { stage: Stage::SecretKeyId, ..s }, Action::Nothing)
                } else {
                    let plaintext = text::copy_bytes(s.secrets[n - 1].1.as_str().as_bytes());
                    (
                        Session { stage: Stage::SealSecret, ..s },
                        Action::Encrypt { key_id: id, plaintext },
                    )
                }
            },
            (Stage::SealSecret, Event::Kms(r)) => Session {
                stage: Stage::SealSecret,
                ..s
            }.on_secret_sealed(key, r),
            (Stage::WalletOpening, Event::Kms(r)) => Session {
                stage: Stage::WalletOpening,
                ..s
            }.on_wallet(r),
            (Stage::WalletKeyId, Event::KeyId(None)) => s.refuse_wallet(
                "TEEIFY_KMS_KEY_ID must be set to create a new persisted wallet",
            ),
            (Stage::WalletKeyId, Event::KeyId(Some(id))) => (
                Session { stage: Stage::WalletDraw(id), ..s },
                Action::Draw,
            ),
            (Stage::WalletDraw(id), Event::Drawn(drawn)) => {
                let plaintext = drawn.to_bytes();
                (
                    Session { stage: Stage::SealWallet, wallet: Some(drawn), ..s },
                    Action::Encrypt { key_id: id, plaintext },
                )
            },
            (Stage::SealWallet, Event::Kms(r)) => Session {
                stage: Stage::SealWallet,
                ..s
            }.on_wallet_sealed(r),
            (Stage::Running, Event::Ran(ran)) => Session { stage: Stage::Running, ..s }.on_ran(ran),
            (Stage::Attesting, Event::Attested(document)) => Session {
                stage: Stage::Attesting,
                ..s
            }.on_attested(document),
            (stage, _) => (Session { stage, ..s }, Action::Nothing),
        }
    }
}

} // verus!
