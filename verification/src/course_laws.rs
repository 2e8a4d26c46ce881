//! The course of a request: what each answer from outside makes of it, said of what
//! the request brings and of what was answered.

use vstd::prelude::*;
use vstd::utf8::*;

use crate::encoding;
use crate::json;
use crate::keys;
use crate::reply;
use crate::request;
use crate::session;
use crate::session_laws;
use crate::text;
use crate::wallet;

verus! {

/// The reply that tells the client of a refusal.
pub open spec fn refusal(message: Seq<char>, kind: session::ReplyKind) -> session::ActionView {
    session::ActionView::Reply {
        text: json::json_text(
            seq![
                ("status"@, json::OutView::Text("error"@)),
                ("message"@, json::OutView::Text(message)),
                ("wallet_address"@, json::OutView::Null),
                ("execution_output"@, json::OutView::Text(seq![])),
                ("attestation_b64"@, json::OutView::Text(seq![])),
                ("encrypted_key_b64"@, json::OutView::Text(seq![])),
            ],
        ),
        kind,
    }
}

/// A turn ends the request with a refusal, and changes nothing else.
pub open spec fn ends(
    turn: session::Turn,
    s: session::SessionView,
    message: Seq<char>,
    kind: session::ReplyKind,
) -> bool {
    &&& turn.0 == (session::SessionView { stage: session::StageView::Done, ..s })
    &&& turn.1 == refusal(message, kind)
}

/// Every request but the one for the public key asks to connect the key service, with
/// exactly the credentials that it brings, and waits for that with nothing opened yet;
/// where its credentials are refused it ends with that refusal.
pub proof fn law_request_connects_first(
    r: request::RequestView,
    pkcs8: Seq<u8>,
    creds: Option<request::CredsView>,
    complaint: Seq<char>,
)
    requires
        r.action != "get_key"@,
    ensures
        r.creds == Ok::<Option<request::CredsView>, Seq<char>>(creds) ==> {
            let (s, action) = session::begun(r, pkcs8);
            &&& action == session::ActionView::Connect(creds)
            &&& s.stage == session::StageView::Connecting
            &&& s.request == r
            &&& s.sealed_key is None
            &&& s.secrets.len() == 0
            &&& s.sealed_secrets.len() == 0
            &&& s.wallet is None
        },
        r.creds == Err::<Option<request::CredsView>, Seq<char>>(complaint) ==> {
            let (s, action) = session::begun(r, pkcs8);
            &&& action == refusal(complaint, session::ReplyKind::Refusal)
            &&& s.stage == session::StageView::Done
        },
{
}

/// The public key is the answer to the request for it, whatever else that brings, and
/// to no other request, neither at once nor later.
pub proof fn law_key_only_on_request(
    r: request::RequestView,
    s: session::SessionView,
    pkcs8: Seq<u8>,
    pem: Seq<char>,
    e: session::EventView,
)
    requires
        keys::public_pem(pkcs8) == Some(pem),
    ensures
        session::begun(r, pkcs8).1 is Reply && session::begun(r, pkcs8).1->kind
            == session::ReplyKind::PublicKey <==> r.action == "get_key"@,
        r.action == "get_key"@ ==> session::begun(r, pkcs8).1 == (session::ActionView::Reply {
            text: json::json_text(
                seq![
                    ("status"@, json::OutView::Text("success"@)),
                    ("public_key_pem"@, json::OutView::Text(pem)),
                ],
            ),
            kind: session::ReplyKind::PublicKey,
        }) && session::begun(r, pkcs8).0.stage is Done,
        session::next(s, pkcs8, e).1 is Reply ==> session::next(s, pkcs8, e).1->kind
            != session::ReplyKind::PublicKey,
{
}

/// The name of the secret that comes next.
pub open spec fn next_name(s: session::SessionView) -> Seq<char> {
    s.request.secrets->0[s.secrets.len() as int].0
}

/// The value of the secret that comes next.
pub open spec fn next_value(s: session::SessionView) -> Option<Seq<char>> {
    s.request.secrets->0[s.secrets.len() as int].1
}

/// A secret comes next.
pub open spec fn has_next_secret(s: session::SessionView) -> bool {
    s.request.secrets is Some && s.secrets.len() < s.request.secrets->0.len()
}

/// What a turn does for a secret whose value is Base64, perhaps with white space round it:
/// - One that the enclave's key opens to a text is that text, and is to be sealed.
/// - One that it does not open is for the key service to decrypt.
/// - One that it opens to what is no text is refused.
pub open spec fn takes_secret(
    s: session::SessionView,
    pkcs8: Seq<u8>,
    turn: session::Turn,
    data: Seq<u8>,
) -> bool {
    match keys::oaep_opened(pkcs8, data) {
        Ok(plain) => {
            &&& forall|secret: Seq<char>|
                plain == #[trigger] encode_utf8(secret) ==> turn == (
                    session::SessionView {
                        stage: session::StageView::SecretKeyId,
                        secrets: s.secrets.push((next_name(s), secret)),
                        ..s
                    },
                    session::ActionView::ReadKeyId,
                )
            &&& !valid_utf8(plain) ==> ends(
                turn,
                s,
                "secrets["@ + next_name(s) + "]: "@ + ("RSA plaintext is not UTF-8: "@
                    + encoding::utf8_complaint(plain)),
                session::ReplyKind::Refusal,
            )
        },
        Err(e) => turn == (
            session::SessionView {
                stage: session::StageView::SecretOpening("RSA OAEP/SHA-256 decrypt: "@ + e),
                ..s
            },
            session::ActionView::Decrypt(data),
        ),
    }
}

/// What a turn does for a secret that is blank or is no Base64: it is refused.
pub open spec fn refuses_secret(s: session::SessionView, turn: session::Turn) -> bool {
    let value = next_value(s);
    let complaint = encoding::base64_complaint(text::trimmed(value->0));
    &&& value is None || text::trimmed(value->0).len() == 0 ==> ends(
        turn,
        s,
        "secrets["@ + next_name(s) + "]: "@ + "expected non-empty base64 string"@,
        session::ReplyKind::Refusal,
    )
    &&& value is Some && text::trimmed(value->0).len() > 0 && (forall|data: Seq<u8>|
        text::trimmed(value->0) != #[trigger] encoding::base64_text(data)) ==> ends(
        turn,
        s,
        "secrets["@ + next_name(s) + "]: "@ + ("decrypt failed (RSA: "@ + (
        "RSA ciphertext base64: "@ + complaint) + "; KMS: "@ + ("kms ciphertext base64: "@
            + complaint) + ")"@),
        session::ReplyKind::Refusal,
    )
}

/// What a turn does for the wallet: one that the request brings is for the key service to
/// decrypt, and is refused where it is no Base64; where it brings none, a new one is to be
/// made.
pub open spec fn takes_wallet(s: session::SessionView, turn: session::Turn) -> bool {
    match s.request.encrypted_key {
        None => turn == (
            session::SessionView { stage: session::StageView::WalletKeyId, ..s },
            session::ActionView::ReadKeyId,
        ),
        Some(b64) => {
            &&& forall|data: Seq<u8>|
                text::trimmed(b64) == #[trigger] encoding::base64_text(data) ==> turn == (
                    session::SessionView { stage: session::StageView::WalletOpening, ..s },
                    session::ActionView::Decrypt(data),
                )
            &&& (forall|data: Seq<u8>| text::trimmed(b64) != #[trigger] encoding::base64_text(data))
                ==> ends(
                turn,
                s,
                "encrypted_key_b64: base64 decode: "@ + encoding::base64_complaint(
                    text::trimmed(b64),
                ),
                session::ReplyKind::WalletRefusal,
            )
        },
    }
}

/// Where a request goes on to once its code, and as many of its secrets as `s` holds, are
/// there: to the next secret, or behind the last one to the wallet. Secrets that are no
/// object end it.
pub open spec fn goes_on(s: session::SessionView, pkcs8: Seq<u8>, turn: session::Turn) -> bool {
    &&& has_next_secret(s) ==> refuses_secret(s, turn)
    &&& has_next_secret(s) && next_value(s) is Some ==> forall|data: Seq<u8>|
        data.len() > 0 && text::trimmed(next_value(s)->0) == #[trigger] encoding::base64_text(data)
            ==> takes_secret(s, pkcs8, turn, data)
    &&& s.request.secrets is Some && s.secrets.len() == s.request.secrets->0.len() ==> takes_wallet(
        s,
        turn,
    )
    &&& s.request.secrets is None ==> ends(
        turn,
        s,
        "secrets must be a JSON object (string keys → base64 ciphertext values)"@,
        session::ReplyKind::Refusal,
    )
}

proof fn lemma_takes_secret(s: session::SessionView, pkcs8: Seq<u8>, data: Seq<u8>)
    requires
        has_next_secret(s),
        next_value(s) is Some,
        data.len() > 0,
        text::trimmed(next_value(s)->0) == encoding::base64_text(data),
    ensures
        takes_secret(s, pkcs8, session::code_ready(s, pkcs8), data),
{
    encoding::law_base64_survives_trimming(data);
    encoding::lemma_base64_len(data);
    let b64 = encoding::base64_text(data);
    assert(json::filled(next_value(s)) == Some(b64));
    assert(keys::oaep_b64_result(pkcs8, b64) == (match keys::oaep_opened(pkcs8, data) {
        Ok(plain) => Ok::<Seq<u8>, Seq<char>>(plain),
        Err(e) => Err("RSA OAEP/SHA-256 decrypt: "@ + e),
    }));
    if let Ok(plain) = keys::oaep_opened(pkcs8, data) {
        if valid_utf8(plain) {
            let text = decode_utf8(plain);
            assert forall|secret: Seq<char>| plain == #[trigger] encode_utf8(secret) implies text
                == secret by {
                encoding::law_text_reads_back(plain, secret);
            }
        } else {
            assert forall|secret: Seq<char>| plain != #[trigger] encode_utf8(secret) by {
                encode_utf8_valid_utf8(secret);
            }
        }
    }
}

proof fn lemma_refuses_secret(s: session::SessionView, pkcs8: Seq<u8>)
    requires
        has_next_secret(s),
    ensures
        refuses_secret(s, session::code_ready(s, pkcs8)),
{
    if next_value(s) is Some {
        text::law_trimming_is_stable(next_value(s)->0, false);
    }
}

proof fn lemma_takes_wallet(s: session::SessionView, pkcs8: Seq<u8>)
    requires
        s.request.secrets is Some,
        s.secrets.len() == s.request.secrets->0.len(),
    ensures
        takes_wallet(s, session::code_ready(s, pkcs8)),
{
    if let Some(b64) = s.request.encrypted_key {
        assert forall|data: Seq<u8>|
            text::trimmed(b64) == #[trigger] encoding::base64_text(
                data,
            ) implies encoding::base64_result(text::trimmed(b64)) == Ok::<Seq<u8>, Seq<char>>(
            data,
        ) by {
            encoding::law_base64_reads_back(text::trimmed(b64), data);
        }
    }
}

proof fn lemma_goes_on(s: session::SessionView, pkcs8: Seq<u8>)
    ensures
        goes_on(s, pkcs8, session::code_ready(s, pkcs8)),
{
    if has_next_secret(s) {
        lemma_refuses_secret(s, pkcs8);
        if next_value(s) is Some {
            assert forall|data: Seq<u8>|
                data.len() > 0 && text::trimmed(next_value(s)->0)
                    == #[trigger] encoding::base64_text(data) implies takes_secret(
                s,
                pkcs8,
                session::code_ready(s, pkcs8),
                data,
            ) by {
                lemma_takes_secret(s, pkcs8, data);
            }
        }
    }
    if s.request.secrets is Some && s.secrets.len() == s.request.secrets->0.len() {
        lemma_takes_wallet(s, pkcs8);
    }
}

/// Code that comes as it is, is the code, and the request goes on with it.
pub proof fn law_plain_code_is_taken(s: session::SessionView, pkcs8: Seq<u8>)
    requires
        s.stage is Connecting,
        s.request.encrypted_code is None,
    ensures
        goes_on(
            session::SessionView { code: s.request.agent_code, ..s },
            pkcs8,
            session::next(s, pkcs8, session::EventView::Connected),
        ),
{
    lemma_goes_on(session::SessionView { code: s.request.agent_code, ..s }, pkcs8);
}

/// Code whose key comes wrapped for the enclave is the plaintext under the key that the
/// enclave's key opens; that key is sealed, under the id that was read, and the request
/// goes on with the code and the sealed key.
pub proof fn law_wrapped_code_is_decrypted(
    s: session::SessionView,
    pkcs8: Seq<u8>,
    raw: Seq<u8>,
    code: Seq<char>,
    id: Seq<char>,
    sealed: Seq<u8>,
)
    requires
        s.stage is Connecting,
        s.request.encrypted_code is Some,
        s.request.aes_iv is Some,
        s.request.encrypted_aes_key is Some,
        s.request.sealed_aes_key is None,
        keys::is_opening(pkcs8, s.request.encrypted_aes_key->0, raw),
        raw.len() == 32,
        keys::is_plaintext(raw, s.request.aes_iv->0, s.request.encrypted_code->0, code),
        code.len() > 0,
    ensures
        ({
            let (t, first) = session::next(s, pkcs8, session::EventView::Connected);
            let (u, second) = session::next(t, pkcs8, session::EventView::KeyId(Some(id)));
            &&& first == session::ActionView::ReadKeyId
            &&& t == (session::SessionView {
                stage: session::StageView::CodeKeyId(raw),
                code,
                ..s
            })
            &&& second == (session::ActionView::Encrypt { key_id: id, plaintext: raw })
            &&& u == (session::SessionView { stage: session::StageView::SealCodeKey, ..t })
            &&& goes_on(
                session::SessionView { sealed_key: Some(encoding::base64_text(sealed)), ..u },
                pkcs8,
                session::next(
                    u,
                    pkcs8,
                    session::EventView::Kms(session::KmsView::Data(sealed)),
                ),
            )
        }),
{
    keys::law_message_is_opened_whole(pkcs8, s.request.encrypted_aes_key->0, raw);
    keys::law_code_is_the_plaintext(raw, s.request.aes_iv->0, s.request.encrypted_code->0, code);
    let t = session::next(s, pkcs8, session::EventView::Connected).0;
    let u = session::next(t, pkcs8, session::EventView::KeyId(Some(id))).0;
    lemma_goes_on(
        session::SessionView { sealed_key: Some(encoding::base64_text(sealed)), ..u },
        pkcs8,
    );
}

/// Code whose key was sealed before is the plaintext under what the key service
/// decrypts that to, and the request goes on with it; nothing is sealed for it again.
pub proof fn law_sealed_code_is_decrypted(
    s: session::SessionView,
    pkcs8: Seq<u8>,
    data: Seq<u8>,
    raw: Seq<u8>,
    code: Seq<char>,
)
    requires
        s.stage is Connecting,
        s.request.encrypted_code is Some,
        s.request.aes_iv is Some,
        s.request.encrypted_aes_key is None,
        s.request.sealed_aes_key is Some,
        text::trimmed(s.request.sealed_aes_key->0) == encoding::base64_text(data),
        raw.len() == 32,
        keys::is_plaintext(raw, s.request.aes_iv->0, s.request.encrypted_code->0, code),
        code.len() > 0,
    ensures
        ({
            let (t, first) = session::next(s, pkcs8, session::EventView::Connected);
            &&& first == session::ActionView::Decrypt(data)
            &&& t == (session::SessionView { stage: session::StageView::CodeKey, ..s })
            &&& goes_on(
                session::SessionView { code, ..t },
                pkcs8,
                session::next(t, pkcs8, session::EventView::Kms(session::KmsView::Data(raw))),
            )
        }),
{
    encoding::law_base64_reads_back(text::trimmed(s.request.sealed_aes_key->0), data);
    keys::law_code_is_the_plaintext(raw, s.request.aes_iv->0, s.request.encrypted_code->0, code);
    let t = session::next(s, pkcs8, session::EventView::Connected).0;
    lemma_goes_on(session::SessionView { code, ..t }, pkcs8);
}

/// Code that came encrypted is run only as the plaintext: wherever a request waits with
/// code that an AES key has opened, what AES-256-GCM gives for the request is exactly the
/// UTF-8 of that code, under the key that the enclave's key opens or the one that the
/// key service has answered.
pub proof fn law_code_is_what_was_encrypted(
    s: session::SessionView,
    pkcs8: Seq<u8>,
    e: session::EventView,
)
    requires
        s.request.encrypted_code is Some,
    ensures
        s.stage is Connecting ==> {
            let (t, action) = session::next(s, pkcs8, e);
            t.stage matches session::StageView::CodeKeyId(raw) ==> {
                &&& keys::is_opening(pkcs8, s.request.encrypted_aes_key->0, raw)
                &&& keys::is_plaintext(
                    raw,
                    s.request.aes_iv->0,
                    s.request.encrypted_code->0,
                    t.code,
                )
                &&& raw.len() == 32
                &&& t.code.len() > 0
            }
        },
        s.stage is Connecting ==> {
            let t = session::next(s, pkcs8, e).0;
            t.stage is CodeKeyId || t.stage is CodeKey || t.stage is Done || t == s
        },
        s.stage is CodeKey ==> {
            let (t, action) = session::next(s, pkcs8, e);
            !(t.stage is Done) && t != s ==> {
                &&& e matches session::EventView::Kms(session::KmsView::Data(raw))
                    && keys::is_plaintext(
                    raw,
                    s.request.aes_iv->0,
                    s.request.encrypted_code->0,
                    t.code,
                )
                &&& t.code.len() > 0
            }
        },
{
    if s.request.aes_iv is Some {
        let iv = s.request.aes_iv->0;
        let sealed = s.request.encrypted_code->0;
        let t = session::next(s, pkcs8, e).0;
        if let session::StageView::CodeKeyId(raw) = t.stage {
            if s.stage is Connecting {
                keys::law_message_is_opened_whole(pkcs8, s.request.encrypted_aes_key->0, raw);
                keys::law_code_is_the_plaintext(raw, iv, sealed, t.code);
            }
        }
        if s.stage is CodeKey {
            if let session::EventView::Kms(session::KmsView::Data(raw)) = e {
                if let Ok(code) = session::opened_code(raw, iv, sealed) {
                    keys::law_code_is_the_plaintext(raw, iv, sealed, code);
                    lemma_code_stays(session::SessionView { code, ..s }, pkcs8);
                }
            }
        }
    }
}

proof fn lemma_code_stays(s: session::SessionView, pkcs8: Seq<u8>)
    ensures
        session::code_ready(s, pkcs8).0.code == s.code,
{
}

/// A secret that the key service decrypts is the text whose UTF-8 it answers, under the
/// name that the request gives it, and the request goes on with it.
pub proof fn law_decrypted_secret_is_taken(
    s: session::SessionView,
    pkcs8: Seq<u8>,
    secret: Seq<char>,
)
    requires
        s.stage is SecretOpening,
        s.request.secrets is Some,
        s.secrets.len() < s.request.secrets->0.len(),
    ensures
        goes_on(
            session::SessionView {
                secrets: s.secrets.push(
                    (s.request.secrets->0[s.secrets.len() as int].0, secret),
                ),
                ..s
            },
            pkcs8,
            session::next(
                s,
                pkcs8,
                session::EventView::Kms(session::KmsView::Data(encode_utf8(secret))),
            ),
        ),
{
    encoding::law_text_reads_back(encode_utf8(secret), secret);
    let name = s.request.secrets->0[s.secrets.len() as int].0;
    lemma_goes_on(
        session::SessionView { secrets: s.secrets.push((name, secret)), ..s },
        pkcs8,
    );
}

/// A secret that the enclave's key has opened is sealed as it is, under the id that was
/// read; the Base64 of what comes back is kept under its name, and the request goes on.
pub proof fn law_opened_secret_is_sealed(
    s: session::SessionView,
    pkcs8: Seq<u8>,
    id: Seq<char>,
    before: Seq<(Seq<char>, Seq<char>)>,
    name: Seq<char>,
    secret: Seq<char>,
    sealed: Seq<u8>,
)
    requires
        s.stage is SecretKeyId,
        s.request.secrets is Some,
        s.secrets == before.push((name, secret)),
    ensures
        ({
            let (t, action) = session::next(s, pkcs8, session::EventView::KeyId(Some(id)));
            &&& action == (session::ActionView::Encrypt {
                key_id: id,
                plaintext: encode_utf8(secret),
            })
            &&& t == (session::SessionView { stage: session::StageView::SealSecret, ..s })
            &&& goes_on(
                session::SessionView {
                    sealed_secrets: s.sealed_secrets.push((name, encoding::base64_text(sealed))),
                    ..t
                },
                pkcs8,
                session::next(
                    t,
                    pkcs8,
                    session::EventView::Kms(session::KmsView::Data(sealed)),
                ),
            )
        }),
{
    let t = session::next(s, pkcs8, session::EventView::KeyId(Some(id))).0;
    assert(s.secrets.last() == (name, secret));
    lemma_goes_on(
        session::SessionView {
            sealed_secrets: s.sealed_secrets.push((name, encoding::base64_text(sealed))),
            ..t
        },
        pkcs8,
    );
}

/// A wallet that the request brings is the key that the key service decrypts it to, the
/// same 32 bytes, and the code is run with that key; the reply will bring the wallet
/// back as it came.
pub proof fn law_wallet_is_restored(
    s: session::SessionView,
    pkcs8: Seq<u8>,
    b64: Seq<char>,
    key: Seq<u8>,
)
    requires
        s.stage is WalletOpening,
        s.request.encrypted_key == Some(b64),
        wallet::is_private_key(key),
    ensures
        session::next(s, pkcs8, session::EventView::Kms(session::KmsView::Data(key))) == (
            session::SessionView {
                stage: session::StageView::Running,
                wallet: Some(key),
                encrypted_key: b64,
                ..s
            },
            session::ActionView::Run {
                code: s.code,
                secrets: s.secrets,
                wallet: key,
                payload: s.request.payload,
            },
        ),
{
    wallet::law_key_has_the_number_of_its_bytes(key);
}

/// Shorter bytes that the key service decrypts a wallet to count as a number: the wallet
/// is the key with that number, and bytes without such a key are refused.
pub proof fn law_wallet_has_the_number_that_was_sealed(
    s: session::SessionView,
    pkcs8: Seq<u8>,
    plain: Seq<u8>,
)
    requires
        s.stage is WalletOpening,
        s.request.encrypted_key is Some,
    ensures
        ({
            let turn = session::next(
                s,
                pkcs8,
                session::EventView::Kms(session::KmsView::Data(plain)),
            );
            let fits = 24 <= plain.len() <= 32 && 0 < wallet::big_endian(plain)
                < wallet::group_order();
            &&& fits ==> turn.1 is Run && turn.1->wallet.len() == 32 && wallet::big_endian(
                turn.1->wallet,
            ) == wallet::big_endian(plain) && turn.0.wallet == Some(turn.1->wallet)
            &&& !fits ==> ends(
                turn,
                s,
                "invalid decrypted key: "@ + "signature error"@,
                session::ReplyKind::WalletRefusal,
            )
        }),
{
    wallet::law_key_has_the_number_of_its_bytes(plain);
}

/// A new wallet is the key that was drawn: those very bytes are handed over to be
/// sealed, under the id that was read, and once they are the code is run with that same
/// key, and the reply will bring the Base64 of the sealed form.
pub proof fn law_new_wallet_is_the_sealed_one(
    s: session::SessionView,
    pkcs8: Seq<u8>,
    id: Seq<char>,
    key: Seq<u8>,
    sealed: Seq<u8>,
)
    requires
        s.stage is WalletKeyId,
    ensures
        ({
            let (t, first) = session::next(s, pkcs8, session::EventView::KeyId(Some(id)));
            let (u, second) = session::next(t, pkcs8, session::EventView::Drawn(key));
            let (v, third) = session::next(
                u,
                pkcs8,
                session::EventView::Kms(session::KmsView::Data(sealed)),
            );
            &&& first == session::ActionView::Draw
            &&& t == (session::SessionView { stage: session::StageView::WalletDraw(id), ..s })
            &&& second == (session::ActionView::Encrypt { key_id: id, plaintext: key })
            &&& u == (session::SessionView {
                stage: session::StageView::SealWallet,
                wallet: Some(key),
                ..s
            })
            &&& third == (session::ActionView::Run {
                code: s.code,
                secrets: s.secrets,
                wallet: key,
                payload: s.request.payload,
            })
            &&& v == (session::SessionView {
                stage: session::StageView::Running,
                wallet: Some(key),
                encrypted_key: encoding::base64_text(sealed),
                ..s
            })
        }),
{
}

/// Whatever key is drawn for a new wallet is the one that is handed over to be sealed,
/// under the id that was read before, and the session keeps that one and no other.
pub proof fn law_drawn_key_is_kept(
    s: session::SessionView,
    pkcs8: Seq<u8>,
    id: Seq<char>,
    key: Seq<u8>,
)
    requires
        s.stage == session::StageView::WalletDraw(id),
    ensures
        ({
            let (t, action) = session::next(s, pkcs8, session::EventView::Drawn(key));
            &&& action == (session::ActionView::Encrypt { key_id: id, plaintext: key })
            &&& t.wallet == Some(key)
            &&& t.stage is SealWallet
            &&& t.code == s.code
            &&& t.secrets == s.secrets
        }),
{
}

/// A reply to a request that was carried out says where the wallet is, what the code put
/// out, and the attestation of the wallet's public point and of the digest of exactly
/// the code that was run; with the sealed wallet, and the sealed key and secrets where
/// there are any.
pub proof fn law_reply_tells_what_was_run(
    s: session::SessionView,
    pkcs8: Seq<u8>,
    key: Seq<u8>,
    output: Seq<char>,
    document: Option<Seq<u8>>,
)
    requires
        s.stage is Running,
        s.wallet == Some(key),
    ensures
        ({
            let (t, first) = session::next(s, pkcs8, session::EventView::Ran(output));
            let (u, second) = session::next(t, pkcs8, session::EventView::Attested(document));
            let always = seq![
                ("status"@, json::OutView::Text("success"@)),
                (
                    "wallet_address"@,
                    json::OutView::Text(wallet::eth_address(wallet::public_point(key))),
                ),
                ("execution_output"@, json::OutView::Text(output)),
                (
                    "attestation_b64"@,
                    json::OutView::Text(
                        if document is Some {
                            encoding::base64_text(document->0)
                        } else {
                            "mock_attestation_for_local_dev"@
                        },
                    ),
                ),
                ("encrypted_key_b64"@, json::OutView::Text(s.encrypted_key)),
            ];
            let with_key = if s.sealed_key is Some {
                always.push(("kms_sealed_aes_key_b64"@, json::OutView::Text(s.sealed_key->0)))
            } else {
                always
            };
            let all = if s.sealed_secrets.len() > 0 {
                with_key.push(("kms_sealed_secrets"@, json::OutView::Object(s.sealed_secrets)))
            } else {
                with_key
            };
            &&& first == (session::ActionView::Attest {
                public_key: wallet::public_point(key),
                user_data: wallet::keccak256(encode_utf8(s.code)),
            })
            &&& second == (session::ActionView::Reply {
                text: json::json_text(all),
                kind: session::ReplyKind::Success,
            })
            &&& u.stage is Done
        }),
{
    let t = session::next(s, pkcs8, session::EventView::Ran(output)).0;
    let always = reply::success_members(
        wallet::eth_address(wallet::public_point(key)),
        output,
        session::attestation_text(document),
        s.encrypted_key,
        None,
        seq![],
    );
    let with_key = reply::success_members(
        wallet::eth_address(wallet::public_point(key)),
        output,
        session::attestation_text(document),
        s.encrypted_key,
        s.sealed_key,
        seq![],
    );
    let all = session::outcome(t, key, document);
    assert(always =~= always + Seq::<(Seq<char>, json::OutView)>::empty());
    if s.sealed_key is Some {
        let member = ("kms_sealed_aes_key_b64"@, json::OutView::Text(s.sealed_key->0));
        assert(with_key =~= always.push(member));
    } else {
        assert(with_key =~= always);
    }
    if s.sealed_secrets.len() > 0 {
        let member = ("kms_sealed_secrets"@, json::OutView::Object(s.sealed_secrets));
        assert(all =~= with_key.push(member));
    } else {
        assert(all =~= with_key);
    }
}

/// What has been found for a request is never lost or changed while it goes on: neither
/// secrets, nor sealed secrets, nor the sealed key, nor the wallet once one was drawn or
/// restored, nor the code once secrets are being opened.
pub proof fn law_nothing_is_lost(s: session::SessionView, pkcs8: Seq<u8>, e: session::EventView)
    ensures
        ({
            let t = session::next(s, pkcs8, e).0;
            &&& s.secrets.is_prefix_of(t.secrets)
            &&& t.secrets.len() <= s.secrets.len() + 2
            &&& s.sealed_secrets.is_prefix_of(t.sealed_secrets)
            &&& t.sealed_secrets.len() <= s.sealed_secrets.len() + 1
            &&& !(s.stage is SealCodeKey) ==> t.sealed_key == s.sealed_key
            &&& !(s.stage is WalletOpening || s.stage is WalletDraw) ==> t.wallet == s.wallet
            &&& !(s.stage is Connecting || s.stage is CodeKey) ==> t.code == s.code
            &&& !(s.stage is WalletOpening || s.stage is SealWallet) ==> t.encrypted_key
                == s.encrypted_key
            &&& !(s.stage is Running) ==> t.output == s.output
        }),
{
    let n = s.secrets.len() as int;
    match (s.stage, e) {
        (session::StageView::Connecting, session::EventView::Connected) => {
            lemma_kept(session::SessionView { code: s.request.agent_code, ..s }, pkcs8);
        },
        (session::StageView::CodeKey, session::EventView::Kms(session::KmsView::Data(raw))) => {
            let t = session::next(s, pkcs8, e).0;
            lemma_kept(session::SessionView { code: t.code, ..s }, pkcs8);
            if let (Some(code_b64), Some(iv)) = (s.request.encrypted_code, s.request.aes_iv) {
                if let Ok(code) = session::opened_code(raw, iv, code_b64) {
                    lemma_kept(session::SessionView { code, ..s }, pkcs8);
                }
            }
        },
        (session::StageView::SealCodeKey, session::EventView::Kms(r)) => {
            if let Ok(sealed) = session::kms_sealed(r) {
                lemma_kept(session::SessionView { sealed_key: Some(sealed), ..s }, pkcs8);
            }
        },
        (
            session::StageView::SecretOpening(_),
            session::EventView::Kms(session::KmsView::Data(plain)),
        ) => {
            if let Some(list) = s.request.secrets {
                if n < list.len() && encoding::utf8_result(plain) is Ok {
                    let secret = encoding::utf8_result(plain)->Ok_0;
                    lemma_kept(
                        session::SessionView { secrets: s.secrets.push((list[n].0, secret)), ..s },
                        pkcs8,
                    );
                }
            }
        },
        (session::StageView::SealSecret, session::EventView::Kms(r)) => {
            if let Ok(sealed) = session::kms_sealed(r) {
                lemma_kept(
                    session::SessionView {
                        sealed_secrets: s.sealed_secrets.push((s.secrets.last().0, sealed)),
                        ..s
                    },
                    pkcs8,
                );
            }
        },
        _ => {},
    }
}

proof fn lemma_kept(s: session::SessionView, pkcs8: Seq<u8>)
    ensures
        ({
            let t = session::code_ready(s, pkcs8).0;
            &&& s.secrets.is_prefix_of(t.secrets)
            &&& t.secrets.len() <= s.secrets.len() + 1
            &&& t.sealed_secrets == s.sealed_secrets
            &&& t.sealed_key == s.sealed_key
            &&& t.wallet == s.wallet
            &&& t.code == s.code
            &&& t.encrypted_key == s.encrypted_key
            &&& t.output == s.output
        }),
{
}

/// The key service, the id of its key and the code itself can each fail a request while
/// its code is looked for: it ends with a refusal that says why, with the service's own
/// words where there are any.
pub proof fn law_refusals_for_the_code(
    s: session::SessionView,
    pkcs8: Seq<u8>,
    message: Seq<char>,
    raw: Seq<u8>,
)
    requires
        s.request.encrypted_code is Some,
    ensures
        ({
            let kind = session::ReplyKind::Refusal;
            let r = s.request;
            let failed = session::EventView::Kms(session::KmsView::Failed(message));
            let missing = session::EventView::Kms(session::KmsView::Missing);
            let data = session::EventView::Kms(session::KmsView::Data(raw));
            let turn = session::next(s, pkcs8, session::EventView::Connected);
            &&& s.stage is Connecting && r.aes_iv is None ==> ends(
                turn,
                s,
                "E2EE: when encrypted_code_b64 is set, aes_iv_b64 is required"@,
                kind,
            )
            &&& s.stage is Connecting && r.aes_iv is Some && r.encrypted_aes_key is Some
                && r.sealed_aes_key is Some ==> ends(
                turn,
                s,
                "E2EE: encrypted_aes_key_b64 and kms_sealed_aes_key_b64 are mutually exclusive"@,
                kind,
            )
            &&& s.stage is Connecting && r.aes_iv is Some && r.encrypted_aes_key is None
                && r.sealed_aes_key is None ==> ends(
                turn,
                s,
                "E2EE: when encrypted_code_b64 is set, provide encrypted_aes_key_b64 (deploy) or kms_sealed_aes_key_b64 (execute)"@,
                kind,
            )
            &&& s.stage is CodeKey && r.aes_iv is Some ==> {
                &&& ends(
                    session::next(s, pkcs8, failed),
                    s,
                    "KMS decrypt (AES envelope): "@ + message,
                    kind,
                )
                &&& ends(
                    session::next(s, pkcs8, missing),
                    s,
                    "KMS decrypt: missing plaintext"@,
                    kind,
                )
                &&& raw.len() != 32 ==> ends(
                    session::next(s, pkcs8, data),
                    s,
                    "KMS plaintext: expected 32-byte AES key, got "@ + text::decimal(raw.len())
                        + " bytes"@,
                    kind,
                )
            }
            &&& s.stage is CodeKeyId ==> ends(
                session::next(s, pkcs8, session::EventView::KeyId(None)),
                s,
                "TEEIFY_KMS_KEY_ID must be set to seal the code AES key for durable execute"@,
                kind,
            )
            &&& s.stage is SealCodeKey ==> {
                &&& ends(
                    session::next(s, pkcs8, failed),
                    s,
                    "KMS encrypt (AES envelope): "@ + message,
                    kind,
                )
                &&& ends(
                    session::next(s, pkcs8, missing),
                    s,
                    "KMS encrypt: missing ciphertext_blob"@,
                    kind,
                )
            }
        }),
{
}

/// Code that a key opens to nothing is refused, and so is code that it does not open,
/// with the reason; neither is run.
pub proof fn law_code_that_does_not_open_is_refused(
    s: session::SessionView,
    pkcs8: Seq<u8>,
    raw: Seq<u8>,
)
    requires
        s.request.encrypted_code is Some,
        s.request.aes_iv is Some,
        raw.len() == 32,
    ensures
        ({
            let kind = session::ReplyKind::Refusal;
            let result = keys::agent_code_result(
                raw,
                s.request.aes_iv->0,
                s.request.encrypted_code->0,
            );
            let message = if result is Err {
                result->Err_0
            } else {
                "E2EE: decrypted agent code is empty"@
            };
            let fails = result is Err || result->Ok_0.len() == 0;
            &&& s.stage is CodeKey && fails ==> ends(
                session::next(s, pkcs8, session::EventView::Kms(session::KmsView::Data(raw))),
                s,
                message,
                kind,
            )
            &&& s.stage is Connecting && s.request.encrypted_aes_key is Some
                && s.request.sealed_aes_key is None && keys::is_opening(
                pkcs8,
                s.request.encrypted_aes_key->0,
                raw,
            ) && fails ==> ends(
                session::next(s, pkcs8, session::EventView::Connected),
                s,
                message,
                kind,
            )
        }),
{
    if s.request.encrypted_aes_key is Some {
        keys::law_message_is_opened_whole(pkcs8, s.request.encrypted_aes_key->0, raw);
    }
}

/// A secret that cannot be opened, is no text or cannot be sealed ends its request with a
/// refusal that names the secret, or the service that failed, and says why.
pub proof fn law_refusals_for_secrets(
    s: session::SessionView,
    pkcs8: Seq<u8>,
    rsa: Seq<char>,
    message: Seq<char>,
    plain: Seq<u8>,
)
    requires
        s.request.secrets is Some,
    ensures
        ({
            let kind = session::ReplyKind::Refusal;
            let name = s.request.secrets->0[s.secrets.len() as int].0;
            let failed = session::EventView::Kms(session::KmsView::Failed(message));
            let missing = session::EventView::Kms(session::KmsView::Missing);
            let data = session::EventView::Kms(session::KmsView::Data(plain));
            &&& s.stage == session::StageView::SecretOpening(rsa) && s.secrets.len()
                < s.request.secrets->0.len() ==> {
                &&& ends(
                    session::next(s, pkcs8, failed),
                    s,
                    "secrets["@ + name + "]: "@ + ("decrypt failed (RSA: "@ + rsa + "; KMS: "@ + (
                    "KMS decrypt (AES envelope): "@ + message) + ")"@),
                    kind,
                )
                &&& ends(
                    session::next(s, pkcs8, missing),
                    s,
                    "secrets["@ + name + "]: "@ + ("decrypt failed (RSA: "@ + rsa + "; KMS: "@
                        + "KMS decrypt: missing plaintext"@ + ")"@),
                    kind,
                )
                &&& !valid_utf8(plain) ==> ends(
                    session::next(s, pkcs8, data),
                    s,
                    "secrets["@ + name + "]: "@ + ("KMS plaintext is not UTF-8: "@
                        + encoding::utf8_complaint(plain)),
                    kind,
                )
            }
            &&& s.stage is SecretKeyId ==> ends(
                session::next(s, pkcs8, session::EventView::KeyId(None)),
                s,
                "TEEIFY_KMS_KEY_ID must be set to seal secrets after RSA unwrap"@,
                kind,
            )
            &&& s.stage is SealSecret && s.secrets.len() > 0 ==> {
                &&& ends(
                    session::next(s, pkcs8, failed),
                    s,
                    "KMS encrypt (AES envelope): "@ + message,
                    kind,
                )
                &&& ends(
                    session::next(s, pkcs8, missing),
                    s,
                    "KMS encrypt: missing ciphertext_blob"@,
                    kind,
                )
            }
        }),
{
}

/// A wallet that cannot be decrypted, or made and sealed, ends its request with a refusal
/// for want of a wallet that says why.
pub proof fn law_refusals_for_the_wallet(
    s: session::SessionView,
    pkcs8: Seq<u8>,
    message: Seq<char>,
)
    ensures
        ({
            let kind = session::ReplyKind::WalletRefusal;
            let failed = session::next(
                s,
                pkcs8,
                session::EventView::Kms(session::KmsView::Failed(message)),
            );
            let missing = session::next(
                s,
                pkcs8,
                session::EventView::Kms(session::KmsView::Missing),
            );
            &&& s.stage is WalletOpening && s.request.encrypted_key is Some ==> {
                &&& ends(failed, s, "KMS decrypt: "@ + message, kind)
                &&& ends(missing, s, "KMS decrypt: missing plaintext"@, kind)
            }
            &&& s.stage is WalletKeyId ==> ends(
                session::next(s, pkcs8, session::EventView::KeyId(None)),
                s,
                "TEEIFY_KMS_KEY_ID must be set to create a new persisted wallet"@,
                kind,
            )
            &&& s.stage is SealWallet && s.wallet is Some ==> {
                &&& ends(failed, s, "KMS encrypt: "@ + message, kind)
                &&& ends(missing, s, "KMS encrypt: missing ciphertext_blob"@, kind)
            }
        }),
{
}

/// A request that brings its wallet and code as it is, with no secrets, is carried out
/// from end to end in four answers: what it asks for each time, and the reply, follow
/// from what it brings and what is answered, whatever its action is called.
pub proof fn law_execute_from_end_to_end(
    r: request::RequestView,
    pkcs8: Seq<u8>,
    creds: Option<request::CredsView>,
    sealed: Seq<u8>,
    key: Seq<u8>,
    output: Seq<char>,
    document: Seq<u8>,
)
    requires
        r.action != "get_key"@,
        r.creds == Ok::<Option<request::CredsView>, Seq<char>>(creds),
        r.encrypted_code is None,
        r.secrets is Some,
        r.secrets->0.len() == 0,
        r.encrypted_key is Some,
        text::trimmed(r.encrypted_key->0) == encoding::base64_text(sealed),
        wallet::is_private_key(key),
    ensures
        ({
            let (s0, a0) = session::begun(r, pkcs8);
            let (s1, a1) = session::next(s0, pkcs8, session::EventView::Connected);
            let (s2, a2) = session::next(
                s1,
                pkcs8,
                session::EventView::Kms(session::KmsView::Data(key)),
            );
            let (s3, a3) = session::next(s2, pkcs8, session::EventView::Ran(output));
            let (s4, a4) = session::next(s3, pkcs8, session::EventView::Attested(Some(document)));
            &&& a0 == session::ActionView::Connect(creds)
            &&& a1 == session::ActionView::Decrypt(sealed)
            &&& a2 == (session::ActionView::Run {
                code: r.agent_code,
                secrets: seq![],
                wallet: key,
                payload: r.payload,
            })
            &&& a3 == (session::ActionView::Attest {
                public_key: wallet::public_point(key),
                user_data: wallet::keccak256(encode_utf8(r.agent_code)),
            })
            &&& a4 == (session::ActionView::Reply {
                text: json::json_text(
                    seq![
                        ("status"@, json::OutView::Text("success"@)),
                        (
                            "wallet_address"@,
                            json::OutView::Text(wallet::eth_address(wallet::public_point(key))),
                        ),
                        ("execution_output"@, json::OutView::Text(output)),
                        (
                            "attestation_b64"@,
                            json::OutView::Text(encoding::base64_text(document)),
                        ),
                        ("encrypted_key_b64"@, json::OutView::Text(r.encrypted_key->0)),
                    ],
                ),
                kind: session::ReplyKind::Success,
            })
        }),
{
    let s0 = session::begun(r, pkcs8).0;
    law_request_connects_first(r, pkcs8, creds, seq![]);
    law_plain_code_is_taken(s0, pkcs8);
    let s1 = session::next(s0, pkcs8, session::EventView::Connected).0;
    assert(text::trimmed(s0.request.encrypted_key->0) == encoding::base64_text(sealed));
    assert(s1 == (session::SessionView {
        code: r.agent_code,
        stage: session::StageView::WalletOpening,
        ..s0
    }));
    assert(s1.secrets =~= seq![]);
    law_wallet_is_restored(s1, pkcs8, r.encrypted_key->0, key);
    let s2 = session::next(
        s1,
        pkcs8,
        session::EventView::Kms(session::KmsView::Data(key)),
    ).0;
    law_reply_tells_what_was_run(s2, pkcs8, key, output, Some(document));
}

/// A first request, with code that was encrypted for the enclave, has the key of that code
/// sealed under the id that is read, and without secrets and a wallet goes on to make a
/// wallet, with the decrypted code and the Base64 of the sealed key at hand.
pub proof fn law_deploy_opens_and_seals_the_code(
    r: request::RequestView,
    pkcs8: Seq<u8>,
    creds: Option<request::CredsView>,
    raw: Seq<u8>,
    code: Seq<char>,
    id: Seq<char>,
    sealed: Seq<u8>,
)
    requires
        r.action != "get_key"@,
        r.creds == Ok::<Option<request::CredsView>, Seq<char>>(creds),
        r.encrypted_code is Some,
        r.aes_iv is Some,
        r.encrypted_aes_key is Some,
        r.sealed_aes_key is None,
        keys::is_opening(pkcs8, r.encrypted_aes_key->0, raw),
        raw.len() == 32,
        keys::is_plaintext(raw, r.aes_iv->0, r.encrypted_code->0, code),
        code.len() > 0,
        r.secrets is Some,
        r.secrets->0.len() == 0,
        r.encrypted_key is None,
    ensures
        ({
            let (s0, a0) = session::begun(r, pkcs8);
            let (s1, a1) = session::next(s0, pkcs8, session::EventView::Connected);
            let (s2, a2) = session::next(s1, pkcs8, session::EventView::KeyId(Some(id)));
            let (s3, a3) = session::next(
                s2,
                pkcs8,
                session::EventView::Kms(session::KmsView::Data(sealed)),
            );
            &&& a0 == session::ActionView::Connect(creds)
            &&& a1 is ReadKeyId
            &&& a2 == (session::ActionView::Encrypt { key_id: id, plaintext: raw })
            &&& a3 is ReadKeyId
            &&& s3.stage is WalletKeyId
            &&& s3.request == r
            &&& s3.code == code
            &&& s3.sealed_key == Some(encoding::base64_text(sealed))
            &&& s3.secrets.len() == 0
            &&& s3.sealed_secrets.len() == 0
        }),
{
    let s0 = session::begun(r, pkcs8).0;
    law_request_connects_first(r, pkcs8, creds, seq![]);
    law_wrapped_code_is_decrypted(s0, pkcs8, raw, code, id, sealed);
}

/// A request that has come to the making of a wallet has the drawn one sealed, runs its
/// code with it, has both attested, and is answered with the output, the attestation and
/// all that was sealed.
pub proof fn law_deploy_runs_with_the_new_wallet(
    s: session::SessionView,
    pkcs8: Seq<u8>,
    id: Seq<char>,
    key: Seq<u8>,
    sealed: Seq<u8>,
    output: Seq<char>,
    document: Seq<u8>,
)
    requires
        s.stage is WalletKeyId,
        s.sealed_key is Some,
        s.sealed_secrets.len() == 0,
    ensures
        ({
            let (t, a) = session::next(s, pkcs8, session::EventView::KeyId(Some(id)));
            let (u, b) = session::next(t, pkcs8, session::EventView::Drawn(key));
            let (v, c) = session::next(
                u,
                pkcs8,
                session::EventView::Kms(session::KmsView::Data(sealed)),
            );
            let (w, d) = session::next(v, pkcs8, session::EventView::Ran(output));
            let (x, last) = session::next(w, pkcs8, session::EventView::Attested(Some(document)));
            &&& a is Draw
            &&& b == (session::ActionView::Encrypt { key_id: id, plaintext: key })
            &&& c == (session::ActionView::Run {
                code: s.code,
                secrets: s.secrets,
                wallet: key,
                payload: s.request.payload,
            })
            &&& d == (session::ActionView::Attest {
                public_key: wallet::public_point(key),
                user_data: wallet::keccak256(encode_utf8(s.code)),
            })
            &&& last == (session::ActionView::Reply {
                text: json::json_text(
                    seq![
                        ("status"@, json::OutView::Text("success"@)),
                        (
                            "wallet_address"@,
                            json::OutView::Text(wallet::eth_address(wallet::public_point(key))),
                        ),
                        ("execution_output"@, json::OutView::Text(output)),
                        (
                            "attestation_b64"@,
                            json::OutView::Text(encoding::base64_text(document)),
                        ),
                        (
                            "encrypted_key_b64"@,
                            json::OutView::Text(encoding::base64_text(sealed)),
                        ),
                        ("kms_sealed_aes_key_b64"@, json::OutView::Text(s.sealed_key->0)),
                    ],
                ),
                kind: session::ReplyKind::Success,
            })
        }),
{
    law_new_wallet_is_the_sealed_one(s, pkcs8, id, key, sealed);
    let v = session::SessionView {
        stage: session::StageView::Running,
        wallet: Some(key),
        encrypted_key: encoding::base64_text(sealed),
        ..s
    };
    law_reply_tells_what_was_run(v, pkcs8, key, output, Some(document));
    let always = seq![
        ("status"@, json::OutView::Text("success"@)),
        (
            "wallet_address"@,
            json::OutView::Text(wallet::eth_address(wallet::public_point(key))),
        ),
        ("execution_output"@, json::OutView::Text(output)),
        ("attestation_b64"@, json::OutView::Text(encoding::base64_text(document))),
        ("encrypted_key_b64"@, json::OutView::Text(encoding::base64_text(sealed))),
    ];
    let member = ("kms_sealed_aes_key_b64"@, json::OutView::Text(s.sealed_key->0));
    assert(always.push(member) =~= seq![
        always[0],
        always[1],
        always[2],
        always[3],
        always[4],
        member,
    ]);
}

/// A request whose action is called something else, or whose agent is, goes the same way:
/// only the request for the public key is told from the others.
pub proof fn law_action_and_name_do_not_matter(
    s: session::SessionView,
    pkcs8: Seq<u8>,
    e: session::EventView,
    action: Seq<char>,
    agent_name: Seq<char>,
)
    ensures
        ({
            let renamed = session::SessionView {
                request: request::RequestView { action, agent_name, ..s.request },
                ..s
            };
            let (t, first) = session::next(s, pkcs8, e);
            let (u, second) = session::next(renamed, pkcs8, e);
            &&& first == second
            &&& u == (session::SessionView {
                request: request::RequestView { action, agent_name, ..t.request },
                ..t
            })
        }),
{
}

/// A first secret that is wrapped for the enclave reaches the code as the text that was
/// wrapped, under its name, and the key service is asked to seal the same text; what it
/// answers is kept in Base64 under that name.
pub proof fn law_wrapped_secret_is_opened_and_sealed(
    s: session::SessionView,
    pkcs8: Seq<u8>,
    name: Seq<char>,
    value: Seq<char>,
    data: Seq<u8>,
    secret: Seq<char>,
    id: Seq<char>,
    sealed: Seq<u8>,
)
    requires
        s.stage is Connecting,
        s.request.encrypted_code is None,
        s.request.secrets is Some,
        s.request.secrets->0.len() > 0,
        s.request.secrets->0[0] == (name, Some(value)),
        s.secrets.len() == 0,
        s.sealed_secrets.len() == 0,
        text::trimmed(value) == encoding::base64_text(data),
        data.len() > 0,
        keys::oaep_opened(pkcs8, data) == Ok::<Seq<u8>, Seq<char>>(encode_utf8(secret)),
    ensures
        ({
            let (t, first) = session::next(s, pkcs8, session::EventView::Connected);
            let (u, second) = session::next(t, pkcs8, session::EventView::KeyId(Some(id)));
            let v = session::next(
                u,
                pkcs8,
                session::EventView::Kms(session::KmsView::Data(sealed)),
            ).0;
            &&& first is ReadKeyId
            &&& t.code == s.request.agent_code
            &&& t.secrets == seq![(name, secret)]
            &&& second == (session::ActionView::Encrypt {
                key_id: id,
                plaintext: encode_utf8(secret),
            })
            &&& v.secrets.len() >= 1
            &&& v.secrets[0] == (name, secret)
            &&& v.sealed_secrets == seq![(name, encoding::base64_text(sealed))]
        }),
{
    let with_code = session::SessionView { code: s.request.agent_code, ..s };
    lemma_takes_secret(with_code, pkcs8, data);
    let t = session::SessionView {
        code: s.request.agent_code,
        stage: session::StageView::SecretKeyId,
        secrets: s.secrets.push((name, secret)),
        ..s
    };
    assert(session::next(s, pkcs8, session::EventView::Connected).0 == t);
    assert(t.secrets =~= seq![(name, secret)]);
    let u = session::SessionView { stage: session::StageView::SealSecret, ..t };
    let kept = session::SessionView {
        sealed_secrets: s.sealed_secrets.push((name, encoding::base64_text(sealed))),
        ..u
    };
    assert(kept.sealed_secrets =~= seq![(name, encoding::base64_text(sealed))]);
    lemma_kept(kept, pkcs8);
}

/// Behind a secret that was sealed the next one follows, in the request's order: one that
/// is wrapped for the enclave is opened to the text that was wrapped, and any other is
/// handed to the key service as the bytes that its Base64 stands for.
pub proof fn law_next_secret_follows(
    s: session::SessionView,
    pkcs8: Seq<u8>,
    sealed: Seq<u8>,
    name: Seq<char>,
    value: Seq<char>,
    data: Seq<u8>,
    secret: Seq<char>,
)
    requires
        s.stage is SealSecret,
        s.request.secrets is Some,
        0 < s.secrets.len() < s.request.secrets->0.len(),
        s.request.secrets->0[s.secrets.len() as int] == (name, Some(value)),
        text::trimmed(value) == encoding::base64_text(data),
        data.len() > 0,
    ensures
        ({
            let (t, action) = session::next(
                s,
                pkcs8,
                session::EventView::Kms(session::KmsView::Data(sealed)),
            );
            &&& t.sealed_secrets == s.sealed_secrets.push(
                (s.secrets.last().0, encoding::base64_text(sealed)),
            )
            &&& keys::oaep_opened(pkcs8, data) == Ok::<Seq<u8>, Seq<char>>(encode_utf8(secret))
                ==> action is ReadKeyId && t.secrets == s.secrets.push((name, secret))
            &&& keys::oaep_opened(pkcs8, data) is Err ==> action == session::ActionView::Decrypt(
                data,
            ) && t.secrets == s.secrets && t.stage is SecretOpening
        }),
{
    let kept = session::SessionView {
        sealed_secrets: s.sealed_secrets.push(
            (s.secrets.last().0, encoding::base64_text(sealed)),
        ),
        ..s
    };
    lemma_takes_secret(kept, pkcs8, data);
    lemma_kept(kept, pkcs8);
}

/// A secret that the enclave's key does not open is handed to the key service as the bytes
/// that its Base64 stands for, and reaches the code as the text whose UTF-8 the service
/// answers, under its name; nothing is sealed for it.
pub proof fn law_sealed_secret_is_decrypted(
    s: session::SessionView,
    pkcs8: Seq<u8>,
    name: Seq<char>,
    value: Seq<char>,
    data: Seq<u8>,
    secret: Seq<char>,
)
    requires
        s.stage is Connecting,
        s.request.encrypted_code is None,
        s.request.secrets is Some,
        s.request.secrets->0.len() > 0,
        s.request.secrets->0[0] == (name, Some(value)),
        s.secrets.len() == 0,
        s.sealed_secrets.len() == 0,
        text::trimmed(value) == encoding::base64_text(data),
        data.len() > 0,
        keys::oaep_opened(pkcs8, data) is Err,
    ensures
        ({
            let (t, first) = session::next(s, pkcs8, session::EventView::Connected);
            let u = session::next(
                t,
                pkcs8,
                session::EventView::Kms(session::KmsView::Data(encode_utf8(secret))),
            ).0;
            &&& first == session::ActionView::Decrypt(data)
            &&& u.secrets.len() >= 1
            &&& u.secrets[0] == (name, secret)
            &&& u.sealed_secrets.len() == 0
        }),
{
    let with_code = session::SessionView { code: s.request.agent_code, ..s };
    lemma_takes_secret(with_code, pkcs8, data);
    encoding::law_text_reads_back(encode_utf8(secret), secret);
    let t = session::next(s, pkcs8, session::EventView::Connected).0;
    let kept = session::SessionView { secrets: s.secrets.push((name, secret)), ..t };
    assert(kept.secrets[0] == (name, secret));
    lemma_kept(kept, pkcs8);
}

/// The code that runs, where it came encrypted, is what AES-256-GCM gives for the request
/// under some key, byte for byte, and the attestation holds the digest of those very bytes.
pub proof fn law_run_code_is_the_plaintext(
    s: session::SessionView,
    pkcs8: Seq<u8>,
    e: session::EventView,
    output: Seq<char>,
)
    requires
        session_laws::sound(s, pkcs8),
        s.request.encrypted_code is Some,
        session::next(s, pkcs8, e).1 is Run,
    ensures
        exists|raw: Seq<u8>, iv: Seq<u8>, sealed: Seq<u8>, plain: Seq<u8>|
            {
                let (t, run) = session::next(s, pkcs8, e);
                &&& text::trimmed(s.request.aes_iv->0) == encoding::base64_text(iv)
                &&& iv.len() == 12
                &&& text::trimmed(s.request.encrypted_code->0) == encoding::base64_text(sealed)
                &&& #[trigger] keys::gcm_opened(raw, iv, sealed) == Some(plain)
                &&& plain == encode_utf8(run->code)
                &&& session::next(t, pkcs8, session::EventView::Ran(output)).1
                    == (session::ActionView::Attest {
                    public_key: wallet::public_point(run->wallet),
                    user_data: #[trigger] wallet::keccak256(plain),
                })
            },
{
    session_laws::law_only_opened_code_runs(s, pkcs8, e);
    session_laws::law_attestation_binds_code_and_wallet(s, pkcs8, e, output, None);
    let code = session::next(s, pkcs8, e).1->code;
    let r = s.request;
    let raw = choose|raw: Seq<u8>| #[trigger] session_laws::opens(raw, r, code);
    assert(session_laws::opens(raw, r, code));
    keys::law_code_is_the_plaintext(raw, r.aes_iv->0, r.encrypted_code->0, code);
    let (iv, sealed) = choose|iv: Seq<u8>, sealed: Seq<u8>|
        {
            &&& text::trimmed(r.aes_iv->0) == #[trigger] encoding::base64_text(iv)
            &&& iv.len() == 12
            &&& text::trimmed(r.encrypted_code->0) == #[trigger] encoding::base64_text(sealed)
            &&& keys::gcm_opened(raw, iv, sealed) == Some(encode_utf8(code))
        };
    assert(keys::gcm_opened(raw, iv, sealed) == Some(encode_utf8(code)));
}

/// A key of the code that is no Base64, does not open, or opens to anything but 32 bytes
/// is refused, with the reason, before anything is decrypted with it.
pub proof fn law_key_that_does_not_open_is_refused(
    s: session::SessionView,
    pkcs8: Seq<u8>,
    data: Seq<u8>,
)
    requires
        s.stage is Connecting,
        s.request.encrypted_code is Some,
        s.request.aes_iv is Some,
    ensures
        ({
            let kind = session::ReplyKind::Refusal;
            let turn = session::next(s, pkcs8, session::EventView::Connected);
            let wrapped = s.request.encrypted_aes_key;
            let sealed = s.request.sealed_aes_key;
            &&& wrapped is Some && sealed is None && text::trimmed(wrapped->0)
                == encoding::base64_text(data) ==> match keys::oaep_opened(pkcs8, data) {
                Err(e) => ends(
                    turn,
                    s,
                    "encrypted_aes_key_b64: "@ + ("RSA OAEP/SHA-256 decrypt: "@ + e),
                    kind,
                ),
                Ok(plain) => plain.len() != 32 ==> ends(
                    turn,
                    s,
                    "RSA plaintext: expected 32-byte AES key, got "@ + text::decimal(plain.len()),
                    kind,
                ),
            }
            &&& wrapped is Some && sealed is None && (forall|d: Seq<u8>|
                text::trimmed(wrapped->0) != #[trigger] encoding::base64_text(d)) ==> ends(
                turn,
                s,
                "encrypted_aes_key_b64: "@ + ("RSA ciphertext base64: "@
                    + encoding::base64_complaint(text::trimmed(wrapped->0))),
                kind,
            )
            &&& wrapped is None && sealed is Some && (forall|d: Seq<u8>|
                text::trimmed(sealed->0) != #[trigger] encoding::base64_text(d)) ==> ends(
                turn,
                s,
                "kms ciphertext base64: "@ + encoding::base64_complaint(text::trimmed(sealed->0)),
                kind,
            )
        }),
{
    if s.request.encrypted_aes_key is Some {
        encoding::law_base64_reads_back(text::trimmed(s.request.encrypted_aes_key->0), data);
    }
}

} // verus!
