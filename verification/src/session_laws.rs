//! What holds of every request, whatever the client sends and whatever the key
//! service, the script engine and the attestation device answer.

use vstd::prelude::*;
use vstd::utf8::*;

use crate::encoding;
use crate::json;
use crate::keys;
use crate::reply;
use crate::request;
use crate::session;
use crate::text;
use crate::wallet;

verus! {

/// An AES key opens the code of a request.
pub open spec fn opens(raw: Seq<u8>, r: request::RequestView, code: Seq<char>) -> bool {
    &&& r.encrypted_code is Some
    &&& r.aes_iv is Some
    &&& session::opened_code(raw, r.aes_iv->0, r.encrypted_code->0) == Ok::<
        Seq<char>,
        Seq<char>,
    >(code)
}

/// The AES key of a request comes wrapped for the enclave.
pub open spec fn key_is_wrapped(r: request::RequestView) -> bool {
    r.encrypted_code is Some && r.encrypted_aes_key is Some && r.sealed_aes_key is None
}

/// The AES key of a request comes sealed by the key service.
pub open spec fn key_is_sealed(r: request::RequestView) -> bool {
    r.encrypted_code is Some && r.encrypted_aes_key is None && r.sealed_aes_key is Some
}

/// The code is the one that the request asks for: as it came, or as an AES key
/// opens it; never the encrypted text itself.
pub open spec fn code_is_right(r: request::RequestView, code: Seq<char>) -> bool {
    match r.encrypted_code {
        None => code == r.agent_code,
        Some(_) => {
            &&& key_is_wrapped(r) || key_is_sealed(r)
            &&& code.len() > 0
            &&& exists|raw: Seq<u8>| #[trigger] opens(raw, r, code)
        },
    }
}

/// Whether a secret is wrapped for the enclave.
pub open spec fn is_wrapped(value: Option<Seq<char>>, pkcs8: Seq<u8>) -> bool {
    json::filled(value) is Some && keys::oaep_b64_result(pkcs8, json::filled(value)->0) is Ok
}

/// The names of the secrets, among the first `n`, that are wrapped for the
/// enclave.
pub open spec fn wrapped_names(
    list: Seq<(Seq<char>, Option<Seq<char>>)>,
    pkcs8: Seq<u8>,
    n: int,
) -> Seq<Seq<char>>
    decreases n,
{
    if n <= 0 {
        seq![]
    } else {
        let before = wrapped_names(list, pkcs8, n - 1);
        if is_wrapped(list[n - 1].1, pkcs8) {
            before.push(list[n - 1].0)
        } else {
            before
        }
    }
}

/// The first halves of pairs.
pub open spec fn names(list: Seq<(Seq<char>, Seq<char>)>) -> Seq<Seq<char>> {
    list.map_values(|p: (Seq<char>, Seq<char>)| p.0)
}

/// What a secret that is wrapped for the enclave holds.
pub open spec fn unwrapped(value: Option<Seq<char>>, pkcs8: Seq<u8>) -> Result<
    Seq<char>,
    Seq<char>,
> {
    encoding::utf8_result(keys::oaep_b64_result(pkcs8, json::filled(value)->0)->Ok_0)
}

/// The secrets opened so far are the request's, in its order, each with what it
/// holds where it is wrapped for the enclave; and the first `done` of them have
/// been sealed where they are.
pub open spec fn secrets_are_right(s: session::SessionView, pkcs8: Seq<u8>, done: int) -> bool {
    &&& s.request.secrets is Some
    &&& 0 <= done <= s.secrets.len() <= s.request.secrets->0.len()
    &&& forall|i: int|
        0 <= i < s.secrets.len() ==> {
            &&& (#[trigger] s.secrets[i]).0 == s.request.secrets->0[i].0
            &&& is_wrapped(s.request.secrets->0[i].1, pkcs8) ==> unwrapped(
                s.request.secrets->0[i].1,
                pkcs8,
            ) == Ok::<Seq<char>, Seq<char>>(s.secrets[i].1)
        }
    &&& names(s.sealed_secrets) == wrapped_names(s.request.secrets->0, pkcs8, done)
}

/// The sealed key is there where the request's key came wrapped for the enclave.
pub open spec fn sealed_key_is_right(s: session::SessionView) -> bool {
    s.sealed_key is Some <==> key_is_wrapped(s.request)
}

/// Everything before the wallet is done.
pub open spec fn all_opened(s: session::SessionView, pkcs8: Seq<u8>) -> bool {
    &&& code_is_right(s.request, s.code)
    &&& sealed_key_is_right(s)
    &&& secrets_are_right(s, pkcs8, s.secrets.len() as int)
    &&& s.secrets.len() == s.request.secrets->0.len()
}

/// A wallet is there; where the request brought one, it is that one.
pub open spec fn wallet_is_right(s: session::SessionView) -> bool {
    &&& s.wallet is Some
    &&& s.request.encrypted_key is Some ==> s.encrypted_key == s.request.encrypted_key->0
}

/// What holds of a request under way.
pub open spec fn sound(s: session::SessionView, pkcs8: Seq<u8>) -> bool {
    match s.stage {
        session::StageView::Connecting => {
            &&& s.sealed_key is None
            &&& s.secrets.len() == 0
            &&& s.sealed_secrets.len() == 0
        },
        session::StageView::CodeKey => {
            &&& key_is_sealed(s.request)
            &&& s.request.aes_iv is Some
            &&& s.sealed_key is None
            &&& s.secrets.len() == 0
            &&& s.sealed_secrets.len() == 0
        },
        session::StageView::CodeKeyId(raw) => {
            &&& key_is_wrapped(s.request)
            &&& code_is_right(s.request, s.code)
            &&& opens(raw, s.request, s.code)
            &&& keys::aes_key_result(
                keys::oaep_b64_result(pkcs8, s.request.encrypted_aes_key->0),
            ) == Ok::<Seq<u8>, Seq<char>>(raw)
            &&& s.secrets.len() == 0
            &&& s.sealed_secrets.len() == 0
        },
        session::StageView::SealCodeKey => {
            &&& key_is_wrapped(s.request)
            &&& code_is_right(s.request, s.code)
            &&& s.secrets.len() == 0
            &&& s.sealed_secrets.len() == 0
        },
        session::StageView::SecretOpening(_) => {
            &&& code_is_right(s.request, s.code)
            &&& sealed_key_is_right(s)
            &&& secrets_are_right(s, pkcs8, s.secrets.len() as int)
            &&& s.secrets.len() < s.request.secrets->0.len()
            &&& !is_wrapped(s.request.secrets->0[s.secrets.len() as int].1, pkcs8)
        },
        session::StageView::SecretKeyId | session::StageView::SealSecret => {
            &&& code_is_right(s.request, s.code)
            &&& sealed_key_is_right(s)
            &&& s.secrets.len() > 0
            &&& secrets_are_right(s, pkcs8, s.secrets.len() - 1)
            &&& is_wrapped(s.request.secrets->0[s.secrets.len() - 1].1, pkcs8)
        },
        session::StageView::WalletOpening => {
            &&& all_opened(s, pkcs8)
            &&& s.request.encrypted_key is Some
        },
        session::StageView::WalletKeyId | session::StageView::WalletDraw(_) => {
            &&& all_opened(s, pkcs8)
            &&& s.request.encrypted_key is None
        },
        session::StageView::SealWallet => {
            &&& all_opened(s, pkcs8)
            &&& s.request.encrypted_key is None
            &&& s.wallet is Some
        },
        session::StageView::Running | session::StageView::Attesting => {
            &&& all_opened(s, pkcs8)
            &&& wallet_is_right(s)
        },
        session::StageView::Done => true,
    }
}

/// A request begins sound.
pub proof fn law_begun_is_sound(r: request::RequestView, pkcs8: Seq<u8>)
    ensures
        sound(session::begun(r, pkcs8).0, pkcs8),
{
}

proof fn lemma_next_secret(
    s: session::SessionView,
    list: Seq<(Seq<char>, Option<Seq<char>>)>,
    pkcs8: Seq<u8>,
)
    requires
        code_is_right(s.request, s.code),
        sealed_key_is_right(s),
        s.request.secrets == Some(list),
        secrets_are_right(s, pkcs8, s.secrets.len() as int),
    ensures
        sound(session::next_secret(s, list, pkcs8).0, pkcs8),
{
}

proof fn lemma_code_ready(s: session::SessionView, pkcs8: Seq<u8>)
    requires
        code_is_right(s.request, s.code),
        sealed_key_is_right(s),
        s.secrets.len() == 0,
        s.sealed_secrets.len() == 0,
    ensures
        sound(session::code_ready(s, pkcs8).0, pkcs8),
{
    if let Some(list) = s.request.secrets {
        assert(names(s.sealed_secrets) =~= wrapped_names(list, pkcs8, 0));
        lemma_next_secret(s, list, pkcs8);
    }
}

/// Whatever happens, a request stays sound.
pub proof fn law_next_keeps_sound(s: session::SessionView, pkcs8: Seq<u8>, e: session::EventView)
    requires
        sound(s, pkcs8),
    ensures
        sound(session::next(s, pkcs8, e).0, pkcs8),
{
    match (s.stage, e) {
        (session::StageView::Connecting, session::EventView::Connected) => {
            match s.request.encrypted_code {
                None => {
                    lemma_code_ready(
                        session::SessionView { code: s.request.agent_code, ..s },
                        pkcs8,
                    );
                },
                Some(_) => {
                    let t = session::next(s, pkcs8, e).0;
                    if let session::StageView::CodeKeyId(raw) = t.stage {
                        assert(opens(raw, t.request, t.code));
                    }
                },
            }
        },
        (session::StageView::CodeKey, session::EventView::Kms(r)) => {
            if let Ok(raw) = session::kms_plaintext(r) {
                if let Ok(code) = session::opened_code(
                    raw,
                    s.request.aes_iv->0,
                    s.request.encrypted_code->0,
                ) {
                    assert(opens(raw, s.request, code));
                    lemma_code_ready(session::SessionView { code, ..s }, pkcs8);
                }
            }
        },
        (session::StageView::SealCodeKey, session::EventView::Kms(r)) => {
            if let Ok(sealed) = session::kms_sealed(r) {
                lemma_code_ready(session::SessionView { sealed_key: Some(sealed), ..s }, pkcs8);
            }
        },
        (session::StageView::SecretOpening(_), session::EventView::Kms(r)) => {
            let list = s.request.secrets->0;
            let n = s.secrets.len() as int;
            if let Ok(plain) = session::kms_plaintext(r) {
                if let Ok(secret) = encoding::utf8_result(plain) {
                    let t = session::SessionView {
                        secrets: s.secrets.push((list[n].0, secret)),
                        ..s
                    };
                    assert(wrapped_names(list, pkcs8, n + 1) == wrapped_names(list, pkcs8, n));
                    lemma_next_secret(t, list, pkcs8);
                }
            }
        },
        (session::StageView::SealSecret, session::EventView::Kms(r)) => {
            let list = s.request.secrets->0;
            let n = s.secrets.len() as int;
            if let Ok(sealed) = session::kms_sealed(r) {
                let t = session::SessionView {
                    sealed_secrets: s.sealed_secrets.push((s.secrets.last().0, sealed)),
                    ..s
                };
                assert(names(t.sealed_secrets) =~= names(s.sealed_secrets).push(
                    s.secrets.last().0,
                ));
                assert(s.secrets[n - 1].0 == list[n - 1].0);
                lemma_next_secret(t, list, pkcs8);
            }
        },
        _ => {},
    }
}

/// A request after a number of events.
pub open spec fn after(
    r: request::RequestView,
    pkcs8: Seq<u8>,
    events: Seq<session::EventView>,
) -> session::SessionView
    decreases events.len(),
{
    if events.len() == 0 {
        session::begun(r, pkcs8).0
    } else {
        session::next(after(r, pkcs8, events.drop_last()), pkcs8, events.last()).0
    }
}

/// Every request is sound at every moment, and is still the one that it was.
pub proof fn law_every_request_is_sound(
    r: request::RequestView,
    pkcs8: Seq<u8>,
    events: Seq<session::EventView>,
)
    ensures
        sound(after(r, pkcs8, events), pkcs8),
        after(r, pkcs8, events).request == r,
    decreases events.len(),
{
    if events.len() == 0 {
        law_begun_is_sound(r, pkcs8);
    } else {
        law_every_request_is_sound(r, pkcs8, events.drop_last());
        let s = after(r, pkcs8, events.drop_last());
        law_next_keeps_sound(s, pkcs8, events.last());
        law_request_stays(s, pkcs8, events.last());
    }
}

/// What is run is what the request asks for: its code as it came or as it was
/// opened, all of its secrets under their names, and its payload. An encrypted
/// text is never run.
pub proof fn law_only_opened_code_runs(
    s: session::SessionView,
    pkcs8: Seq<u8>,
    e: session::EventView,
)
    requires
        sound(s, pkcs8),
    ensures
        session::next(s, pkcs8, e).1 matches session::ActionView::Run {
            code,
            secrets,
            wallet,
            payload,
        } ==> {
            &&& code_is_right(s.request, code)
            &&& s.request.secrets is Some
            &&& secrets.len() == s.request.secrets->0.len()
            &&& forall|i: int|
                0 <= i < secrets.len() ==> {
                    &&& (#[trigger] secrets[i]).0 == s.request.secrets->0[i].0
                    &&& is_wrapped(s.request.secrets->0[i].1, pkcs8) ==> unwrapped(
                        s.request.secrets->0[i].1,
                        pkcs8,
                    ) == Ok::<Seq<char>, Seq<char>>(secrets[i].1)
                }
            &&& payload == s.request.payload
        },
{
    law_next_keeps_sound(s, pkcs8, e);
}

/// The key that is sealed is the one that was asked for by id.
pub proof fn law_sealed_under_the_id_that_was_read(
    s: session::SessionView,
    pkcs8: Seq<u8>,
    e: session::EventView,
)
    ensures
        session::next(s, pkcs8, e).1 matches session::ActionView::Encrypt {
            key_id,
            plaintext,
        } ==> e == session::EventView::KeyId(Some(key_id)) || (s.stage
            == session::StageView::WalletDraw(key_id) && e == session::EventView::Drawn(
            plaintext,
        )),
{
}

/// The AES key that is sealed for later is the one that was wrapped for the
/// enclave and opens the code.
pub proof fn law_sealed_key_opens_the_code(
    s: session::SessionView,
    pkcs8: Seq<u8>,
    e: session::EventView,
)
    requires
        sound(s, pkcs8),
        s.stage is CodeKeyId,
    ensures
        session::next(s, pkcs8, e).1 matches session::ActionView::Encrypt {
            key_id,
            plaintext,
        } ==> {
            &&& opens(plaintext, s.request, s.code)
            &&& plaintext.len() == 32
            &&& keys::aes_key_result(
                keys::oaep_b64_result(pkcs8, s.request.encrypted_aes_key->0),
            ) == Ok::<Seq<u8>, Seq<char>>(plaintext)
        },
{
}

/// A secret is sealed as it is handed to the code.
pub proof fn law_sealed_secret_is_the_opened_one(
    s: session::SessionView,
    pkcs8: Seq<u8>,
    e: session::EventView,
)
    requires
        sound(s, pkcs8),
        s.stage is SecretKeyId,
    ensures
        session::next(s, pkcs8, e).1 matches session::ActionView::Encrypt {
            key_id,
            plaintext,
        } ==> plaintext == encode_utf8(s.secrets.last().1),
{
}

/// A run takes the code and the wallet of the request under way.
proof fn lemma_run(s: session::SessionView, pkcs8: Seq<u8>, e: session::EventView)
    ensures
        session::next(s, pkcs8, e) matches (
            t,
            session::ActionView::Run { code, secrets, wallet, payload },
        ) ==> t.stage is Running && t.wallet == Some(wallet) && t.code == code,
{
}

/// The attestation binds the code that was run and the wallet that it ran with,
/// and the reply names that wallet, the output and the attestation.
pub proof fn law_attestation_binds_code_and_wallet(
    s: session::SessionView,
    pkcs8: Seq<u8>,
    before: session::EventView,
    output: Seq<char>,
    document: Option<Seq<u8>>,
)
    ensures
        session::next(s, pkcs8, before) matches (
            t,
            session::ActionView::Run { code, secrets, wallet, payload },
        ) ==> {
            let (u, attest) = session::next(t, pkcs8, session::EventView::Ran(output));
            let (v, answer) = session::next(u, pkcs8, session::EventView::Attested(document));
            &&& attest == (session::ActionView::Attest {
                public_key: wallet::public_point(wallet),
                user_data: wallet::keccak256(encode_utf8(code)),
            })
            &&& answer == (session::ActionView::Reply {
                text: json::json_text(
                    reply::success_members(
                        wallet::eth_address(wallet::public_point(wallet)),
                        output,
                        session::attestation_text(document),
                        t.encrypted_key,
                        t.sealed_key,
                        t.sealed_secrets,
                    ),
                ),
                kind: session::ReplyKind::Success,
            })
        },
{
    lemma_run(s, pkcs8, before);
}

/// What the key service is asked to decrypt is what the request brings: the
/// sealed key of the code, a secret that is not wrapped for the enclave, or the
/// wallet.
pub proof fn law_decrypts_what_the_request_brings(
    s: session::SessionView,
    pkcs8: Seq<u8>,
    e: session::EventView,
)
    requires
        sound(s, pkcs8),
    ensures
        session::next(s, pkcs8, e) matches (t, session::ActionView::Decrypt(data)) ==> {
            let sent = Ok::<Seq<u8>, Seq<char>>(data);
            ||| t.stage is CodeKey && session::kms_ciphertext(t.request.sealed_aes_key->0) == sent
            ||| t.stage is SecretOpening && session::kms_ciphertext(
                json::filled(t.request.secrets->0[t.secrets.len() as int].1)->0,
            ) == sent
            ||| t.stage is WalletOpening && encoding::base64_result(
                text::trimmed(t.request.encrypted_key->0),
            ) == sent
        },
{
}

/// The reply to a request that was carried out holds a sealed key just where the
/// code's key came wrapped for the enclave, a sealed secret just for those secrets
/// that did, and the sealed wallet that the request brought, if it brought one.
pub proof fn law_reply_holds_what_was_sealed(
    s: session::SessionView,
    pkcs8: Seq<u8>,
    document: Option<Seq<u8>>,
)
    requires
        sound(s, pkcs8),
        s.stage is Attesting,
    ensures
        session::next(s, pkcs8, session::EventView::Attested(document)).1
            == (session::ActionView::Reply {
            text: json::json_text(session::outcome(s, s.wallet->0, document)),
            kind: session::ReplyKind::Success,
        }),
        s.sealed_key is Some <==> key_is_wrapped(s.request),
        names(s.sealed_secrets) == wrapped_names(
            s.request.secrets->0,
            pkcs8,
            s.request.secrets->0.len() as int,
        ),
        s.request.encrypted_key is Some ==> s.encrypted_key == s.request.encrypted_key->0,
{
}

/// The names of the wrapped secrets are names of secrets, and no two of them are
/// alike.
proof fn lemma_wrapped_names(
    list: Seq<(Seq<char>, Option<Seq<char>>)>,
    pkcs8: Seq<u8>,
    n: int,
)
    requires
        0 <= n <= list.len(),
        json::distinct_names(list),
    ensures
        forall|i: int|
            0 <= i < wrapped_names(list, pkcs8, n).len() ==> exists|k: int|
                0 <= k < n && (#[trigger] list[k]).0 == (#[trigger] wrapped_names(
                    list,
                    pkcs8,
                    n,
                )[i]),
        wrapped_names(list, pkcs8, n).no_duplicates(),
    decreases n,
{
    if n > 0 {
        lemma_wrapped_names(list, pkcs8, n - 1);
        let before = wrapped_names(list, pkcs8, n - 1);
        let all = wrapped_names(list, pkcs8, n);
        assert forall|i: int| 0 <= i < before.len() implies before[i] != list[n - 1].0 by {
            let k = choose|k: int| 0 <= k < n - 1 && (#[trigger] list[k]).0 == before[i];
            assert(list[k].0 == before[i]);
        }
        assert forall|i: int| 0 <= i < all.len() implies exists|k: int|
            0 <= k < n && (#[trigger] list[k]).0 == (#[trigger] all[i]) by {
            if i < before.len() {
                assert(all[i] == before[i]);
                let k = choose|k: int| 0 <= k < n - 1 && (#[trigger] list[k]).0 == before[i];
                assert(list[k].0 == all[i]);
            } else {
                assert(list[n - 1].0 == all[i]);
            }
        }
    }
}

/// The sealed secrets of a request that came as JSON, where there are any, read back
/// from the reply, each under its name.
pub proof fn law_sealed_secrets_read_back(
    s: session::SessionView,
    pkcs8: Seq<u8>,
    document: Option<Seq<u8>>,
    text: Seq<char>,
)
    requires
        sound(s, pkcs8),
        s.stage is Attesting,
        request::has_distinct_secrets(s.request),
        s.sealed_secrets.len() > 0,
        json::is_readable(text),
        text == json::json_text(session::outcome(s, s.wallet->0, document)),
    ensures
        json::lookup(json::json_members(text), "kms_sealed_secrets"@) matches Some(
            json::FieldView::Object(found),
        ) && json::distinct_names(found) && found.to_set() == s.sealed_secrets.map_values(
            |p: (Seq<char>, Seq<char>)| (p.0, Some(p.1)),
        ).to_set(),
{
    let list = s.request.secrets->0;
    lemma_wrapped_names(list, pkcs8, list.len() as int);
    assert forall|i: int, j: int| 0 <= i < j < s.sealed_secrets.len() implies (
    #[trigger] s.sealed_secrets[i]).0 != (#[trigger] s.sealed_secrets[j]).0 by {
        assert(names(s.sealed_secrets)[i] == s.sealed_secrets[i].0);
        assert(names(s.sealed_secrets)[j] == s.sealed_secrets[j].0);
    }
    reply::law_success_reads_back(
        text,
        wallet::eth_address(wallet::public_point(s.wallet->0)),
        s.output,
        session::attestation_text(document),
        s.encrypted_key,
        s.sealed_key,
        s.sealed_secrets,
    );
}

/// A reply is the last thing that a request wants done, and there is only one.
pub proof fn law_reply_is_last(s: session::SessionView, pkcs8: Seq<u8>, e: session::EventView)
    ensures
        session::next(s, pkcs8, e).1 is Reply ==> session::next(s, pkcs8, e).0.stage is Done,
        s.stage is Done ==> session::next(s, pkcs8, e) == (s, session::ActionView::Nothing),
{
}

/// Encrypted code with both forms of its key, or with neither, or without its
/// nonce, is refused before anything is decrypted.
pub proof fn law_code_needs_one_key(s: session::SessionView, pkcs8: Seq<u8>)
    requires
        s.stage is Connecting,
        s.request.encrypted_code is Some,
        s.request.aes_iv is None || (s.request.encrypted_aes_key is Some
            <==> s.request.sealed_aes_key is Some),
    ensures
        session::next(s, pkcs8, session::EventView::Connected).1 matches
            session::ActionView::Reply { kind, .. } && kind == session::ReplyKind::Refusal,
{
}

/// The request does not change under way.
pub proof fn law_request_stays(s: session::SessionView, pkcs8: Seq<u8>, e: session::EventView)
    ensures
        session::next(s, pkcs8, e).0.request == s.request,
{
}

/// The events that a request waits for.
pub open spec fn awaits(s: session::SessionView, e: session::EventView) -> bool {
    match s.stage {
        session::StageView::Connecting => e is Connected,
        session::StageView::CodeKey
        | session::StageView::SealCodeKey
        | session::StageView::SecretOpening(_)
        | session::StageView::SealSecret
        | session::StageView::WalletOpening
        | session::StageView::SealWallet => e is Kms,
        session::StageView::CodeKeyId(_)
        | session::StageView::SecretKeyId
        | session::StageView::WalletKeyId => e is KeyId,
        session::StageView::WalletDraw(_) => e is Drawn,
        session::StageView::Running => e is Ran,
        session::StageView::Attesting => e is Attested,
        session::StageView::Done => false,
    }
}

/// How many secrets are still to be opened.
pub open spec fn secrets_left(s: session::SessionView) -> int {
    match s.request.secrets {
        Some(list) => if list.len() > s.secrets.len() {
            list.len() - s.secrets.len()
        } else {
            0
        },
        None => 0,
    }
}

/// A bound on the number of events that a request still takes.
pub open spec fn events_left(s: session::SessionView) -> int {
    let r = 3 * secrets_left(s);
    match s.stage {
        session::StageView::Connecting => 10 + r,
        session::StageView::CodeKeyId(_) => 9 + r,
        session::StageView::CodeKey | session::StageView::SealCodeKey => 8 + r,
        session::StageView::SecretKeyId => 7 + r,
        session::StageView::SealSecret => 6 + r,
        session::StageView::SecretOpening(_) => 5 + r,
        session::StageView::WalletKeyId | session::StageView::WalletOpening => 5,
        session::StageView::WalletDraw(_) => 4,
        session::StageView::SealWallet => 3,
        session::StageView::Running => 2,
        session::StageView::Attesting => 1,
        session::StageView::Done => 0,
    }
}

/// A request comes to an end: each event that it waits for brings it nearer, and
/// has it do something; other events change nothing.
pub proof fn law_request_ends(s: session::SessionView, pkcs8: Seq<u8>, e: session::EventView)
    requires
        sound(s, pkcs8),
    ensures
        awaits(s, e) ==> {
            &&& 0 <= events_left(session::next(s, pkcs8, e).0) < events_left(s)
            &&& !(session::next(s, pkcs8, e).1 is Nothing)
        },
        !awaits(s, e) ==> session::next(s, pkcs8, e) == (s, session::ActionView::Nothing),
{
}

/// A refusal says what is wrong, in one form.
pub proof fn law_refusals_have_one_form(
    s: session::SessionView,
    pkcs8: Seq<u8>,
    e: session::EventView,
)
    ensures
        session::next(s, pkcs8, e).1 matches session::ActionView::Reply { text, kind } ==> kind
            != session::ReplyKind::Success ==> exists|message: Seq<char>|
            text == json::json_text(#[trigger] reply::error_members(message)),
{
}

/// What one request has sealed for its code, another one can bring instead of the
/// wrapped key: if the key service gives back what it was given, the same code is
/// found.
pub proof fn law_sealed_key_works_again(
    deployed: session::SessionView,
    sealed: Seq<u8>,
    s: session::SessionView,
    pkcs8: Seq<u8>,
)
    requires
        sound(deployed, pkcs8),
        deployed.stage is CodeKeyId,
        s.stage is Connecting,
        s.request.encrypted_code == deployed.request.encrypted_code,
        s.request.aes_iv == deployed.request.aes_iv,
        s.request.encrypted_aes_key is None,
        session::kms_sealed(session::KmsView::Data(sealed)) matches Ok(t)
            && s.request.sealed_aes_key == Some(t),
    ensures
        ({
            let raw = deployed.stage->CodeKeyId_0;
            let (waiting, asked) = session::next(s, pkcs8, session::EventView::Connected);
            &&& asked == session::ActionView::Decrypt(sealed)
            &&& session::next(
                waiting,
                pkcs8,
                session::EventView::Kms(session::KmsView::Data(raw)),
            ) == session::code_ready(
                session::SessionView { code: deployed.code, ..waiting },
                pkcs8,
            )
        }),
{
    encoding::law_base64_survives_trimming(sealed);
}

/// A new wallet that was sealed can be brought by another request: if the key
/// service gives back what it was given, the code runs with the same wallet.
pub proof fn law_sealed_wallet_works_again(
    key: Seq<u8>,
    sealed: Seq<u8>,
    s: session::SessionView,
    pkcs8: Seq<u8>,
)
    requires
        wallet::is_private_key(key),
        s.request.encrypted_key == Some(encoding::base64_text(sealed)),
    ensures
        ({
            let (waiting, asked) = session::wallet_wanted(s);
            &&& asked == session::ActionView::Decrypt(sealed)
            &&& session::next(
                waiting,
                pkcs8,
                session::EventView::Kms(session::KmsView::Data(key)),
            ) == session::ready_to_run(
                session::SessionView {
                    wallet: Some(key),
                    encrypted_key: encoding::base64_text(sealed),
                    ..waiting
                },
                key,
            )
        }),
{
    encoding::law_base64_survives_trimming(sealed);
    assert(wallet::padded(key) =~= key);
}

/// A secret that was sealed can be brought by another request: if the key service
/// gives back what it was given, and the enclave's key does not open it, the code
/// gets the same secret.
pub proof fn law_sealed_secret_works_again(
    secret: Seq<char>,
    sealed: Seq<u8>,
    s: session::SessionView,
    list: Seq<(Seq<char>, Option<Seq<char>>)>,
    pkcs8: Seq<u8>,
)
    requires
        s.request.secrets == Some(list),
        s.secrets.len() < list.len(),
        sealed.len() > 0,
        list[s.secrets.len() as int].1 == Some(encoding::base64_text(sealed)),
        keys::oaep_b64_result(pkcs8, encoding::base64_text(sealed)) is Err,
    ensures
        ({
            let (waiting, asked) = session::next_secret(s, list, pkcs8);
            let name = list[s.secrets.len() as int].0;
            &&& asked == session::ActionView::Decrypt(sealed)
            &&& session::next(
                waiting,
                pkcs8,
                session::EventView::Kms(session::KmsView::Data(encode_utf8(secret))),
            ) == session::next_secret(
                session::SessionView { secrets: s.secrets.push((name, secret)), ..waiting },
                list,
                pkcs8,
            )
        }),
{
    encoding::law_base64_survives_trimming(sealed);
    encoding::lemma_base64_len(sealed);
    encode_utf8_valid_utf8(secret);
    encode_utf8_decode_utf8(secret);
}

} // verus!
