//! The JSON that goes back to the host.

use vstd::prelude::*;

use crate::json;
use crate::json::Out;
use crate::text;

verus! {

/// The members of a refusal: what went wrong, and the other members of a reply,
/// empty.
pub open spec fn error_members(message: Seq<char>) -> Seq<(Seq<char>, json::OutView)> {
    seq![
        ("status"@, json::OutView::Text("error"@)),
        ("message"@, json::OutView::Text(message)),
        ("wallet_address"@, json::OutView::Null),
        ("execution_output"@, json::OutView::Text(seq![])),
        ("attestation_b64"@, json::OutView::Text(seq![])),
        ("encrypted_key_b64"@, json::OutView::Text(seq![])),
    ]
}

/// The members of the reply that hands out the enclave's public key.
pub open spec fn key_members(pem: Seq<char>) -> Seq<(Seq<char>, json::OutView)> {
    seq![
        ("status"@, json::OutView::Text("success"@)),
        ("public_key_pem"@, json::OutView::Text(pem)),
    ]
}

/// The members of the reply to a request that was carried out. The sealed key and
/// the sealed secrets are there only where something was sealed.
pub open spec fn success_members(
    address: Seq<char>,
    output: Seq<char>,
    attestation: Seq<char>,
    encrypted_key: Seq<char>,
    sealed_key: Option<Seq<char>>,
    sealed_secrets: Seq<(Seq<char>, Seq<char>)>,
) -> Seq<(Seq<char>, json::OutView)> {
    seq![
        ("status"@, json::OutView::Text("success"@)),
        ("wallet_address"@, json::OutView::Text(address)),
        ("execution_output"@, json::OutView::Text(output)),
        ("attestation_b64"@, json::OutView::Text(attestation)),
        ("encrypted_key_b64"@, json::OutView::Text(encrypted_key)),
    ] + (match sealed_key {
        Some(s) => seq![("kms_sealed_aes_key_b64"@, json::OutView::Text(s))],
        None => seq![],
    }) + (if sealed_secrets.len() > 0 {
        seq![("kms_sealed_secrets"@, json::OutView::Object(sealed_secrets))]
    } else {
        seq![]
    })
}

/// The names of a reply's members are no two alike.
proof fn lemma_names()
    ensures
        "status"@ != "message"@,
        "status"@ != "wallet_address"@,
        "status"@ != "execution_output"@,
        "status"@ != "attestation_b64"@,
        "status"@ != "encrypted_key_b64"@,
        "status"@ != "public_key_pem"@,
        "status"@ != "kms_sealed_aes_key_b64"@,
        "status"@ != "kms_sealed_secrets"@,
        "message"@ != "wallet_address"@,
        "message"@ != "execution_output"@,
        "message"@ != "attestation_b64"@,
        "message"@ != "encrypted_key_b64"@,
        "wallet_address"@ != "execution_output"@,
        "wallet_address"@ != "attestation_b64"@,
        "wallet_address"@ != "encrypted_key_b64"@,
        "wallet_address"@ != "kms_sealed_aes_key_b64"@,
        "wallet_address"@ != "kms_sealed_secrets"@,
        "execution_output"@ != "attestation_b64"@,
        "execution_output"@ != "encrypted_key_b64"@,
        "execution_output"@ != "kms_sealed_aes_key_b64"@,
        "execution_output"@ != "kms_sealed_secrets"@,
        "attestation_b64"@ != "encrypted_key_b64"@,
        "attestation_b64"@ != "kms_sealed_aes_key_b64"@,
        "attestation_b64"@ != "kms_sealed_secrets"@,
        "encrypted_key_b64"@ != "kms_sealed_aes_key_b64"@,
        "encrypted_key_b64"@ != "kms_sealed_secrets"@,
        "kms_sealed_aes_key_b64"@ != "kms_sealed_secrets"@,
{
    reveal_strlit("status");
    reveal_strlit("message");
    reveal_strlit("wallet_address");
    reveal_strlit("execution_output");
    reveal_strlit("attestation_b64");
    reveal_strlit("encrypted_key_b64");
    reveal_strlit("public_key_pem");
    reveal_strlit("kms_sealed_aes_key_b64");
    reveal_strlit("kms_sealed_secrets");
    assert("status"@[0] == 's');
    assert("message"@[0] == 'm');
    assert("wallet_address"@[0] == 'w');
    assert("execution_output"@[1] == 'x');
    assert("attestation_b64"@[0] == 'a');
    assert("encrypted_key_b64"@[1] == 'n');
    assert("public_key_pem"@[0] == 'p');
    assert("kms_sealed_aes_key_b64"@[11] == 'a');
    assert("kms_sealed_secrets"@[11] == 's');
    assert("kms_sealed_aes_key_b64"@[0] == 'k');
    assert("kms_sealed_secrets"@[0] == 'k');
    assert("execution_output"@[0] == 'e');
    assert("encrypted_key_b64"@[0] == 'e');
}

fn text_member(name: &str, value: &str) -> (r: (String, Out))
    ensures
        (r.0@, r.1@) == (name@, json::OutView::Text(value@)),
{
    (name.to_string(), Out::Text(value.to_string()))
}

/// The reply to a request that is refused.
pub fn error_response(message: &str) -> (r: String)
    ensures
        r@ == json::json_text(error_members(message@)),
        json::reads_as(r@, error_members(message@)),
        json::is_readable(r@),
{
    let mut members: Vec<(String, Out)> = Vec::new();
    members.push(text_member("status", "error"));
    members.push(text_member("message", message));
    members.push(("wallet_address".to_string(), Out::Null));
    members.push(text_member("execution_output", ""));
    members.push(text_member("attestation_b64", ""));
    members.push(text_member("encrypted_key_b64", ""));
    proof {
        reveal_strlit("");
        assert(""@ =~= Seq::<char>::empty());
        assert(json::outs(members@) =~= error_members(message@));
        lemma_names();
        assert(json::distinct_names(error_members(message@)));
    }
    json::object_text(members)
}

/// The reply that hands out the enclave's public key.
pub fn key_response(pem: &str) -> (r: String)
    ensures
        r@ == json::json_text(key_members(pem@)),
        json::reads_as(r@, key_members(pem@)),
        json::is_readable(r@),
{
    let mut members: Vec<(String, Out)> = Vec::new();
    members.push(text_member("status", "success"));
    members.push(text_member("public_key_pem", pem));
    proof {
        assert(json::outs(members@) =~= key_members(pem@));
        lemma_names();
        assert(json::distinct_names(key_members(pem@)));
    }
    json::object_text(members)
}

/// The reply to a request that was carried out.
pub fn success_response(
    address: &str,
    output: &str,
    attestation: &str,
    encrypted_key: &str,
    sealed_key: &Option<String>,
    sealed_secrets: Vec<(String, String)>,
) -> (r: String)
    ensures
        ({
            let members = success_members(
                address@,
                output@,
                attestation@,
                encrypted_key@,
                text::optional_text(*sealed_key),
                text::pairs(sealed_secrets@),
            );
            r@ == json::json_text(members) && json::reads_as(r@, members)
        }),
        json::is_readable(r@),
{
    let ghost expected = success_members(
        address@,
        output@,
        attestation@,
        encrypted_key@,
        text::optional_text(*sealed_key),
        text::pairs(sealed_secrets@),
    );
    let mut members: Vec<(String, Out)> = Vec::new();
    members.push(text_member("status", "success"));
    members.push(text_member("wallet_address", address));
    members.push(text_member("execution_output", output));
    members.push(text_member("attestation_b64", attestation));
    members.push(text_member("encrypted_key_b64", encrypted_key));
    if let Some(s) = sealed_key {
        members.push(text_member("kms_sealed_aes_key_b64", s.as_str()));
    }
    if sealed_secrets.len() > 0 {
        members.push(("kms_sealed_secrets".to_string(), Out::Object(sealed_secrets)));
    }
    proof {
        assert(json::outs(members@) =~= expected);
        lemma_names();
        assert(json::distinct_names(expected));
    }
    json::object_text(members)
}

/// A refusal reads back as an error with its message, no wallet address, and
/// nothing in the other members, of which there are six in all.
pub proof fn law_refusal_reads_back(text: Seq<char>, message: Seq<char>)
    requires
        json::is_readable(text),
        text == json::json_text(error_members(message)),
    ensures
        json::json_parsed(text) is Object,
        json::json_members(text).len() == 6,
        json::only_written(json::json_members(text), error_members(message)),
        json::text_field(json::json_members(text), "status"@) == Some("error"@),
        json::text_field(json::json_members(text), "message"@) == Some(message),
        json::lookup(json::json_members(text), "wallet_address"@) == Some(json::FieldView::Null),
        json::text_field(json::json_members(text), "execution_output"@) == Some(
            Seq::<char>::empty(),
        ),
        json::text_field(json::json_members(text), "attestation_b64"@) == Some(
            Seq::<char>::empty(),
        ),
        json::text_field(json::json_members(text), "encrypted_key_b64"@) == Some(
            Seq::<char>::empty(),
        ),
{
    lemma_names();
    let m = error_members(message);
    assert(json::distinct_names(m));
    assert(json::reads_as(text, m));
    assert(m[0].1 == json::OutView::Text("error"@));
    assert(m[1].1 == json::OutView::Text(message));
    assert(m[2].1 == json::OutView::Null);
    assert(m[3].1 == json::OutView::Text(seq![]));
    assert(m[4].1 == json::OutView::Text(seq![]));
    assert(m[5].1 == json::OutView::Text(seq![]));
}

/// The reply with the public key reads back as a success with the key, and nothing
/// else.
pub proof fn law_key_reads_back(text: Seq<char>, pem: Seq<char>)
    requires
        json::is_readable(text),
        text == json::json_text(key_members(pem)),
    ensures
        json::json_parsed(text) is Object,
        json::json_members(text).len() == 2,
        json::only_written(json::json_members(text), key_members(pem)),
        json::text_field(json::json_members(text), "status"@) == Some("success"@),
        json::text_field(json::json_members(text), "public_key_pem"@) == Some(pem),
{
    lemma_names();
    let m = key_members(pem);
    assert(json::distinct_names(m));
    assert(json::reads_as(text, m));
    assert(m[0].1 == json::OutView::Text("success"@));
    assert(m[1].1 == json::OutView::Text(pem));
}

/// The reply to a request that was carried out reads back as a success with its
/// parts, the sealed key and the sealed secrets just where there are any, and nothing
/// else.
pub proof fn law_success_reads_back(
    text: Seq<char>,
    address: Seq<char>,
    output: Seq<char>,
    attestation: Seq<char>,
    encrypted_key: Seq<char>,
    sealed_key: Option<Seq<char>>,
    sealed_secrets: Seq<(Seq<char>, Seq<char>)>,
)
    requires
        json::is_readable(text),
        text == json::json_text(
            success_members(
                address,
                output,
                attestation,
                encrypted_key,
                sealed_key,
                sealed_secrets,
            ),
        ),
    ensures
        json::text_field(json::json_members(text), "status"@) == Some("success"@),
        json::text_field(json::json_members(text), "wallet_address"@) == Some(address),
        json::text_field(json::json_members(text), "execution_output"@) == Some(output),
        json::text_field(json::json_members(text), "attestation_b64"@) == Some(attestation),
        json::text_field(json::json_members(text), "encrypted_key_b64"@) == Some(encrypted_key),
        json::json_parsed(text) is Object,
        json::only_written(
            json::json_members(text),
            success_members(
                address,
                output,
                attestation,
                encrypted_key,
                sealed_key,
                sealed_secrets,
            ),
        ),
        json::text_field(json::json_members(text), "kms_sealed_aes_key_b64"@) == sealed_key,
        sealed_key is None ==> json::lookup(
            json::json_members(text),
            "kms_sealed_aes_key_b64"@,
        ) is None,
        sealed_secrets.len() == 0 ==> json::lookup(
            json::json_members(text),
            "kms_sealed_secrets"@,
        ) is None,
        sealed_secrets.len() > 0 ==> json::reads_back(
            json::lookup(json::json_members(text), "kms_sealed_secrets"@),
            json::OutView::Object(sealed_secrets),
        ),
{
    lemma_names();
    let m = success_members(
        address,
        output,
        attestation,
        encrypted_key,
        sealed_key,
        sealed_secrets,
    );
    assert(json::distinct_names(m));
    assert(json::reads_as(text, m));
    assert(m[0].1 == json::OutView::Text("success"@));
    assert(m[1].1 == json::OutView::Text(address));
    assert(m[2].1 == json::OutView::Text(output));
    assert(m[3].1 == json::OutView::Text(attestation));
    assert(m[4].1 == json::OutView::Text(encrypted_key));
    match sealed_key {
        Some(s) => {
            assert(m[5].1 == json::OutView::Text(s));
        },
        None => {
            json::lemma_not_written(json::json_members(text), m, "kms_sealed_aes_key_b64"@);
        },
    }
    if sealed_secrets.len() > 0 {
        assert(m[m.len() - 1].1 == json::OutView::Object(sealed_secrets));
    } else {
        json::lemma_not_written(json::json_members(text), m, "kms_sealed_secrets"@);
    }
}

} // verus!
