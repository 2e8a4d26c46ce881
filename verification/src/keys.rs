//! The enclave's RSA key, and the unwrapping of what clients encrypt for it: an
//! AES-256 key under RSA-OAEP, and agent code under AES-256-GCM.

use aes_gcm::aead::Aead;
use aes_gcm::{Aes256Gcm, KeyInit, Nonce};
use rand_core::OsRng;
use rsa::pkcs8::{DecodePrivateKey, EncodePrivateKey, EncodePublicKey};
use rsa::traits::{PrivateKeyParts, PublicKeyParts};
use rsa::RsaPrivateKey;
use vstd::prelude::*;
use vstd::utf8::*;

use crate::encoding;
use crate::text;

verus! {

/// The size in bits of the enclave's RSA key.
pub const RSA_BITS: usize = 2048;

/// The public half of a private key in PKCS#8 form, as PEM text; nothing where
/// the bytes are no such key.
pub uninterp spec fn public_pem(pkcs8: Seq<u8>) -> Option<Seq<char>>;

/// The number of bits in the modulus of a private key in PKCS#8 form; nothing where
/// the bytes are no such key.
pub uninterp spec fn modulus_bits(pkcs8: Seq<u8>) -> Option<nat>;

/// The number of bits in each of the two primes of a private key in PKCS#8 form;
/// nothing where the bytes are no such key.
pub uninterp spec fn prime_bits(pkcs8: Seq<u8>) -> Option<(nat, nat)>;

/// Whether the primes of a private key are of about the same size, as those of a key
/// made for use are: the second has at most one bit more than the first.
pub open spec fn is_balanced(pkcs8: Seq<u8>) -> bool {
    prime_bits(pkcs8) matches Some((p, q)) && q <= p + 1
}

/// What a private key in PKCS#8 form makes of a message under RSA-OAEP with
/// SHA-256: the plaintext, or the decoder's complaint.
pub uninterp spec fn oaep_opened(pkcs8: Seq<u8>, sealed: Seq<u8>) -> Result<Seq<u8>, Seq<char>>;

/// What AES-256-GCM makes of a ciphertext with its tag behind it: the plaintext,
/// where the tag is right.
pub uninterp spec fn gcm_opened(key: Seq<u8>, nonce: Seq<u8>, sealed: Seq<u8>) -> Option<Seq<u8>>;

/// `RsaPrivateKey::new` of the crate `rsa`, with the operating system's random
/// numbers, in PKCS#8 form; nothing where it fails. The modulus of the key has as
/// many bits as were asked for. Which key it is, and whether there is one, rests on
/// chance: two numbers that pass as primes may still share a factor, and then the
/// key has no PKCS#8 form. So neither is claimed.
#[verifier::external_body]
fn new_rsa_key(bits: usize) -> (pkcs8: Option<Vec<u8>>)
    requires
        64 <= bits <= 16384,
    ensures
        pkcs8 matches Some(key) ==> modulus_bits(key@) == Some(bits as nat),
{
    let key = RsaPrivateKey::new(&mut OsRng, bits).ok()?;
    Some(key.to_pkcs8_der().ok()?.as_bytes().to_vec())
}

/// `to_public_key_pem` of the crate `rsa`, with line feeds, on the public half of
/// a private key in PKCS#8 form. The text depends on the bytes alone.
#[verifier::external_body]
fn rsa_public_pem(pkcs8: &[u8]) -> (pem: Option<String>)
    ensures
        match pem {
            Some(p) => public_pem(pkcs8@) == Some(p@),
            None => public_pem(pkcs8@) is None,
        },
{
    let key = RsaPrivateKey::from_pkcs8_der(pkcs8).ok()?;
    key.to_public_key().to_public_key_pem(rsa::pkcs8::LineEnding::LF).ok()
}

/// `n` of the crate `rsa` on a private key in PKCS#8 form, and the number of its
/// bits. It depends on the bytes alone.
#[verifier::external_body]
fn rsa_modulus_bits(pkcs8: &[u8]) -> (r: Option<usize>)
    ensures
        match r {
            Some(n) => modulus_bits(pkcs8@) == Some(n as nat),
            None => modulus_bits(pkcs8@) is None,
        },
{
    Some(RsaPrivateKey::from_pkcs8_der(pkcs8).ok()?.n().bits())
}

/// `primes` of the crate `rsa` on a private key in PKCS#8 form, and the number of
/// bits in each of the two. It depends on the bytes alone.
#[verifier::external_body]
fn rsa_prime_bits(pkcs8: &[u8]) -> (r: Option<(usize, usize)>)
    ensures
        match r {
            Some((p, q)) => prime_bits(pkcs8@) == Some((p as nat, q as nat)),
            None => prime_bits(pkcs8@) is None,
        },
{
    let key = RsaPrivateKey::from_pkcs8_der(pkcs8).ok()?;
    Some((key.primes().first()?.bits(), key.primes().get(1)?.bits()))
}

/// `RsaPrivateKey::decrypt` of the crate `rsa`, with OAEP padding and SHA-256, for
/// a private key in PKCS#8 form. It takes no random numbers: the plaintext, and
/// the wording of an error, depend on the key and the message alone. It adds up the
/// first prime until it passes a number below the second, which takes too long
/// where the second is much larger.
#[verifier::external_body]
fn oaep_open(pkcs8: &[u8], sealed: &[u8]) -> (r: Result<Vec<u8>, String>)
    requires
        is_balanced(pkcs8@),
    ensures
        text::to_bytes_result(r) == oaep_opened(pkcs8@, sealed@),
{
    let key = RsaPrivateKey::from_pkcs8_der(pkcs8).map_err(|e| e.to_string())?;
    let padding = rsa::Oaep::new::<sha2::Sha256>();
    key.decrypt(padding, sealed).map_err(|e| e.to_string())
}

/// `decrypt` of the crate `aes-gcm`, with a key of 32 bytes and a nonce of 12. The
/// plaintext depends on the three arguments alone, and an error has one wording.
#[verifier::external_body]
fn gcm_open(key: &[u8], nonce: &[u8], sealed: &[u8]) -> (r: Result<Vec<u8>, String>)
    requires
        key@.len() == 32,
        nonce@.len() == 12,
    ensures
        match r {
            Ok(plain) => gcm_opened(key@, nonce@, sealed@) == Some(plain@),
            Err(e) => gcm_opened(key@, nonce@, sealed@) is None && e@ == "aead::Error"@,
        },
{
    let cipher = Aes256Gcm::new_from_slice(key).map_err(|e| e.to_string())?;
    cipher.decrypt(Nonce::from_slice(nonce), sealed).map_err(|e| e.to_string())
}

/// The enclave's RSA key: the private key in PKCS#8 form, and its public half as
/// PEM text.
pub struct EnclaveKey {
    pkcs8: Vec<u8>,
    pem: String,
}

impl View for EnclaveKey {
    type V = Seq<u8>;

    closed spec fn view(&self) -> Seq<u8> {
        self.pkcs8@
    }
}

impl EnclaveKey {
    #[verifier::type_invariant]
    spec fn fits(self) -> bool {
        public_pem(self.pkcs8@) == Some(self.pem@) && is_balanced(self.pkcs8@)
    }

    /// A new key of `RSA_BITS` bits, where one can be made, which rests on chance.
    pub fn generate() -> (r: Option<EnclaveKey>)
        ensures
            r matches Some(key) ==> {
                &&& public_pem(key@) is Some
                &&& is_balanced(key@)
                &&& modulus_bits(key@) == Some(RSA_BITS as nat)
                &&& modulus_bits(key@) == Some(2048nat)
            },
    {
        EnclaveKey::from_made(new_rsa_key(RSA_BITS))
    }

    /// The key that was made, where one was made.
    pub fn from_made(made: Option<Vec<u8>>) -> (r: Option<EnclaveKey>)
        ensures
            r is Some <==> made is Some && public_pem(made->0@) is Some && is_balanced(made->0@),
            r matches Some(key) ==> key@ == made->0@,
    {
        match made {
            Some(pkcs8) => EnclaveKey::from_pkcs8(pkcs8),
            None => None,
        }
    }

    /// The key that PKCS#8 bytes hold, where its primes are of about the same size.
    pub fn from_pkcs8(pkcs8: Vec<u8>) -> (r: Option<EnclaveKey>)
        ensures
            r is Some <==> public_pem(pkcs8@) is Some && is_balanced(pkcs8@),
            r matches Some(key) ==> key@ == pkcs8@,
    {
        match (rsa_public_pem(pkcs8.as_slice()), rsa_prime_bits(pkcs8.as_slice())) {
            (Some(pem), Some((p, q))) => {
                if q == 0 || q - 1 <= p {
                    Some(EnclaveKey { pkcs8, pem })
                } else {
                    None
                }
            },
            _ => None,
        }
    }

    /// The size of the key in bits.
    pub fn bits(&self) -> (r: Option<usize>)
        ensures
            match r {
                Some(n) => modulus_bits(self@) == Some(n as nat),
                None => modulus_bits(self@) is None,
            },
    {
        rsa_modulus_bits(self.pkcs8.as_slice())
    }

    /// The public half as PEM text, for clients to wrap their keys with.
    pub fn rsa_public_key_pem(&self) -> (pem: String)
        ensures
            public_pem(self@) == Some(pem@),
    {
        proof {
            use_type_invariant(self);
        }
        self.pem.clone()
    }
}

/// What opening a Base64 text under RSA-OAEP gives.
pub open spec fn oaep_b64_result(pkcs8: Seq<u8>, b64: Seq<char>) -> Result<Seq<u8>, Seq<char>> {
    match encoding::base64_result(text::trimmed(b64)) {
        Err(e) => Err("RSA ciphertext base64: "@ + e),
        Ok(sealed) => match oaep_opened(pkcs8, sealed) {
            Err(e) => Err("RSA OAEP/SHA-256 decrypt: "@ + e),
            Ok(plain) => Ok(plain),
        },
    }
}

/// Opens a Base64 text under RSA-OAEP with SHA-256.
pub fn rsa_decrypt_oaep_b64(key: &EnclaveKey, b64: &str) -> (r: Result<Vec<u8>, String>)
    ensures
        text::to_bytes_result(r) == oaep_b64_result(key@, b64@),
{
    proof {
        use_type_invariant(key);
    }
    match encoding::decode_base64(text::trim(b64).as_str()) {
        Err(e) => Err(text::prefixed("RSA ciphertext base64: ", e.as_str())),
        Ok(sealed) => match oaep_open(key.pkcs8.as_slice(), sealed.as_slice()) {
            Err(e) => Err(text::prefixed("RSA OAEP/SHA-256 decrypt: ", e.as_str())),
            Ok(plain) => Ok(plain),
        },
    }
}

/// The plain values behind a result with an AES key.
pub open spec fn to_key_result(r: Result<[u8; 32], String>) -> Result<Seq<u8>, Seq<char>> {
    match r {
        Ok(key) => Ok(key@),
        Err(e) => Err(e@),
    }
}

/// What unwrapping an AES key comes to, once the RSA message is open.
pub open spec fn aes_key_result(opened: Result<Seq<u8>, Seq<char>>) -> Result<
    Seq<u8>,
    Seq<char>,
> {
    match opened {
        Err(e) => Err("encrypted_aes_key_b64: "@ + e),
        Ok(plain) => if plain.len() == 32 {
            Ok(plain)
        } else {
            Err("RSA plaintext: expected 32-byte AES key, got "@ + text::decimal(plain.len()))
        },
    }
}

/// The first 32 bytes.
pub fn first_32(bytes: &[u8]) -> (r: [u8; 32])
    requires
        bytes@.len() >= 32,
    ensures
        r@ == bytes@.take(32),
{
    let mut r: [u8; 32] = [0u8; 32];
    let mut i: usize = 0;
    while i < 32
        invariant
            i <= 32 <= bytes@.len(),
            r@.take(i as int) == bytes@.take(i as int),
        decreases 32 - i,
    {
        let ghost before = r@;
        r[i] = bytes[i];
        assert(r@.take(i + 1) =~= before.take(i as int).push(bytes@[i as int]));
        assert(bytes@.take(i + 1) =~= bytes@.take(i as int).push(bytes@[i as int]));
        i += 1;
    }
    assert(r@.take(32) =~= r@);
    r
}

/// The AES key in an open RSA message.
pub fn aes256_key(opened: Result<Vec<u8>, String>) -> (r: Result<[u8; 32], String>)
    ensures
        to_key_result(r) == aes_key_result(text::to_bytes_result(opened)),
{
    match opened {
        Err(e) => Err(text::prefixed("encrypted_aes_key_b64: ", e.as_str())),
        Ok(plain) => {
            if plain.len() == 32 {
                assert(plain@.take(32) =~= plain@);
                Ok(first_32(plain.as_slice()))
            } else {
                Err(
                    text::prefixed(
                        "RSA plaintext: expected 32-byte AES key, got ",
                        text::to_decimal(plain.len() as u64).as_str(),
                    ),
                )
            }
        },
    }
}

/// Unwraps an AES-256 key that a client wrapped with the enclave's public key.
pub fn rsa_decrypt_aes256_key_ct(key: &EnclaveKey, b64: &str) -> (r: Result<[u8; 32], String>)
    ensures
        to_key_result(r) == aes_key_result(oaep_b64_result(key@, b64@)),
{
    aes256_key(rsa_decrypt_oaep_b64(key, b64))
}

/// What open agent code comes to as text.
pub open spec fn code_text_result(opened: Result<Seq<u8>, Seq<char>>) -> Result<
    Seq<char>,
    Seq<char>,
> {
    match opened {
        Err(e) => Err("AES-256-GCM decrypt: "@ + e),
        Ok(plain) => match encoding::utf8_result(plain) {
            Ok(code) => Ok(code),
            Err(e) => Err("decrypted code invalid UTF-8: "@ + e),
        },
    }
}

/// What decrypting agent code gives.
pub open spec fn agent_code_result(
    key: Seq<u8>,
    iv_b64: Seq<char>,
    code_b64: Seq<char>,
) -> Result<Seq<char>, Seq<char>> {
    match encoding::base64_result(text::trimmed(iv_b64)) {
        Err(e) => Err("aes_iv_b64: "@ + e),
        Ok(iv) => if iv.len() != 12 {
            Err("AES-GCM nonce: expected 12 bytes, got "@ + text::decimal(iv.len()))
        } else {
            match encoding::base64_result(text::trimmed(code_b64)) {
                Err(e) => Err("encrypted_code_b64: "@ + e),
                Ok(sealed) => code_text_result(
                    match gcm_opened(key, iv, sealed) {
                        Some(plain) => Ok(plain),
                        None => Err("aead::Error"@),
                    },
                ),
            }
        },
    }
}

/// Open agent code as text.
pub fn code_text(opened: Result<Vec<u8>, String>) -> (r: Result<String, String>)
    ensures
        text::to_text_result(r) == code_text_result(text::to_bytes_result(opened)),
{
    match opened {
        Err(e) => Err(text::prefixed("AES-256-GCM decrypt: ", e.as_str())),
        Ok(plain) => match encoding::utf8_text(plain.as_slice()) {
            Ok(code) => Ok(code),
            Err(e) => Err(text::prefixed("decrypted code invalid UTF-8: ", e.as_str())),
        },
    }
}

/// Decrypts agent code: `encrypted_code_b64` is the ciphertext with its tag of 16
/// bytes behind it.
pub fn decrypt_aes_gcm_agent_code(
    aes_key_32: &[u8; 32],
    aes_iv_b64: &str,
    encrypted_code_b64: &str,
) -> (r: Result<String, String>)
    ensures
        text::to_text_result(r) == agent_code_result(
            aes_key_32@,
            aes_iv_b64@,
            encrypted_code_b64@,
        ),
{
    let iv = match encoding::decode_base64(text::trim(aes_iv_b64).as_str()) {
        Err(e) => {
            return Err(text::prefixed("aes_iv_b64: ", e.as_str()));
        },
        Ok(iv) => iv,
    };
    if iv.len() != 12 {
        return Err(
            text::prefixed(
                "AES-GCM nonce: expected 12 bytes, got ",
                text::to_decimal(iv.len() as u64).as_str(),
            ),
        );
    }
    let sealed = match encoding::decode_base64(text::trim(encrypted_code_b64).as_str()) {
        Err(e) => {
            return Err(text::prefixed("encrypted_code_b64: ", e.as_str()));
        },
        Ok(sealed) => sealed,
    };
    code_text(gcm_open(aes_key_32.as_slice(), iv.as_slice(), sealed.as_slice()))
}

/// Whether a text is what the Base64 of a nonce and that of a ciphertext, each perhaps
/// with white space round it, hold under an AES key: the nonce has 12 bytes, and
/// AES-256-GCM opens the ciphertext to exactly the UTF-8 of the text.
pub open spec fn is_plaintext(
    key: Seq<u8>,
    iv_b64: Seq<char>,
    code_b64: Seq<char>,
    code: Seq<char>,
) -> bool {
    exists|iv: Seq<u8>, sealed: Seq<u8>|
        {
            &&& text::trimmed(iv_b64) == #[trigger] encoding::base64_text(iv)
            &&& iv.len() == 12
            &&& text::trimmed(code_b64) == #[trigger] encoding::base64_text(sealed)
            &&& gcm_opened(key, iv, sealed) == Some(encode_utf8(code))
        }
}

/// Decrypting agent code gives the text that was encrypted, the whole of it and as it
/// was, and gives no other.
pub proof fn law_code_is_the_plaintext(
    key: Seq<u8>,
    iv_b64: Seq<char>,
    code_b64: Seq<char>,
    code: Seq<char>,
)
    ensures
        agent_code_result(key, iv_b64, code_b64) == Ok::<Seq<char>, Seq<char>>(code)
            <==> is_plaintext(key, iv_b64, code_b64, code),
{
    if is_plaintext(key, iv_b64, code_b64, code) {
        let (iv, sealed) = choose|iv: Seq<u8>, sealed: Seq<u8>|
            {
                &&& text::trimmed(iv_b64) == #[trigger] encoding::base64_text(iv)
                &&& iv.len() == 12
                &&& text::trimmed(code_b64) == #[trigger] encoding::base64_text(sealed)
                &&& gcm_opened(key, iv, sealed) == Some(encode_utf8(code))
            };
        encoding::law_base64_reads_back(text::trimmed(iv_b64), iv);
        encoding::law_base64_reads_back(text::trimmed(code_b64), sealed);
        encoding::law_text_reads_back(encode_utf8(code), code);
    }
    if agent_code_result(key, iv_b64, code_b64) == Ok::<Seq<char>, Seq<char>>(code) {
        let iv = encoding::base64_result(text::trimmed(iv_b64))->Ok_0;
        let sealed = encoding::base64_result(text::trimmed(code_b64))->Ok_0;
        encoding::law_base64_reads_back(text::trimmed(iv_b64), iv);
        encoding::law_base64_reads_back(text::trimmed(code_b64), sealed);
        encoding::law_text_reads_back(gcm_opened(key, iv, sealed)->0, code);
        assert(text::trimmed(iv_b64) == encoding::base64_text(iv));
        assert(text::trimmed(code_b64) == encoding::base64_text(sealed));
    }
}

/// Code that was encrypted under a key with a nonce of 12 bytes, and sent in Base64
/// with or without white space round it, is decrypted to itself.
pub proof fn law_encrypted_code_comes_back(
    key: Seq<u8>,
    iv: Seq<u8>,
    sealed: Seq<u8>,
    iv_b64: Seq<char>,
    code_b64: Seq<char>,
    code: Seq<char>,
)
    requires
        text::trimmed(iv_b64) == encoding::base64_text(iv),
        text::trimmed(code_b64) == encoding::base64_text(sealed),
        iv.len() == 12,
        gcm_opened(key, iv, sealed) == Some(encode_utf8(code)),
    ensures
        agent_code_result(key, iv_b64, code_b64) == Ok::<Seq<char>, Seq<char>>(code),
{
    law_code_is_the_plaintext(key, iv_b64, code_b64, code);
}

/// Open agent code is the text whose UTF-8 it is; bytes that are no text are refused.
pub proof fn law_open_code_is_read_as_it_is(plain: Seq<u8>, code: Seq<char>)
    ensures
        code_text_result(Ok(plain)) == Ok::<Seq<char>, Seq<char>>(code) <==> plain == encode_utf8(
            code,
        ),
{
    encoding::law_text_reads_back(plain, code);
}

/// Whether bytes are what the Base64 of a message, perhaps with white space round it,
/// holds under RSA-OAEP for a private key.
pub open spec fn is_opening(pkcs8: Seq<u8>, b64: Seq<char>, plain: Seq<u8>) -> bool {
    exists|sealed: Seq<u8>|
        text::trimmed(b64) == #[trigger] encoding::base64_text(sealed) && oaep_opened(
            pkcs8,
            sealed,
        ) == Ok::<Seq<u8>, Seq<char>>(plain)
}

/// Opening a message under RSA-OAEP gives the bytes that it holds, all of them, and an
/// AES key is such bytes where there are exactly 32.
pub proof fn law_message_is_opened_whole(pkcs8: Seq<u8>, b64: Seq<char>, plain: Seq<u8>)
    ensures
        oaep_b64_result(pkcs8, b64) == Ok::<Seq<u8>, Seq<char>>(plain) <==> is_opening(
            pkcs8,
            b64,
            plain,
        ),
        aes_key_result(oaep_b64_result(pkcs8, b64)) == Ok::<Seq<u8>, Seq<char>>(plain)
            <==> plain.len() == 32 && is_opening(pkcs8, b64, plain),
        aes_key_result(Ok(plain)) == Ok::<Seq<u8>, Seq<char>>(plain) <==> plain.len() == 32,
{
    if is_opening(pkcs8, b64, plain) {
        let sealed = choose|sealed: Seq<u8>|
            text::trimmed(b64) == #[trigger] encoding::base64_text(sealed) && oaep_opened(
                pkcs8,
                sealed,
            ) == Ok::<Seq<u8>, Seq<char>>(plain);
        encoding::law_base64_reads_back(text::trimmed(b64), sealed);
    }
    if oaep_b64_result(pkcs8, b64) == Ok::<Seq<u8>, Seq<char>>(plain) {
        let sealed = encoding::base64_result(text::trimmed(b64))->Ok_0;
        encoding::law_base64_reads_back(text::trimmed(b64), sealed);
    }
}

/// Each way in which code or a key cannot be opened has its own complaint: what is no
/// Base64, a nonce or a key of another length, a message that does not open, a
/// ciphertext whose tag is wrong, and bytes that are no text.
pub proof fn law_complaints_name_the_cause(
    key: Seq<u8>,
    iv: Seq<u8>,
    sealed: Seq<u8>,
    iv_b64: Seq<char>,
    code_b64: Seq<char>,
    pkcs8: Seq<u8>,
)
    requires
        text::trimmed(iv_b64) == encoding::base64_text(iv),
        text::trimmed(code_b64) == encoding::base64_text(sealed),
    ensures
        iv.len() != 12 ==> agent_code_result(key, iv_b64, code_b64) == Err::<
            Seq<char>,
            Seq<char>,
        >("AES-GCM nonce: expected 12 bytes, got "@ + text::decimal(iv.len())),
        iv.len() == 12 && gcm_opened(key, iv, sealed) is None ==> agent_code_result(
            key,
            iv_b64,
            code_b64,
        ) == Err::<Seq<char>, Seq<char>>("AES-256-GCM decrypt: "@ + "aead::Error"@),
        iv.len() == 12 && gcm_opened(key, iv, sealed) is Some && !valid_utf8(
            gcm_opened(key, iv, sealed)->0,
        ) ==> agent_code_result(key, iv_b64, code_b64) == Err::<Seq<char>, Seq<char>>(
            "decrypted code invalid UTF-8: "@ + encoding::utf8_complaint(
                gcm_opened(key, iv, sealed)->0,
            ),
        ),
        forall|e: Seq<char>| #[trigger]
            oaep_opened(pkcs8, sealed) == Err::<Seq<u8>, Seq<char>>(e) ==> aes_key_result(
                oaep_b64_result(pkcs8, code_b64),
            ) == Err::<Seq<u8>, Seq<char>>(
                "encrypted_aes_key_b64: "@ + ("RSA OAEP/SHA-256 decrypt: "@ + e),
            ),
        forall|plain: Seq<u8>| #[trigger]
            oaep_opened(pkcs8, sealed) == Ok::<Seq<u8>, Seq<char>>(plain) && plain.len() != 32
                ==> aes_key_result(oaep_b64_result(pkcs8, code_b64)) == Err::<Seq<u8>, Seq<char>>(
                "RSA plaintext: expected 32-byte AES key, got "@ + text::decimal(plain.len()),
            ),
{
    encoding::law_base64_reads_back(text::trimmed(iv_b64), iv);
    encoding::law_base64_reads_back(text::trimmed(code_b64), sealed);
}

} // verus!
