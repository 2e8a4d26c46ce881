//! The agent's secp256k1 wallet: its key, its Ethereum address, and the EIP-191
//! signatures that agent code asks for.

use k256::ecdsa::SigningKey;
use rand_core::OsRng;
use sha3::{Digest, Keccak256};
use vstd::prelude::*;
use vstd::slice::slice_subrange;
use vstd::string::StringExecFns;
use vstd::utf8::*;

use crate::encoding;
use crate::text;

verus! {

/// The order of the secp256k1 group.
pub open spec fn group_order() -> nat {
    0xFFFFFFFFFFFFFFFFFFFFFFFFFFFFFFFEBAAEDCE6AF48A03BBFD25E8CD0364141nat
}

/// Bytes as one number, the first byte the most significant.
pub open spec fn big_endian(bytes: Seq<u8>) -> nat
    decreases bytes.len(),
{
    if bytes.len() == 0 {
        0
    } else {
        big_endian(bytes.drop_last()) * 256 + bytes.last() as nat
    }
}

/// Whether bytes are a private key: 32 of them, with a number between zero and
/// the order of the group.
pub open spec fn is_private_key(bytes: Seq<u8>) -> bool {
    bytes.len() == 32 && 0 < big_endian(bytes) < group_order()
}

/// Bytes with zeros before them, 32 in all.
pub open spec fn padded(bytes: Seq<u8>) -> Seq<u8> {
    Seq::new((32 - bytes.len()) as nat, |i: int| 0u8) + bytes
}

/// The private key that bytes stand for: between 24 and 32 of them, filled up
/// with zeros in front.
pub open spec fn private_key_of(bytes: Seq<u8>) -> Option<Seq<u8>> {
    if 24 <= bytes.len() <= 32 && is_private_key(padded(bytes)) {
        Some(padded(bytes))
    } else {
        None
    }
}

/// The Keccak-256 digest.
pub uninterp spec fn keccak256(bytes: Seq<u8>) -> Seq<u8>;

/// The public point of a private key, uncompressed.
pub uninterp spec fn public_point(key: Seq<u8>) -> Seq<u8>;

/// The ECDSA signature of a digest, as `r` and `s` in 32 bytes each, and its
/// recovery id; nothing where there is none.
pub uninterp spec fn ecdsa_signed(key: Seq<u8>, digest: Seq<u8>) -> Option<(Seq<u8>, u8)>;

/// The public point, uncompressed, of the key that a digest was signed with, as the
/// signature and its recovery id show it; nothing where they show none.
pub uninterp spec fn ecdsa_recovered(
    digest: Seq<u8>,
    signature: Seq<u8>,
    recovery: u8,
) -> Option<Seq<u8>>;

/// `Keccak256::digest` of the crate `sha3`: 32 bytes that depend on the argument
/// alone.
#[verifier::external_body]
pub(crate) fn keccak256_digest(bytes: &[u8]) -> (digest: [u8; 32])
    ensures
        digest@ == keccak256(bytes@),
{
    Keccak256::digest(bytes).into()
}

/// `SigningKey::from_slice` and `to_bytes` of the crate `k256`: it takes between
/// 24 and 32 bytes, big-endian, fills them up with zeros in front, and refuses
/// zero and what reaches the order of the group. Its error has one wording.
#[verifier::external_body]
fn signing_key_bytes(bytes: &[u8]) -> (r: Result<Vec<u8>, String>)
    ensures
        match r {
            Ok(key) => private_key_of(bytes@) == Some(key@),
            Err(e) => private_key_of(bytes@) is None && e@ == "signature error"@,
        },
{
    SigningKey::from_slice(bytes).map(|k| k.to_bytes().to_vec()).map_err(|e| e.to_string())
}

/// `SigningKey::random` of the crate `k256`, with the operating system's random
/// numbers: some private key.
#[verifier::external_body]
fn random_signing_key() -> (key: Vec<u8>)
    ensures
        is_private_key(key@),
{
    SigningKey::random(&mut OsRng).to_bytes().to_vec()
}

/// `to_encoded_point(false)` of the crate `k256` on the public half of a private
/// key: 65 bytes, the first of them 4, that depend on the key alone.
#[verifier::external_body]
fn encoded_point(key: &[u8]) -> (point: Vec<u8>)
    requires
        is_private_key(key@),
    ensures
        point@ == public_point(key@),
        point@.len() == 65,
        point@[0] == 4,
{
    let key = SigningKey::from_slice(key).expect("a private key");
    k256::ecdsa::VerifyingKey::from(&key).to_encoded_point(false).as_bytes().to_vec()
}

/// `sign_prehash_recoverable` of the crate `k256`: the nonce is derived from the
/// key and the digest, so the 64 bytes of the signature and the recovery id, which
/// is below four, depend on them alone. They are what `recover_from_prehash` recovers
/// the public half of the key from. Its error has one wording.
#[verifier::external_body]
fn sign_digest(key: &[u8], digest: &[u8; 32]) -> (r: Result<(Vec<u8>, u8), String>)
    requires
        is_private_key(key@),
    ensures
        match r {
            Ok((signature, recovery)) => {
                &&& ecdsa_signed(key@, digest@) == Some((signature@, recovery))
                &&& signature@.len() == 64
                &&& recovery < 4
                &&& ecdsa_recovered(digest@, signature@, recovery) == Some(public_point(key@))
            },
            Err(e) => ecdsa_signed(key@, digest@) is None && e@ == "signature error"@,
        },
{
    let key = SigningKey::from_slice(key).map_err(|e| e.to_string())?;
    let (signature, id) = key.sign_prehash_recoverable(digest).map_err(|e| e.to_string())?;
    Ok((signature.to_bytes().to_vec(), id.to_byte()))
}

/// `VerifyingKey::recover_from_prehash` of the crate `k256`, and the uncompressed
/// point of the key that it returns; nothing where it fails or the signature or the
/// recovery id is none. It depends on the arguments alone.
#[verifier::external_body]
fn recover_point(digest: &[u8; 32], signature: &[u8], recovery: u8) -> (r: Option<Vec<u8>>)
    ensures
        match r {
            Some(point) => ecdsa_recovered(digest@, signature@, recovery) == Some(point@),
            None => ecdsa_recovered(digest@, signature@, recovery) is None,
        },
{
    let signature = k256::ecdsa::Signature::from_slice(signature).ok()?;
    let id = k256::ecdsa::RecoveryId::from_byte(recovery)?;
    let key = k256::ecdsa::VerifyingKey::recover_from_prehash(digest, &signature, id).ok()?;
    Some(key.to_encoded_point(false).as_bytes().to_vec())
}

/// A wallet's private key.
pub struct WalletKey {
    bytes: Vec<u8>,
}

impl View for WalletKey {
    type V = Seq<u8>;

    closed spec fn view(&self) -> Seq<u8> {
        self.bytes@
    }
}

impl WalletKey {
    #[verifier::type_invariant]
    spec fn fits(self) -> bool {
        is_private_key(self.bytes@)
    }

    /// The key that bytes stand for.
    pub fn from_slice(bytes: &[u8]) -> (r: Result<WalletKey, String>)
        ensures
            match r {
                Ok(key) => private_key_of(bytes@) == Some(key@),
                Err(e) => private_key_of(bytes@) is None && e@ == "signature error"@,
            },
    {
        match signing_key_bytes(bytes) {
            Ok(key) => Ok(WalletKey { bytes: key }),
            Err(e) => Err(e),
        }
    }

    /// A new key.
    pub fn random() -> (key: WalletKey)
        ensures
            is_private_key(key@),
    {
        WalletKey { bytes: random_signing_key() }
    }

    /// The key as 32 bytes.
    pub fn to_bytes(&self) -> (bytes: Vec<u8>)
        ensures
            bytes@ == self@,
            is_private_key(bytes@),
    {
        proof {
            use_type_invariant(self);
        }
        text::copy_bytes(self.bytes.as_slice())
    }

    /// The same key once more.
    pub fn copy(&self) -> (key: WalletKey)
        ensures
            key@ == self@,
    {
        WalletKey { bytes: self.to_bytes() }
    }

    /// The public half of the key.
    pub fn verifying_key(&self) -> (public: VerifyingKey)
        ensures
            public@ == public_point(self@),
    {
        proof {
            use_type_invariant(self);
        }
        VerifyingKey { point: encoded_point(self.bytes.as_slice()) }
    }
}

/// The public half of a wallet's key, as an uncompressed point.
pub struct VerifyingKey {
    point: Vec<u8>,
}

impl View for VerifyingKey {
    type V = Seq<u8>;

    closed spec fn view(&self) -> Seq<u8> {
        self.point@
    }
}

impl VerifyingKey {
    #[verifier::type_invariant]
    spec fn fits(self) -> bool {
        self.point@.len() == 65 && self.point@[0] == 4
    }

    /// The point as 65 bytes, the first of them 4.
    pub fn to_encoded_point(&self) -> (point: Vec<u8>)
        ensures
            point@ == self@,
            point@.len() == 65,
            point@[0] == 4,
    {
        proof {
            use_type_invariant(self);
        }
        text::copy_bytes(self.point.as_slice())
    }
}

/// The Ethereum address in a digest of a public key: its last 20 bytes.
pub open spec fn address_text(digest: Seq<u8>) -> Seq<char> {
    "0x"@ + encoding::hex_text(digest.skip(12))
}

/// The Ethereum address of an uncompressed public point: what is hashed leaves
/// out the first byte.
pub open spec fn eth_address(point: Seq<u8>) -> Seq<char> {
    address_text(keccak256(point.skip(1)))
}

/// The Ethereum address in a digest of a public key.
pub fn address_of_digest(digest: &[u8; 32]) -> (r: String)
    ensures
        r@ == address_text(digest@),
        r@.len() == 42,
{
    let tail = slice_subrange(digest.as_slice(), 12, 32);
    assert(tail@ =~= digest@.skip(12));
    proof {
        reveal_strlit("0x");
    }
    text::prefixed("0x", encoding::hex_encode(tail).as_str())
}

/// The Ethereum address of a public key.
pub fn get_eth_address(verifying_key: &VerifyingKey) -> (r: String)
    ensures
        r@ == eth_address(verifying_key@),
        r@.len() == 42,
{
    proof {
        use_type_invariant(verifying_key);
    }
    let tail = slice_subrange(verifying_key.point.as_slice(), 1, verifying_key.point.len());
    assert(tail@ =~= verifying_key@.skip(1));
    address_of_digest(&keccak256_digest(tail))
}

/// What EIP-191 signs for a message: a prefix, the message's length in bytes,
/// and its bytes.
pub open spec fn personal_preimage(message: Seq<char>) -> Seq<u8> {
    encode_utf8(
        "\x19Ethereum Signed Message:\n"@ + text::decimal(encode_utf8(message).len()),
    ) + encode_utf8(message)
}

/// A signature and its recovery id as Ethereum writes them, or a complaint about
/// the recovery id.
pub open spec fn signature_text(signature: Seq<u8>, recovery: u8) -> Result<
    Seq<char>,
    Seq<char>,
> {
    if recovery + 27 <= 255 {
        Ok("0x"@ + encoding::hex_text(signature.push((recovery + 27) as u8)))
    } else {
        Err("invalid recovery id for Ethereum v byte"@)
    }
}

/// What signing a message comes to, once the signature is there.
pub open spec fn signing_result(signed: Option<(Seq<u8>, u8)>) -> Result<Seq<char>, Seq<char>> {
    match signed {
        Some((signature, recovery)) => signature_text(signature, recovery),
        None => Err("ecdsa: signature error"@),
    }
}

/// What signing a message with a key gives.
pub open spec fn personal_signature(key: Seq<u8>, message: Seq<char>) -> Result<
    Seq<char>,
    Seq<char>,
> {
    signing_result(ecdsa_signed(key, keccak256(personal_preimage(message))))
}

/// Writes a signature as Ethereum does: `r`, `s` and the recovery id plus 27.
pub fn ethereum_signature(signature: &[u8], recovery: u8) -> (r: Result<String, String>)
    ensures
        text::to_text_result(r) == signature_text(signature@, recovery),
{
    match recovery.checked_add(27) {
        Some(v) => {
            let mut compact = text::copy_bytes(signature);
            compact.push(v);
            Ok(text::prefixed("0x", encoding::hex_encode(compact.as_slice()).as_str()))
        },
        None => Err("invalid recovery id for Ethereum v byte".to_string()),
    }
}

/// The digest that EIP-191 signs for a message.
fn personal_digest(message: &str) -> (digest: [u8; 32])
    ensures
        digest@ == keccak256(personal_preimage(message@)),
        forall|digits: Seq<char>| #[trigger]
            is_decimal(digits, encode_utf8(message@).len()) ==> digest@ == keccak256(
                encode_utf8("\x19Ethereum Signed Message:\n"@) + encode_utf8(digits) + encode_utf8(
                    message@,
                ),
            ),
{
    proof {
        assert forall|digits: Seq<char>| #[trigger]
            is_decimal(digits, encode_utf8(message@).len()) implies personal_preimage(message@)
            == encode_utf8("\x19Ethereum Signed Message:\n"@) + encode_utf8(digits) + encode_utf8(
            message@,
        ) by {
            law_preimage_tells_the_length(message@, digits);
        }
    }
    let bytes = message.as_bytes();
    let prefix = text::prefixed(
        "\x19Ethereum Signed Message:\n",
        text::to_decimal(bytes.len() as u64).as_str(),
    );
    let mut preimage = text::copy_bytes(prefix.as_str().as_bytes());
    preimage.extend_from_slice(bytes);
    assert(preimage@ =~= personal_preimage(message@));
    keccak256_digest(preimage.as_slice())
}

/// The public point of whoever signed a message, as a signature and its recovery id
/// show it.
pub open spec fn personal_signer(
    message: Seq<char>,
    signature: Seq<u8>,
    recovery: u8,
) -> Option<Seq<u8>> {
    ecdsa_recovered(keccak256(personal_preimage(message)), signature, recovery)
}

/// The public point of whoever signed a message, as a signature and its recovery id
/// show it.
pub fn recover_personal_signer(message: &str, signature: &[u8], recovery: u8) -> (r: Option<
    Vec<u8>,
>)
    ensures
        text::optional_bytes(r) == personal_signer(message@, signature@, recovery),
{
    recover_point(&personal_digest(message), signature, recovery)
}

/// Whatever signature and recovery id a text stands for, they show that the message
/// was signed with the key.
pub open spec fn shows_signer(text: Seq<char>, key: Seq<u8>, message: Seq<char>) -> bool {
    forall|signature: Seq<u8>, recovery: u8| #[trigger]
        signature_text(signature, recovery) == Ok::<Seq<char>, Seq<char>>(text)
            ==> personal_signer(message, signature, recovery) == Some(public_point(key))
}

/// EIP-191 `personal_sign`: the signature of a message as 65 bytes in hexadecimal
/// digits, from which the signer can be recovered.
pub fn ethereum_personal_sign_hex(key: &WalletKey, message: &str) -> (r: Result<String, String>)
    ensures
        text::to_text_result(r) == personal_signature(key@, message@),
        r matches Ok(signature) ==> signature@.len() == 132,
        r matches Ok(signature) ==> shows_signer(signature@, key@, message@),
        r matches Err(e) ==> e@ == "ecdsa: signature error"@,
{
    proof {
        use_type_invariant(key);
    }
    let digest = personal_digest(message);
    proof {
        reveal_strlit("0x");
    }
    match sign_digest(key.bytes.as_slice(), &digest) {
        Ok((signature, recovery)) => {
            let r = ethereum_signature(signature.as_slice(), recovery);
            proof {
                assert forall|s: Seq<u8>, v: u8| #[trigger]
                    signature_text(s, v) == signature_text(
                        signature@,
                        recovery,
                    ) implies personal_signer(message@, s, v) == Some(public_point(key@)) by {
                    law_signature_text_is_injective(signature@, recovery, s, v);
                }
            }
            r
        },
        Err(e) => {
            proof {
                reveal_strlit("ecdsa: signature error");
                reveal_strlit("ecdsa: ");
                reveal_strlit("signature error");
                assert("ecdsa: signature error"@ =~= "ecdsa: "@ + "signature error"@);
            }
            Err(text::prefixed("ecdsa: ", e.as_str()))
        },
    }
}

/// A signature can be read back from the way it is written.
pub proof fn law_signature_text_is_injective(a: Seq<u8>, u: u8, b: Seq<u8>, v: u8)
    requires
        signature_text(a, u) is Ok,
        signature_text(a, u) == signature_text(b, v),
    ensures
        a == b,
        u == v,
{
    let x = a.push((u + 27) as u8);
    let y = b.push((v + 27) as u8);
    let s = signature_text(a, u)->Ok_0;
    reveal_strlit("0x");
    assert(s.skip(2) =~= encoding::hex_text(x));
    assert(s.skip(2) =~= encoding::hex_text(y));
    encoding::law_hex_is_injective(x, y);
    assert(x.drop_last() =~= a);
    assert(y.drop_last() =~= b);
    assert(x.last() == y.last());
}

/// Digits that stand for a number in decimal notation, with no zero before others.
pub open spec fn is_decimal(digits: Seq<char>, n: nat) -> bool {
    &&& digits.len() > 0
    &&& digits.len() > 1 ==> digits[0] != '0'
    &&& text::digits_value(digits, 10) == Some(n)
}

/// What is hashed for a message of `n` bytes is the prefix of EIP-191, then `n` itself
/// in decimal notation, then the `n` bytes of the message.
pub proof fn law_preimage_tells_the_length(message: Seq<char>, digits: Seq<char>)
    requires
        is_decimal(digits, encode_utf8(message).len()),
    ensures
        personal_preimage(message) == encode_utf8("\x19Ethereum Signed Message:\n"@) + encode_utf8(
            digits,
        ) + encode_utf8(message),
{
    let n = encode_utf8(message).len();
    text::law_decimal_is_unique(digits, n);
    encoding::law_utf8_joins("\x19Ethereum Signed Message:\n"@, digits);
}

/// There are such digits for every message.
pub proof fn law_every_length_has_digits(message: Seq<char>) -> (digits: Seq<char>)
    ensures
        is_decimal(digits, encode_utf8(message).len()),
        encode_utf8(digits).len() == digits.len(),
        personal_preimage(message) == encode_utf8("\x19Ethereum Signed Message:\n"@) + encode_utf8(
            digits,
        ) + encode_utf8(message),
{
    let n = encode_utf8(message).len();
    let digits = text::decimal(n);
    text::law_decimal(n);
    assert(is_ascii_chars(digits));
    is_ascii_chars_encode_utf8(digits);
    law_preimage_tells_the_length(message, digits);
    digits
}

/// Different messages are hashed from different bytes.
pub proof fn law_preimages_differ(a: Seq<char>, b: Seq<char>)
    requires
        personal_preimage(a) == personal_preimage(b),
    ensures
        a == b,
{
    let p = law_every_length_has_digits(a);
    let q = law_every_length_has_digits(b);
    let m = encode_utf8(a);
    let n = encode_utf8(b);
    text::law_decimal_is_unique(p, m.len());
    text::law_decimal_is_unique(q, n.len());
    if m.len() <= n.len() {
        text::law_decimal_grows(m.len(), n.len());
    } else {
        text::law_decimal_grows(n.len(), m.len());
    }
    let head = encode_utf8("\x19Ethereum Signed Message:\n"@);
    assert(personal_preimage(a).len() == head.len() + p.len() + m.len());
    assert(personal_preimage(b).len() == head.len() + q.len() + n.len());
    assert(m.len() == n.len());
    let place = (head.len() + p.len()) as int;
    assert(personal_preimage(a).skip(place) =~= m);
    assert(personal_preimage(b).skip(place) =~= n);
    encode_utf8_decode_utf8(a);
    encode_utf8_decode_utf8(b);
}

/// A message is signed as it is: the signature in the result is the one of the key
/// over the Keccak-256 digest of those bytes, its 64 bytes in hexadecimal digits and
/// behind them a byte that is 27 more than the recovery id; where there is no
/// signature there is a complaint. The signer is recovered over the same digest.
pub proof fn law_message_is_signed_whole(
    key: Seq<u8>,
    message: Seq<char>,
    digits: Seq<char>,
    signature: Seq<u8>,
    recovery: u8,
)
    requires
        is_decimal(digits, encode_utf8(message).len()),
        recovery < 4,
    ensures
        ({
            let digest = keccak256(
                encode_utf8("\x19Ethereum Signed Message:\n"@) + encode_utf8(digits) + encode_utf8(
                    message,
                ),
            );
            &&& ecdsa_signed(key, digest) == Some((signature, recovery)) ==> personal_signature(
                key,
                message,
            ) == Ok::<Seq<char>, Seq<char>>(
                "0x"@ + encoding::hex_text(signature) + encoding::hex_text(
                    seq![(27 + recovery) as u8],
                ),
            )
            &&& ecdsa_signed(key, digest) is None ==> personal_signature(key, message) == Err::<
                Seq<char>,
                Seq<char>,
            >("ecdsa: signature error"@)
            &&& personal_signer(message, signature, recovery) == ecdsa_recovered(
                digest,
                signature,
                recovery,
            )
        }),
{
    law_preimage_tells_the_length(message, digits);
    let v = (27 + recovery) as u8;
    encoding::law_hex_digits(signature, v);
    encoding::law_hex_digits(seq![], v);
    assert(Seq::<u8>::empty().push(v) =~= seq![v]);
    let a = encoding::hex_text(signature);
    let b = encoding::hex_text(seq![v]);
    assert(b =~= seq!["0123456789abcdef"@[v as int / 16], "0123456789abcdef"@[v as int % 16]]);
    assert("0x"@ + a + b =~= "0x"@ + (a + b));
}

/// The address of a public point, 4 and then its two coordinates, is written as `0x`
/// and the hexadecimal digits of the last 20 of the 32 bytes of the Keccak-256 digest
/// of the coordinates.
pub proof fn law_address_is_the_end_of_the_digest(
    coordinates: Seq<u8>,
    first: Seq<u8>,
    last: Seq<u8>,
)
    requires
        first.len() == 12,
        last.len() == 20,
        keccak256(coordinates) == first + last,
    ensures
        eth_address(seq![4u8] + coordinates) == "0x"@ + encoding::hex_text(last),
        address_text(first + last) == "0x"@ + encoding::hex_text(last),
{
    assert((seq![4u8] + coordinates).skip(1) =~= coordinates);
    assert((first + last).skip(12) =~= last);
}

/// Bytes stand for a private key where their number, most significant byte first, is
/// one, and there are between 24 and 32 of them; the key is 32 bytes with that number,
/// so 32 bytes stand for themselves.
pub proof fn law_key_has_the_number_of_its_bytes(bytes: Seq<u8>)
    ensures
        private_key_of(bytes) is Some <==> 24 <= bytes.len() <= 32 && 0 < big_endian(bytes)
            < group_order(),
        private_key_of(bytes) matches Some(key) ==> key.len() == 32 && big_endian(key)
            == big_endian(bytes) && key.skip(32 - bytes.len()) == bytes,
        bytes.len() == 32 && private_key_of(bytes) is Some ==> private_key_of(bytes) == Some(bytes),
        is_private_key(bytes) ==> private_key_of(bytes) == Some(bytes),
{
    if bytes.len() <= 32 {
        let zeros = Seq::new((32 - bytes.len()) as nat, |i: int| 0u8);
        lemma_zeros_in_front(zeros, bytes);
        assert(padded(bytes).skip(32 - bytes.len()) =~= bytes);
        if bytes.len() == 32 {
            assert(padded(bytes) =~= bytes);
        }
    }
}

proof fn lemma_zeros_in_front(zeros: Seq<u8>, bytes: Seq<u8>)
    requires
        forall|i: int| 0 <= i < zeros.len() ==> #[trigger] zeros[i] == 0,
    ensures
        big_endian(zeros + bytes) == big_endian(bytes),
    decreases zeros.len() + bytes.len(),
{
    let all = zeros + bytes;
    if bytes.len() > 0 {
        lemma_zeros_in_front(zeros, bytes.drop_last());
        assert(all.drop_last() =~= zeros + bytes.drop_last());
        assert(all.last() == bytes.last());
    } else if zeros.len() > 0 {
        let less = zeros.drop_last();
        lemma_zeros_in_front(less, bytes);
        assert(all.drop_last() =~= less + bytes);
        assert(all.last() == zeros[zeros.len() - 1]);
    }
}

/// A signature is written as `0x`, the digits of its bytes, and two more for the recovery
/// id plus 27, where that fits in a byte; otherwise it is refused.
pub proof fn law_signature_is_written_out(signature: Seq<u8>, recovery: u8)
    ensures
        recovery <= 228 ==> signature_text(signature, recovery) == Ok::<Seq<char>, Seq<char>>(
            "0x"@ + encoding::hex_text(signature) + seq![
                "0123456789abcdef"@[(recovery as int + 27) / 16],
                "0123456789abcdef"@[(recovery as int + 27) % 16],
            ],
        ),
        recovery > 228 ==> signature_text(signature, recovery) == Err::<Seq<char>, Seq<char>>(
            "invalid recovery id for Ethereum v byte"@,
        ),
{
    if recovery <= 228 {
        let v = (recovery + 27) as u8;
        let tail = seq!["0123456789abcdef"@[v as int / 16], "0123456789abcdef"@[v as int % 16]];
        encoding::law_hex_digits(signature, v);
        assert("0x"@ + encoding::hex_text(signature) + tail =~= "0x"@ + (encoding::hex_text(
            signature,
        ) + tail));
    }
}

/// Each byte behind others counts for itself, and the others for 256 times as much.
pub proof fn law_big_endian(bytes: Seq<u8>, b: u8)
    ensures
        big_endian(seq![]) == 0,
        big_endian(bytes.push(b)) == big_endian(bytes) * 256 + b,
{
    assert(bytes.push(b).drop_last() =~= bytes);
}

} // verus!
