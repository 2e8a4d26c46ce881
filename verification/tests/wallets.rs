use k256::ecdsa::{RecoveryId, Signature};
use sha3::{Digest, Keccak256};
use teeify_enclave::script::{sign_message, signed, Fault};
use teeify_enclave::wallet::{
    address_of_digest, ethereum_personal_sign_hex, ethereum_signature, get_eth_address,
    recover_personal_signer, WalletKey,
};

fn key_of(n: u8) -> WalletKey {
    let mut bytes = [0u8; 32];
    bytes[31] = n;
    WalletKey::from_slice(&bytes).unwrap_or_else(|e| panic!("{e}"))
}

#[test]
fn addresses_of_small_keys() {
    assert_eq!(
        get_eth_address(&key_of(1).verifying_key()),
        "0x7e5f4552091a69125d5dfcb7b8c2659029395bdf"
    );
    assert_eq!(
        get_eth_address(&key_of(2).verifying_key()),
        "0x2b5ad5c4795c026514f8317c7a215e218dccd6cf"
    );
}

#[test]
fn address_is_the_end_of_a_digest() {
    let digest: [u8; 32] = std::array::from_fn(|i| i as u8);
    assert_eq!(address_of_digest(&digest), "0x0c0d0e0f101112131415161718191a1b1c1d1e1f");
}

#[test]
fn public_point_of_one_is_the_generator() {
    let point = key_of(1).verifying_key().to_encoded_point();
    assert_eq!(point.len(), 65);
    assert_eq!(point[0], 4);
    assert_eq!(
        hex::encode(&point[1..33]),
        "79be667ef9dcbbac55a06295ce870b07029bfcdb2dce28d959f2815b16f81798"
    );
}

#[test]
fn keys_have_a_range() {
    let order = hex::decode("fffffffffffffffffffffffffffffffebaaedce6af48a03bbfd25e8cd0364141").unwrap();
    let refused = |bytes: &[u8]| match WalletKey::from_slice(bytes) {
        Ok(_) => panic!("accepted"),
        Err(e) => e,
    };
    assert_eq!(refused(&order), "signature error");
    assert_eq!(refused(&[0u8; 32]), "signature error");
    assert_eq!(refused(&[1u8; 33]), "signature error");
    assert_eq!(refused(&[1u8; 23]), "signature error");
    assert_eq!(refused(&[]), "signature error");
    let mut largest = order.clone();
    largest[31] -= 1;
    assert_eq!(WalletKey::from_slice(&largest).unwrap_or_else(|e| panic!("{e}")).to_bytes(), largest);
}

#[test]
fn short_keys_are_filled_up() {
    let key = WalletKey::from_slice(&[1u8; 24]).unwrap_or_else(|e| panic!("{e}"));
    assert_eq!(key.to_bytes()[..8], [0u8; 8]);
    assert_eq!(key.to_bytes()[8..], [1u8; 24]);
}

#[test]
fn random_keys_differ() {
    let a = WalletKey::random();
    let b = WalletKey::random();
    assert_eq!(a.to_bytes().len(), 32);
    assert_ne!(a.to_bytes(), b.to_bytes());
    assert_eq!(a.copy().to_bytes(), a.to_bytes());
}

#[test]
fn signature_recovers_the_signer() {
    let key = key_of(7);
    for message in ["", "hello", "gr\u{fc}\u{df}e"] {
        let text = ethereum_personal_sign_hex(&key, message).unwrap();
        assert_eq!(text.len(), 132);
        assert!(text.starts_with("0x"));
        let bytes = hex::decode(&text[2..]).unwrap();
        assert!(bytes[64] == 27 || bytes[64] == 28);
        let digest = Keccak256::digest(
            format!("\x19Ethereum Signed Message:\n{}{}", message.len(), message).as_bytes(),
        );
        let signer = k256::ecdsa::VerifyingKey::recover_from_prehash(
            &digest,
            &Signature::from_slice(&bytes[..64]).unwrap(),
            RecoveryId::from_byte(bytes[64] - 27).unwrap(),
        )
        .unwrap();
        assert_eq!(
            signer.to_encoded_point(false).as_bytes(),
            key.verifying_key().to_encoded_point()
        );
    }
}

#[test]
fn signer_is_recovered_from_what_was_signed() {
    let key = key_of(9);
    let point = key.verifying_key().to_encoded_point();
    for message in ["", "hello", "gr\u{fc}\u{df}e"] {
        let text = ethereum_personal_sign_hex(&key, message).unwrap();
        let bytes = hex::decode(&text[2..]).unwrap();
        let id = bytes[64] - 27;
        assert_eq!(recover_personal_signer(message, &bytes[..64], id), Some(point.clone()));
        assert_ne!(recover_personal_signer("other", &bytes[..64], id), Some(point.clone()));
    }
    assert_eq!(recover_personal_signer("m", &[1; 63], 0), None);
    assert_eq!(recover_personal_signer("m", &[0; 64], 0), None);
    assert_eq!(recover_personal_signer("m", &[1; 64], 4), None);
}

#[test]
fn signature_of_some_data() {
    let bytes = hex::decode("4c0883a69102937d6231471b5dbb6204fe5129617082792ae468d01a3f362318").unwrap();
    let key = WalletKey::from_slice(&bytes).unwrap_or_else(|e| panic!("{e}"));
    assert_eq!(
        get_eth_address(&key.verifying_key()),
        "0x2c7536e3605d9c16a7a3d7b1898e529396a65c23"
    );
    assert_eq!(
        ethereum_personal_sign_hex(&key, "Some data"),
        Ok("0xb91467e570a6466aa9e9876cbcd013baba02900b8979d43fe208a4a4f339f5fd6007e74cd82e037b800186422fc2da167c747ef045e5d18a5f5d4300f8e1a0291c".to_string())
    );
}

#[test]
fn recovery_id_becomes_the_last_byte() {
    assert_eq!(ethereum_signature(&[0xab; 2], 1), Ok("0xabab1c".to_string()));
    assert_eq!(ethereum_signature(&[], 228), Ok("0xff".to_string()));
    assert_ne!(ethereum_signature(&[0x0a, 0xb0], 0), ethereum_signature(&[0xab, 0x00], 0));
    assert_eq!(
        ethereum_signature(&[], 229),
        Err("invalid recovery id for Ethereum v byte".to_string())
    );
}

#[test]
fn script_gets_a_signature() {
    let key = key_of(7);
    let expected = ethereum_personal_sign_hex(&key, "m").unwrap();
    match sign_message(&key, &Some("m".to_string())) {
        Ok(s) => assert_eq!(s, expected),
        Err(_) => panic!("no signature"),
    }
    match sign_message(&key, &None) {
        Err(Fault::TypeError(m)) => assert_eq!(m, "teeify.signMessage: string payload is required"),
        _ => panic!("no error"),
    }
    match signed(Err("ecdsa: signature error".to_string())) {
        Err(Fault::Error(m)) => assert_eq!(m, "teeify.signMessage: ecdsa: signature error"),
        _ => panic!("no error"),
    }
}
