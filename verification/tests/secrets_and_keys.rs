use aes_gcm::aead::Aead;
use aes_gcm::{Aes256Gcm, KeyInit, Nonce};
use base64::engine::general_purpose::STANDARD;
use base64::Engine;
use rand_core::OsRng;
use rsa::pkcs8::{DecodePublicKey, EncodePrivateKey};
use rsa::traits::{PrivateKeyParts, PublicKeyParts};
use rsa::{BigUint, Oaep, RsaPrivateKey, RsaPublicKey};
use sha2::Sha256;
use teeify_enclave::keys::{
    aes256_key, code_text, decrypt_aes_gcm_agent_code, rsa_decrypt_aes256_key_ct,
    rsa_decrypt_oaep_b64, EnclaveKey,
};

fn small_key() -> EnclaveKey {
    let key = RsaPrivateKey::new(&mut OsRng, 1024).unwrap();
    EnclaveKey::from_pkcs8(key.to_pkcs8_der().unwrap().as_bytes().to_vec()).unwrap()
}

fn wrap(key: &EnclaveKey, plain: &[u8]) -> String {
    let public = RsaPublicKey::from_public_key_pem(&key.rsa_public_key_pem()).unwrap();
    STANDARD.encode(public.encrypt(&mut OsRng, Oaep::new::<Sha256>(), plain).unwrap())
}

#[test]
fn generated_key_has_a_public_half() {
    let key = EnclaveKey::generate().unwrap();
    let pem = key.rsa_public_key_pem();
    assert!(pem.starts_with("-----BEGIN PUBLIC KEY-----\n"));
    assert!(pem.ends_with("-----END PUBLIC KEY-----\n"));
    assert!(!pem.contains('\r'));
    assert_eq!(RsaPublicKey::from_public_key_pem(&pem).unwrap().n().bits(), 2048);
    assert_eq!(key.bits(), Some(2048));
}

#[test]
fn key_that_was_made_is_taken() {
    let key = RsaPrivateKey::new(&mut OsRng, 1024).unwrap();
    let pkcs8 = key.to_pkcs8_der().unwrap().as_bytes().to_vec();
    let taken = EnclaveKey::from_made(Some(pkcs8)).unwrap();
    let public = RsaPublicKey::from_public_key_pem(&taken.rsa_public_key_pem()).unwrap();
    assert_eq!(public, key.to_public_key());
    assert!(EnclaveKey::from_made(None).is_none());
    assert!(EnclaveKey::from_made(Some(vec![0])).is_none());
}

#[test]
fn bytes_that_are_no_key_are_refused() {
    assert!(EnclaveKey::from_pkcs8(vec![]).is_none());
    assert!(EnclaveKey::from_pkcs8(b"no key".to_vec()).is_none());
}

#[test]
fn key_with_a_much_larger_second_prime_is_refused() {
    let key = RsaPrivateKey::new(&mut OsRng, 1024).unwrap();
    let three = BigUint::from(3u32);
    let large = key.primes()[1].clone();
    let with = |primes: Vec<BigUint>| {
        let n = &three * &large;
        let made = RsaPrivateKey::from_components(n, key.e().clone(), key.d().clone(), primes).unwrap();
        EnclaveKey::from_pkcs8(made.to_pkcs8_der().unwrap().as_bytes().to_vec())
    };
    assert!(with(vec![three.clone(), large.clone()]).is_none());
    assert!(with(vec![large.clone(), three.clone()]).is_some());
}

#[test]
fn wrapped_message_is_opened() {
    let key = small_key();
    let wrapped = wrap(&key, b"attack at dawn");
    assert_eq!(rsa_decrypt_oaep_b64(&key, &format!(" {wrapped}\n")), Ok(b"attack at dawn".to_vec()));
}

#[test]
fn message_for_another_key_is_not_opened() {
    let key = small_key();
    let wrapped = wrap(&small_key(), b"attack at dawn");
    assert_eq!(
        rsa_decrypt_oaep_b64(&key, &wrapped),
        Err("RSA OAEP/SHA-256 decrypt: decryption error".to_string())
    );
    assert_eq!(
        rsa_decrypt_oaep_b64(&key, "AAAA"),
        Err("RSA OAEP/SHA-256 decrypt: decryption error".to_string())
    );
    let refused = rsa_decrypt_oaep_b64(&key, "no base64!").unwrap_err();
    assert!(refused.starts_with("RSA ciphertext base64: Invalid symbol"), "{refused}");
}

#[test]
fn wrapped_aes_key_must_have_32_bytes() {
    let key = small_key();
    let raw = [7u8; 32];
    assert_eq!(rsa_decrypt_aes256_key_ct(&key, &wrap(&key, &raw)), Ok(raw));
    assert_eq!(
        rsa_decrypt_aes256_key_ct(&key, &wrap(&key, &raw[..16])),
        Err("RSA plaintext: expected 32-byte AES key, got 16".to_string())
    );
    assert_eq!(
        rsa_decrypt_aes256_key_ct(&key, "AAAA"),
        Err("encrypted_aes_key_b64: RSA OAEP/SHA-256 decrypt: decryption error".to_string())
    );
}

#[test]
fn aes_key_of_an_open_message() {
    assert_eq!(aes256_key(Ok((0..32).collect())), Ok(std::array::from_fn(|i| i as u8)));
    assert_eq!(aes256_key(Ok(vec![])), Err("RSA plaintext: expected 32-byte AES key, got 0".to_string()));
    assert_eq!(aes256_key(Err("x".to_string())), Err("encrypted_aes_key_b64: x".to_string()));
}

fn seal(key: &[u8; 32], nonce: &[u8; 12], plain: &[u8]) -> String {
    let cipher = Aes256Gcm::new_from_slice(key).unwrap();
    STANDARD.encode(cipher.encrypt(Nonce::from_slice(nonce), plain).unwrap())
}

#[test]
fn sealed_code_is_opened() {
    let key = [1u8; 32];
    let nonce = [2u8; 12];
    let sealed = seal(&key, &nonce, "1 + '\u{e9}'".as_bytes());
    let iv = STANDARD.encode(nonce);
    assert_eq!(
        decrypt_aes_gcm_agent_code(&key, &format!("\t{iv} "), &format!("{sealed}\r\n")),
        Ok("1 + '\u{e9}'".to_string())
    );
}

#[test]
fn faults_of_sealed_code_are_named() {
    let key = [1u8; 32];
    let nonce = [2u8; 12];
    let iv = STANDARD.encode(nonce);
    let sealed = seal(&key, &nonce, b"x");
    let wrong_key = decrypt_aes_gcm_agent_code(&[3u8; 32], &iv, &sealed);
    assert_eq!(wrong_key, Err("AES-256-GCM decrypt: aead::Error".to_string()));
    let short = decrypt_aes_gcm_agent_code(&key, &iv, "AAAA");
    assert_eq!(short, Err("AES-256-GCM decrypt: aead::Error".to_string()));
    let bad_iv = decrypt_aes_gcm_agent_code(&key, "?", &sealed).unwrap_err();
    assert!(bad_iv.starts_with("aes_iv_b64: "), "{bad_iv}");
    let long_iv = decrypt_aes_gcm_agent_code(&key, &STANDARD.encode([0u8; 16]), &sealed);
    assert_eq!(long_iv, Err("AES-GCM nonce: expected 12 bytes, got 16".to_string()));
    let bad_code = decrypt_aes_gcm_agent_code(&key, &iv, "?").unwrap_err();
    assert!(bad_code.starts_with("encrypted_code_b64: "), "{bad_code}");
    let no_text = decrypt_aes_gcm_agent_code(&key, &iv, &seal(&key, &nonce, b"\xff")).unwrap_err();
    assert_eq!(no_text, "decrypted code invalid UTF-8: invalid utf-8 sequence of 1 bytes from index 0");
}

#[test]
fn open_code_as_text() {
    assert_eq!(code_text(Ok(b"1".to_vec())), Ok("1".to_string()));
    assert_eq!(code_text(Err("e".to_string())), Err("AES-256-GCM decrypt: e".to_string()));
}
