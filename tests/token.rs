use hmac::{Hmac, Mac};
use rust_jwt_cracker::jwt::{bytes_equal, Jwt, JwtError};
use sha2::Sha256;

const SIGNED: &str = "eyJhbGciOiJIUzI1NiIsInR5cCI6IkpXVCJ9.eyJzdWIiOiIxMjM0In0";

fn sign(secret: &str, signed: &str) -> String {
    let mut mac = Hmac::<Sha256>::new_from_slice(secret.as_bytes()).unwrap();
    mac.update(signed.as_bytes());
    let tag = mac.finalize().into_bytes();
    format!("{}.{}", signed, base64_url::encode(&tag))
}

#[test]
fn split_takes_last_separator() {
    let token = sign("x", SIGNED);
    let jwt = Jwt::new().split(token.clone()).unwrap();
    assert_eq!(jwt.b64_signed_part, SIGNED.as_bytes().to_vec());
    let sig_text = token.rsplit('.').next().unwrap();
    assert_eq!(jwt.b64_signature, sig_text.as_bytes().to_vec());
    assert_eq!(jwt.signature, base64_url::decode(sig_text).unwrap());
    assert_eq!(jwt.signature.len(), 32);
}

#[test]
fn split_decodes_signature() {
    let jwt = Jwt::new().split("a.b.aGVsbG8".to_string()).unwrap();
    assert_eq!(jwt.b64_signed_part, b"a.b".to_vec());
    assert_eq!(jwt.b64_signature, b"aGVsbG8".to_vec());
    assert_eq!(jwt.signature, b"hello".to_vec());
}

#[test]
fn split_without_separator_is_invalid() {
    assert_eq!(Jwt::new().split("nodotshere".to_string()).err(), Some(JwtError::InvalidFormat));
    assert_eq!(Jwt::new().split(String::new()).err(), Some(JwtError::InvalidFormat));
}

#[test]
fn split_with_bad_signature_text_is_invalid() {
    assert_eq!(Jwt::new().split("a.b.!!!".to_string()).err(), Some(JwtError::InvalidFormat));
}

#[test]
fn split_with_empty_signature() {
    let jwt = Jwt::new().split("abc.".to_string()).unwrap();
    assert_eq!(jwt.b64_signed_part, b"abc".to_vec());
    assert!(jwt.signature.is_empty());
}

#[test]
fn new_is_empty() {
    let jwt = Jwt::new();
    assert!(jwt.b64_signed_part.is_empty());
    assert!(jwt.b64_signature.is_empty());
    assert!(jwt.signature.is_empty());
}

#[test]
fn check_accepts_only_the_secret() {
    let jwt = Jwt::new().split(sign("secret", SIGNED)).unwrap();
    assert_eq!(jwt.check(b"secret".to_vec()), Ok(()));
    assert_eq!(jwt.check(b"Secret".to_vec()), Err(JwtError::InvalidSignature));
    assert_eq!(jwt.check(Vec::new()), Err(JwtError::InvalidSignature));
}

#[test]
fn check_against_known_mac() {
    // HMAC-SHA256 with key "Jefe" over "what do ya want for nothing?".
    let jwt = Jwt {
        b64_signed_part: b"what do ya want for nothing?".to_vec(),
        b64_signature: Vec::new(),
        signature: vec![
            0x5b, 0xdc, 0xc1, 0x46, 0xbf, 0x60, 0x75, 0x4e, 0x6a, 0x04, 0x24, 0x26, 0x08, 0x95,
            0x75, 0xc7, 0x5a, 0x00, 0x3f, 0x08, 0x9d, 0x27, 0x39, 0x83, 0x9d, 0xec, 0x58, 0xb9,
            0x64, 0xec, 0x38, 0x43,
        ],
    };
    assert_eq!(jwt.check(b"Jefe".to_vec()), Ok(()));
    assert_eq!(jwt.check(b"jefe".to_vec()), Err(JwtError::InvalidSignature));
}

#[test]
fn check_with_long_key() {
    let key = "k".repeat(200);
    let jwt = Jwt::new().split(sign(&key, SIGNED)).unwrap();
    assert_eq!(jwt.check(key.as_bytes().to_vec()), Ok(()));
}

#[test]
fn error_messages() {
    assert_eq!(JwtError::InvalidFormat.message(), "Invalid jwt format");
    assert_eq!(JwtError::InvalidSignature.message(), "Invalid signature");
}

#[test]
fn byte_comparison() {
    assert!(bytes_equal(b"abc", b"abc"));
    assert!(!bytes_equal(b"abc", b"abd"));
    assert!(!bytes_equal(b"abc", b"ab"));
    assert!(bytes_equal(b"", b""));
}
