use hmac::{Hmac, Mac};
use rust_jwt_cracker::coordinator::Verdict;
use rust_jwt_cracker::jwt::{Jwt, JwtError};
use rust_jwt_cracker::search::{search, verify_candidate, SearchOutcome};
use sha2::Sha256;

const SIGNED: &str = "eyJhbGciOiJIUzI1NiIsInR5cCI6IkpXVCJ9.eyJzdWIiOiJ0ZXN0In0";

fn token_for(secret: &str) -> Jwt {
    let mut mac = Hmac::<Sha256>::new_from_slice(secret.as_bytes()).unwrap();
    mac.update(SIGNED.as_bytes());
    let tag = mac.finalize().into_bytes();
    Jwt::new().split(format!("{}.{}", SIGNED, base64_url::encode(&tag))).unwrap()
}

#[test]
fn secret_x_is_found() {
    let jwt = token_for("x");
    assert_eq!(search(&jwt, "xyz", 1), SearchOutcome::Found("x".to_string()));
}

#[test]
fn secret_outside_alphabet_is_exhausted() {
    let jwt = token_for("zz");
    assert_eq!(search(&jwt, "ab", 3), SearchOutcome::Exhausted);
}

#[test]
fn malformed_token_is_rejected() {
    assert_eq!(
        Jwt::new().split("eyJhbGciOiJIUzI1NiJ9".to_string()).err(),
        Some(JwtError::InvalidFormat)
    );
}

#[test]
fn round_trip_finds_secret() {
    for secret in ["a", "ba", "cab", "ccc"] {
        let jwt = token_for(secret);
        assert_eq!(search(&jwt, "abc", 3), SearchOutcome::Found(secret.to_string()));
        assert_eq!(search(&jwt, "abc", 5), SearchOutcome::Found(secret.to_string()));
    }
}

#[test]
fn secret_longer_than_limit_is_exhausted() {
    let jwt = token_for("abab");
    assert_eq!(search(&jwt, "ab", 3), SearchOutcome::Exhausted);
    assert_eq!(search(&jwt, "ab", 4), SearchOutcome::Found("abab".to_string()));
}

#[test]
fn empty_alphabet_or_zero_length_is_exhausted() {
    let jwt = token_for("a");
    assert_eq!(search(&jwt, "", 3), SearchOutcome::Exhausted);
    assert_eq!(search(&jwt, "a", 0), SearchOutcome::Exhausted);
}

#[test]
fn verdicts() {
    let jwt = token_for("key");
    assert_eq!(verify_candidate(&jwt, "key"), Verdict::Match);
    assert_eq!(verify_candidate(&jwt, "kez"), Verdict::Mismatch);
}
