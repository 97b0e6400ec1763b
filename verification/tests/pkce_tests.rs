use sha2::Digest;
use wilma_dumper::pkce::{base64url_encode, challenge_of_verifier, generate_code, generate_state};

fn b(s: &str) -> Vec<u8> {
    s.as_bytes().to_vec()
}

#[test]
fn base64url_rfc_vectors() {
    assert_eq!(base64url_encode(&b("")), b(""));
    assert_eq!(base64url_encode(&b("f")), b("Zg"));
    assert_eq!(base64url_encode(&b("fo")), b("Zm8"));
    assert_eq!(base64url_encode(&b("foo")), b("Zm9v"));
    assert_eq!(base64url_encode(&b("foob")), b("Zm9vYg"));
    assert_eq!(base64url_encode(&b("fooba")), b("Zm9vYmE"));
    assert_eq!(base64url_encode(&b("foobar")), b("Zm9vYmFy"));
}

#[test]
fn base64url_uses_url_alphabet() {
    // 0xfb 0xef 0xff encodes to "--__" in the URL-safe alphabet.
    assert_eq!(base64url_encode(&vec![0xfb, 0xef, 0xff]), b("--__"));
    // Matches the base64-url crate on the same bytes.
    assert_eq!(
        base64url_encode(&vec![0xfb, 0xef, 0xff, 0x01]),
        base64_url::encode(&[0xfbu8, 0xef, 0xff, 0x01]).into_bytes()
    );
}

#[test]
fn challenge_is_43_alphabet_characters() {
    let (challenge, _) = generate_code();
    assert_eq!(challenge.len(), 43);
    for &x in &challenge {
        assert!(x.is_ascii_alphanumeric() || x == b'-' || x == b'_');
    }
}

#[test]
fn challenge_known_vector() {
    // SHA-256 of this fixed 64-character verifier, base64url without padding.
    let v = b("abcdefghijklmnopqrstuvwxyzABCDEFGHIJKLMNOPQRSTUVWXYZ0123456789ab");
    let c = challenge_of_verifier(&v);
    assert_eq!(c, b("-kQ_JGVj138fR8MiJRFZ4yo1cAW_a_zGGMPJBehJy80"));
}

#[test]
fn generated_challenge_recomputes_independently() {
    let (challenge, verifier) = generate_code();
    let digest = sha2::Sha256::digest(&verifier);
    let expected = base64_url::encode(&digest);
    assert_eq!(challenge, expected.into_bytes());
}

#[test]
fn generated_values_are_64_alphanumeric() {
    let (_, verifier) = generate_code();
    let state = generate_state();
    assert_eq!(verifier.len(), 64);
    assert_eq!(state.len(), 64);
    for &x in verifier.iter().chain(state.iter()) {
        assert!(x.is_ascii_alphanumeric());
    }
}

#[test]
fn successive_draws_never_repeat() {
    let mut seen = std::collections::HashSet::new();
    for _ in 0..1000 {
        let (_, verifier) = generate_code();
        let state = generate_state();
        assert_ne!(verifier, state);
        assert!(seen.insert(verifier));
        assert!(seen.insert(state));
    }
}
