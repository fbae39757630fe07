use brawlers_core::numbers::{parse_i32_dec, u64_to_dec, u64_to_hex16};
use brawlers_core::token::{issue, verify, TokenError};

#[test]
fn issued_token_verifies_until_expiry_and_not_after() {
    let secret = "top-secret";
    let token = issue(secret, 42, 1_000, 60);

    // Any check at or before issued_at + ttl succeeds.
    for now in [1_000, 1_030, 1_060] {
        let claims = verify(secret, &token, now).unwrap();
        assert_eq!(claims.sub, "42");
        assert_eq!(claims.iat, 1_000);
        assert_eq!(claims.exp, 1_060);
    }

    // Strictly after the expiry the only answer is Expired.
    for now in [1_061, 2_000, u64::MAX] {
        assert_eq!(verify(secret, &token, now).unwrap_err(), TokenError::Expired);
    }
}

#[test]
fn token_shape_is_fixed_width_hex() {
    let token = issue("k", 1, 2, 3);
    assert_eq!(token.len(), 112);
    assert!(token.chars().all(|c| c.is_ascii_hexdigit() && !c.is_ascii_uppercase()));
    assert!(token.starts_with(&u64_to_hex16(1)));
    assert_eq!(&token[16..32], u64_to_hex16(2));
    assert_eq!(&token[32..48], u64_to_hex16(5));
}

#[test]
fn wrong_secret_fails_the_signature_check() {
    let token = issue("secret-a", 7, 100, 100);
    assert_eq!(verify("secret-b", &token, 100).unwrap_err(), TokenError::BadSignature);
    assert!(verify("secret-a", &token, 100).is_ok());
}

#[test]
fn tampered_tokens_are_rejected() {
    let secret = "s";
    let token = issue(secret, 7, 100, 100);

    // Flip one payload character: the signature no longer matches.
    let mut payload_tampered: Vec<char> = token.chars().collect();
    payload_tampered[15] = if payload_tampered[15] == '7' { '8' } else { '7' };
    let payload_tampered: String = payload_tampered.into_iter().collect();
    assert_eq!(
        verify(secret, &payload_tampered, 100).unwrap_err(),
        TokenError::BadSignature
    );

    // Flip one signature character.
    let mut sig_tampered: Vec<char> = token.chars().collect();
    sig_tampered[100] = if sig_tampered[100] == '0' { '1' } else { '0' };
    let sig_tampered: String = sig_tampered.into_iter().collect();
    assert_eq!(verify(secret, &sig_tampered, 100).unwrap_err(), TokenError::BadSignature);
}

#[test]
fn malformed_tokens_are_rejected() {
    assert_eq!(verify("s", "", 0).unwrap_err(), TokenError::Malformed);
    assert_eq!(verify("s", "abc", 0).unwrap_err(), TokenError::Malformed);
    let not_hex = "g".repeat(112);
    assert_eq!(verify("s", &not_hex, 0).unwrap_err(), TokenError::Malformed);
    let truncated = &issue("s", 1, 2, 3)[..111];
    assert_eq!(verify("s", truncated, 0).unwrap_err(), TokenError::Malformed);
}

#[test]
fn decimal_rendering_exact_values() {
    assert_eq!(u64_to_dec(0), "0");
    assert_eq!(u64_to_dec(7), "7");
    assert_eq!(u64_to_dec(12_345), "12345");
    assert_eq!(u64_to_dec(u64::MAX), "18446744073709551615");
}

#[test]
fn hex_rendering_exact_values() {
    assert_eq!(u64_to_hex16(0), "0000000000000000");
    assert_eq!(u64_to_hex16(255), "00000000000000ff");
    assert_eq!(u64_to_hex16(u64::MAX), "ffffffffffffffff");
    assert_eq!(u64_to_hex16(0x1234_5678_9abc_def0), "123456789abcdef0");
}

#[test]
fn identifier_parsing_bounds_and_shapes() {
    assert_eq!(parse_i32_dec("0"), Some(0));
    assert_eq!(parse_i32_dec("42"), Some(42));
    assert_eq!(parse_i32_dec("0042"), Some(42));
    assert_eq!(parse_i32_dec("2147483647"), Some(i32::MAX));
    assert_eq!(parse_i32_dec("2147483648"), None);
    assert_eq!(parse_i32_dec("99999999999999999999"), None);
    assert_eq!(parse_i32_dec(""), None);
    assert_eq!(parse_i32_dec("12a"), None);
    assert_eq!(parse_i32_dec("-1"), None);
    assert_eq!(parse_i32_dec("+1"), None);
}
