use brawlers_core::errors::CoreError;
use brawlers_core::gate::{authorize_cookie, authorize_header, get_cookie_value};
use brawlers_core::token::issue;

#[test]
fn bearer_header_resolves_the_subject() {
    let secret = "gate-secret";
    let token = issue(secret, 42, 1_000, 60);
    let header = format!("Bearer {token}");
    assert_eq!(authorize_header(Some(&header), secret, 1_050), Ok(42));
}

#[test]
fn header_gate_rejects_every_failure_uniformly() {
    let secret = "gate-secret";
    let token = issue(secret, 42, 1_000, 60);

    // Missing header.
    assert_eq!(authorize_header(None, secret, 1_000), Err(CoreError::Unauthorized));
    // Wrong scheme.
    let header = format!("Token {token}");
    assert_eq!(authorize_header(Some(&header), secret, 1_000), Err(CoreError::Unauthorized));
    // Bare token without the Bearer prefix.
    assert_eq!(authorize_header(Some(&token), secret, 1_000), Err(CoreError::Unauthorized));
    // Expired token.
    let header = format!("Bearer {token}");
    assert_eq!(authorize_header(Some(&header), secret, 1_061), Err(CoreError::Unauthorized));
    // Wrong secret.
    assert_eq!(authorize_header(Some(&header), "other", 1_000), Err(CoreError::Unauthorized));
    // Garbage token.
    assert_eq!(
        authorize_header(Some("Bearer not-a-token"), secret, 1_000),
        Err(CoreError::Unauthorized)
    );
}

#[test]
fn header_gate_rejects_oversized_subjects() {
    let secret = "gate-secret";
    // A signed token naming a subject no i32 can carry.
    let token = issue(secret, (i32::MAX as u64) + 1, 1_000, 60);
    let header = format!("Bearer {token}");
    assert_eq!(authorize_header(Some(&header), secret, 1_000), Err(CoreError::Unauthorized));
}

#[test]
fn cookie_gate_resolves_the_subject() {
    let secret = "cookie-secret";
    let token = issue(secret, 7, 500, 100);
    let header = format!("theme=dark; auth_token={token}; lang=en");
    assert_eq!(authorize_cookie(Some(&header), secret, 600), Ok(7));
}

#[test]
fn cookie_gate_rejects_missing_or_stale_cookies() {
    let secret = "cookie-secret";
    let token = issue(secret, 7, 500, 100);
    assert_eq!(authorize_cookie(None, secret, 500), Err(CoreError::Unauthorized));
    let no_cookie = "theme=dark; lang=en";
    assert_eq!(authorize_cookie(Some(no_cookie), secret, 500), Err(CoreError::Unauthorized));
    let header = format!("auth_token={token}");
    assert_eq!(authorize_cookie(Some(&header), secret, 601), Err(CoreError::Unauthorized));
}

#[test]
fn cookie_values_are_found_by_name() {
    let header = "a=1; auth_token=tok-123; b=2";
    assert_eq!(get_cookie_value(header, "auth_token").as_deref(), Some("tok-123"));
    assert_eq!(get_cookie_value(header, "a").as_deref(), Some("1"));
    assert_eq!(get_cookie_value(header, "b").as_deref(), Some("2"));
    assert_eq!(get_cookie_value(header, "missing"), None);
    assert_eq!(get_cookie_value("", "a"), None);
}

#[test]
fn cookie_lookup_trims_and_takes_the_first_match() {
    assert_eq!(get_cookie_value("k = v ; x=y", "k").as_deref(), Some("v"));
    assert_eq!(get_cookie_value("k=first; k=second", "k").as_deref(), Some("first"));
    // A segment without '=' is skipped.
    assert_eq!(get_cookie_value("junk; k=v", "k").as_deref(), Some("v"));
    // The value keeps any inner '=' characters.
    assert_eq!(get_cookie_value("k=a=b; x=y", "k").as_deref(), Some("a=b"));
    // An empty value is still a value.
    assert_eq!(get_cookie_value("k=; x=y", "k").as_deref(), Some(""));
}

#[test]
fn error_messages_stay_low_information() {
    assert_eq!(CoreError::Unauthorized.message(), "Unauthorized");
    assert_eq!(CoreError::InvalidCredentials.message(), "Invalid username or password");
    assert_eq!(CoreError::NotFoundOrForbidden.message(), "Mission not found or not yours");
    assert_eq!(CoreError::StorageError.message(), "Internal server error");
    assert_eq!(CoreError::ValidationError.message(), "Invalid request");
    let resp = brawlers_core::errors::ErrorResponse::new("oops".to_string());
    assert_eq!(resp.message, "oops");
}
