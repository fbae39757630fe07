use brawlers_core::auth::{BrawlersUseCase, RegisterBrawlerModel};
use brawlers_core::errors::CoreError;
use brawlers_core::hasher::verify_password;
use brawlers_core::store::IdentityStore;

fn model(username: &str, password: &str, display_name: &str) -> RegisterBrawlerModel {
    RegisterBrawlerModel {
        username: username.to_string(),
        password: password.to_string(),
        display_name: display_name.to_string(),
    }
}

#[test]
fn test_brawler_register() {
    let mut brawlers_use_case = BrawlersUseCase::new(IdentityStore::new());

    let register_brawler_model = model("menta", "P@ssw0rd", "Menta");

    let result = brawlers_use_case.register(register_brawler_model).unwrap();

    assert_eq!(result, 1);
}

#[test]
fn register_assigns_fresh_identifiers() {
    let mut uc = BrawlersUseCase::new(IdentityStore::new());
    assert_eq!(uc.register(model("a", "pw1", "A")).unwrap(), 1);
    assert_eq!(uc.register(model("b", "pw2", "B")).unwrap(), 2);
    assert_eq!(uc.register(model("c", "pw3", "C")).unwrap(), 3);
}

#[test]
fn register_taken_username_conflicts_for_any_password() {
    let mut uc = BrawlersUseCase::new(IdentityStore::new());
    uc.register(model("menta", "P@ssw0rd", "Menta")).unwrap();
    for pw in ["P@ssw0rd", "other", "", "P@ssw0rd2"] {
        let r = uc.register(model("menta", pw, "Someone"));
        assert_eq!(r.unwrap_err(), CoreError::Conflict);
    }
    assert_eq!(uc.store.brawlers.len(), 1);
}

#[test]
fn conflict_message_names_the_username_clash() {
    assert_eq!(CoreError::Conflict.message(), "Username already exists");
}

#[test]
fn register_persists_a_hash_never_the_plaintext() {
    let mut uc = BrawlersUseCase::new(IdentityStore::new());
    uc.register(model("menta", "P@ssw0rd", "Menta")).unwrap();
    let stored = uc.store.brawlers[0].password_hash.clone();
    assert_ne!(stored, "P@ssw0rd");
    assert!(stored.starts_with('$'));
    assert!(verify_password("P@ssw0rd", &stored));
    assert!(!verify_password("p@ssw0rd", &stored));
}

#[test]
fn same_password_hashes_differently_but_both_verify() {
    let mut uc = BrawlersUseCase::new(IdentityStore::new());
    uc.register(model("a", "P@ssw0rd", "A")).unwrap();
    uc.register(model("b", "P@ssw0rd", "B")).unwrap();
    let h1 = uc.store.brawlers[0].password_hash.clone();
    let h2 = uc.store.brawlers[1].password_hash.clone();
    assert_ne!(h1, h2);
    assert!(verify_password("P@ssw0rd", &h1));
    assert!(verify_password("P@ssw0rd", &h2));
}

#[test]
fn register_then_login_round_trip() {
    let secret = "gate-secret";
    let mut uc = BrawlersUseCase::new(IdentityStore::new());
    let passport = uc
        .register_and_login(model("menta", "P@ssw0rd", "Menta"), secret, 1_000, 3_600)
        .unwrap();
    assert_eq!(passport.token_type, "Bearer");
    assert_eq!(passport.expires_in, 3_600);
    assert_eq!(passport.display_name, "Menta");
    assert!(passport.avatar_url.is_none());

    // An immediate login with the same credentials succeeds with a fresh,
    // equally valid token (issued one second later).
    let username = "menta".to_string();
    let second = uc.login(&username, "P@ssw0rd", secret, 1_001, 3_600).unwrap();
    assert_ne!(second.access_token, passport.access_token);
    let c1 = brawlers_core::token::verify(secret, &passport.access_token, 1_000).unwrap();
    let c2 = brawlers_core::token::verify(secret, &second.access_token, 1_001).unwrap();
    assert_eq!(c1.sub, "1");
    assert_eq!(c2.sub, "1");

    let wrong = uc.login(&username, "wrong", secret, 1_002, 3_600);
    assert_eq!(wrong.unwrap_err(), CoreError::InvalidCredentials);
}

#[test]
fn login_unknown_user_is_invalid_credentials() {
    let uc = BrawlersUseCase::new(IdentityStore::new());
    let username = "ghost".to_string();
    let r = uc.login(&username, "whatever", "s", 0, 60);
    assert_eq!(r.unwrap_err(), CoreError::InvalidCredentials);
}

#[test]
fn upload_avatar_returns_the_data_url_and_stores_it() {
    let mut uc = BrawlersUseCase::new(IdentityStore::new());
    let id = uc.register(model("menta", "P@ssw0rd", "Menta")).unwrap();
    let url = uc.upload_avatar("QUJD".to_string(), id).unwrap();
    assert_eq!(url, "data:image/png;base64,QUJD");
    assert_eq!(uc.store.brawlers[0].avatar_url.as_deref(), Some("data:image/png;base64,QUJD"));
}
