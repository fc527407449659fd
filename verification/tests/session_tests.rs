use cytrace::session::{login_cookie, logout_cookie, token_from_cookie_header, SessionStore, COOKIE_NAME};

#[test]
fn create_validate_revoke_roundtrip() {
    let mut store = SessionStore::new(3600);
    let token = store.create().unwrap();
    assert_eq!(token.len(), 64);
    assert!(store.validate(&token).is_some());
    store.revoke(&token);
    assert!(store.validate(&token).is_none());
}

#[test]
fn zero_ttl_expires_immediately() {
    let mut store = SessionStore::new(0);
    let token = store.create().unwrap();
    assert!(store.validate(&token).is_none());
}

#[test]
fn unknown_or_tampered_token_rejected() {
    let mut store = SessionStore::new(3600);
    let token = store.create().unwrap();
    let mut tampered = token.clone();
    tampered.replace_range(0..2, if &token[0..2] == "00" { "01" } else { "00" });
    assert!(store.validate(&tampered).is_none());
    assert!(store.validate("deadbeef").is_none());
}

#[test]
fn cookie_helpers() {
    let c = login_cookie("abc", false);
    assert!(c.contains("cytrace_session=abc"));
    assert!(c.contains("HttpOnly") && c.contains("SameSite=Strict"));
    assert!(!c.contains("Secure"));
    assert!(login_cookie("abc", true).contains("; Secure"));
    assert!(logout_cookie(false).contains("Max-Age=0"));
    assert_eq!(
        token_from_cookie_header("foo=1; cytrace_session=tok123; bar=2"),
        Some("tok123")
    );
    assert_eq!(token_from_cookie_header("foo=1"), None);
}

#[test]
fn cookie_texts_are_exact() {
    assert_eq!(COOKIE_NAME, "cytrace_session");
    assert_eq!(
        login_cookie("t", true),
        "cytrace_session=t; HttpOnly; SameSite=Strict; Path=/; Secure"
    );
    assert_eq!(
        logout_cookie(false),
        "cytrace_session=; HttpOnly; SameSite=Strict; Path=/; Max-Age=0"
    );
    assert_eq!(
        logout_cookie(true),
        "cytrace_session=; HttpOnly; SameSite=Strict; Path=/; Max-Age=0; Secure"
    );
}

#[test]
fn cookie_header_token_edge_cases() {
    assert_eq!(token_from_cookie_header("  cytrace_session=a=b ;x=1"), Some("a=b"));
    assert_eq!(token_from_cookie_header("cytrace_session="), Some(""));
    assert_eq!(token_from_cookie_header("xcytrace_session=1; cytrace_session=2"), Some("2"));
    assert_eq!(token_from_cookie_header("cytrace_session"), None);
    assert_eq!(token_from_cookie_header(""), None);
    let cookie = login_cookie("feed", false);
    assert_eq!(token_from_cookie_header(&cookie), Some("feed"));
}

#[test]
fn create_at_uses_hex_of_the_raw_bytes() {
    let mut store = SessionStore::new(10);
    let token = store.create_at(&[0x00, 0xab, 0xff], 5_000_000_000);
    assert_eq!(token, "00abff");
    let s = store.validate_at("00abff", 5_000_000_000).unwrap();
    assert_eq!(s.created_at, 5_000_000_000);
    assert_eq!(s.expires_at, 15_000_000_000);
    assert!(store.validate_at("00abff", 14_999_999_999).is_some());
    assert!(store.validate_at("00abff", 15_000_000_000).is_none());
    assert!(store.validate_at("00abff", 0).is_none());
}

#[test]
fn revoking_an_unknown_token_is_harmless() {
    let mut store = SessionStore::new(3600);
    let token = store.create().unwrap();
    store.revoke("nope");
    store.revoke(&token);
    store.revoke(&token);
    assert!(store.validate(&token).is_none());
}

#[test]
fn store_keys_are_sha256_of_the_token_text() {
    let d = cytrace::session::hash_token("abc");
    assert_eq!(
        cytrace::session::to_hex(&d),
        "ba7816bf8f01cfea414140de5dae2223b00361a396177a9cb410ff61f20015ad"
    );
    assert_eq!(cytrace::session::to_hex(&[0x0f, 0xa0]), "0fa0");
    assert_eq!(cytrace::session::to_hex(&[]), "");
}

#[test]
fn session_history_answers_the_last_creation_until_expiry() {
    let mut store = SessionStore::new(10);
    let a = store.create_at(&[0xaa], 0);
    let b = store.create_at(&[0xbb], 1_000_000_000);
    assert!(store.validate_at(&a, 5_000_000_000).is_some());
    store.revoke(&a);
    assert!(store.validate_at(&a, 5_000_000_000).is_none());
    let again = store.create_at(&[0xaa], 6_000_000_000);
    assert_eq!(again, a);
    let s = store.validate_at(&a, 7_000_000_000).unwrap();
    assert_eq!((s.created_at, s.expires_at), (6_000_000_000, 16_000_000_000));
    assert!(store.validate_at(&b, 10_999_999_999).is_some());
    assert!(store.validate_at(&b, 11_000_000_000).is_none());
    assert!(store.validate_at(&b, 12_000_000_000).is_none());
}
