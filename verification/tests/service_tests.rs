use cytrace::api_error::{ErrorKind, Lang};
use cytrace::auth::hash_password;
use cytrace::service::{iso_of, login, login_at, logout, require_session, whoami, LoginBody};
use cytrace::session::{token_from_cookie_header, SessionStore};
use cytrace::throttle::LoginThrottle;

const TEST_PASSWORD: &str = "test-password-123";

fn phc() -> String {
    hash_password(TEST_PASSWORD).unwrap()
}

fn cookie_pair(set_cookie: &str) -> String {
    set_cookie.split(';').next().unwrap().to_string()
}

#[test]
fn login_wrong_password_returns_401_uniform() {
    let mut t = LoginThrottle::default();
    let mut s = SessionStore::new(3600);
    let err = login(&mut t, &mut s, &phc(), false, &[10, 0, 0, 2], Lang::ZhTw, "wrong-password-xx").unwrap_err();
    assert_eq!(err.kind, ErrorKind::Auth);
    assert_eq!(err.kind.as_str(), "auth");
    assert_eq!(err.kind.status(), 401);
}

#[test]
fn whoami_and_logout_lifecycle() {
    let mut t = LoginThrottle::default();
    let mut s = SessionStore::new(3600);
    let set_cookie = login(&mut t, &mut s, &phc(), false, &[10, 0, 0, 1], Lang::ZhTw, TEST_PASSWORD).unwrap();
    let cookie = cookie_pair(&set_cookie);

    let info = whoami(&mut s, Some(&cookie), Lang::ZhTw, "admin").unwrap();
    assert_eq!(info.user, "admin");
    assert!(info.expires_at.ends_with('Z'));
    assert!(require_session(&mut s, Some(&cookie), Lang::ZhTw).is_ok());

    let cleared = logout(&mut s, Some(&cookie), false);
    assert!(cleared.contains("Max-Age=0"));

    let err = whoami(&mut s, Some(&cookie), Lang::ZhTw, "admin").unwrap_err();
    assert_eq!(err.kind.status(), 401);
    assert!(require_session(&mut s, Some(&cookie), Lang::EnUs).is_err());
    let again = logout(&mut s, Some(&cookie), true);
    assert!(again.ends_with("; Secure"));
}

#[test]
fn session_ttl_zero_expires_immediately() {
    let mut t = LoginThrottle::default();
    let mut s = SessionStore::new(0);
    let set_cookie = login(&mut t, &mut s, &phc(), false, &[10, 0, 0, 3], Lang::ZhTw, TEST_PASSWORD).unwrap();
    let cookie = cookie_pair(&set_cookie);
    let err = whoami(&mut s, Some(&cookie), Lang::ZhTw, "admin").unwrap_err();
    assert_eq!(err.kind, ErrorKind::Auth);
}

#[test]
fn login_throttled_after_five_failures_per_ip() {
    let hash = phc();
    let mut t = LoginThrottle::default();
    let mut s = SessionStore::new(3600);
    for _ in 0..5 {
        let e = login(&mut t, &mut s, &hash, false, &[10, 0, 0, 7], Lang::ZhTw, "wrong-password-xx").unwrap_err();
        assert_eq!(e.kind.status(), 401);
    }
    let e = login(&mut t, &mut s, &hash, false, &[10, 0, 0, 7], Lang::ZhTw, TEST_PASSWORD).unwrap_err();
    assert_eq!(e.kind.status(), 429);
    assert_eq!(e.retry_after, Some(900));
    assert!(login(&mut t, &mut s, &hash, false, &[10, 0, 0, 8], Lang::ZhTw, TEST_PASSWORD).is_ok());
}

#[test]
fn cookie_attributes_hardened() {
    let mut t = LoginThrottle::default();
    let mut s = SessionStore::new(3600);
    let cookie = login(&mut t, &mut s, &phc(), false, &[10, 0, 0, 11], Lang::ZhTw, TEST_PASSWORD).unwrap();
    assert!(cookie.contains("HttpOnly"));
    assert!(cookie.contains("SameSite=Strict"));
    assert!(!cookie.contains("Secure"));
    let token = token_from_cookie_header(&cookie_pair(&cookie)).unwrap().to_string();
    assert_eq!(token.len(), 64);
}

#[test]
fn login_with_broken_admin_hash_is_internal_error() {
    let mut t = LoginThrottle::default();
    let mut s = SessionStore::new(3600);
    let e = login_at(&mut t, &mut s, "not-a-phc", false, &[1, 2, 3, 4], Lang::EnUs, "x", 0).unwrap_err();
    assert_eq!(e.kind, ErrorKind::Internal);
    assert_eq!(e.kind.status(), 500);
    assert!(e.detail.unwrap().starts_with("PHC 格式錯誤: "));
    assert!(t.check_at(&[1, 2, 3, 4], 0).is_ok());
}

#[test]
fn requests_without_a_session_cookie_are_refused() {
    let mut s = SessionStore::new(3600);
    let e = require_session(&mut s, None, Lang::EnUs).unwrap_err();
    assert_eq!(e.kind, ErrorKind::Auth);
    assert_eq!(e.lang, Lang::EnUs);
    assert!(require_session(&mut s, Some("foo=1"), Lang::ZhTw).is_err());
    assert!(whoami(&mut s, Some("cytrace_session=deadbeef"), Lang::ZhTw, "admin").is_err());
    assert_eq!(
        logout(&mut s, None, false),
        "cytrace_session=; HttpOnly; SameSite=Strict; Path=/; Max-Age=0"
    );
}

#[test]
fn session_times_show_as_iso_text() {
    assert_eq!(iso_of(0), "1970-01-01T00:00:00Z");
    assert_eq!(iso_of(1_609_459_200_999_999_999), "2021-01-01T00:00:00Z");
    assert_eq!(iso_of(u128::MAX), cytrace::timefmt::epoch_to_iso(u64::MAX));
}

#[test]
fn login_body_carries_the_password() {
    let b = LoginBody::new("pw".to_string());
    assert_eq!(b.password(), "pw");
}
