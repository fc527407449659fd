use cytrace::api_error::{ApiError, ErrorKind, Lang};
use cytrace::auth::{csrf_check, hash_password};
use cytrace::i18n::{Catalog, JsonValue};
use cytrace::service::{login, require_session};
use cytrace::session::SessionStore;
use cytrace::throttle::LoginThrottle;

fn table(not_found: &str) -> JsonValue {
    JsonValue::Object(vec![(
        "server".to_string(),
        JsonValue::Object(vec![(
            "err".to_string(),
            JsonValue::Object(vec![("not_found".to_string(), JsonValue::Str(not_found.to_string()))]),
        )]),
    )])
}

fn catalog_for(lang: Lang) -> Catalog {
    let code = match lang {
        Lang::EnUs => "en-US",
        Lang::ZhTw => "zh-TW",
    };
    Catalog::load(code, table("Resource not found"), table("找不到資源"))
}

#[test]
fn unknown_route_returns_404_error_shape() {
    let e = ApiError::new(Lang::ZhTw, ErrorKind::NotFound);
    assert_eq!(e.kind.status(), 404);
    assert_eq!(e.kind.as_str(), "not_found");
    assert_eq!(e.kind.i18n_key(), "server.err.not_found");
}

#[test]
fn lang_negotiation_switches_error_language() {
    let lang = Lang::negotiate(Some("lang=en-US"), None);
    let e = ApiError::new(lang, ErrorKind::NotFound);
    assert_eq!(e.message(&catalog_for(e.lang)), "Resource not found");

    let lang = Lang::negotiate(None, None);
    let e = ApiError::new(lang, ErrorKind::NotFound);
    assert_eq!(e.message(&catalog_for(e.lang)), "找不到資源");
}

#[test]
fn version_requires_auth() {
    let mut s = SessionStore::new(3600);
    let e = require_session(&mut s, None, Lang::ZhTw).unwrap_err();
    assert_eq!(e.kind.status(), 401);
    assert_eq!(e.kind.as_str(), "auth");

    let phc = hash_password("test-password-123").unwrap();
    let mut t = LoginThrottle::default();
    let set_cookie = login(&mut t, &mut s, &phc, false, &[10, 0, 0, 1], Lang::ZhTw, "test-password-123").unwrap();
    let cookie = set_cookie.split(';').next().unwrap().to_string();
    assert!(require_session(&mut s, Some(&cookie), Lang::ZhTw).is_ok());
}

#[test]
fn mutating_request_without_csrf_header_is_403() {
    let e = csrf_check("POST", None, Lang::ZhTw).unwrap_err();
    assert_eq!(e.kind.status(), 403);
    assert_eq!(e.kind.as_str(), "csrf");
}

#[test]
fn get_requests_do_not_need_csrf_header() {
    assert!(csrf_check("GET", None, Lang::ZhTw).is_ok());
}

#[test]
fn set_cookie_value_sent_back_opens_the_session() {
    let phc = hash_password("test-password-123").unwrap();
    let mut t = LoginThrottle::default();
    let mut s = SessionStore::new(3600);
    let set_cookie = login(&mut t, &mut s, &phc, true, &[10, 0, 0, 5], Lang::EnUs, "test-password-123").unwrap();
    assert!(set_cookie.ends_with("; Secure"));
    assert!(require_session(&mut s, Some(&set_cookie), Lang::EnUs).is_ok());
}
