use cytrace::api_error::{ApiError, ErrorKind, Lang};
use cytrace::error::CytraceError;
use cytrace::i18n::{Catalog, JsonValue};

#[test]
fn negotiate_prefers_query_over_header() {
    assert_eq!(
        Lang::negotiate(Some("lang=en-US"), Some("zh-TW")),
        Lang::EnUs
    );
    assert_eq!(Lang::negotiate(None, Some("en-US,en;q=0.9")), Lang::EnUs);
    assert_eq!(Lang::negotiate(None, None), Lang::ZhTw);
    assert_eq!(Lang::negotiate(Some("foo=1&lang=en"), None), Lang::EnUs);
}

#[test]
fn negotiate_edge_cases() {
    assert_eq!(Lang::negotiate(Some("lang=zh"), Some("en")), Lang::ZhTw);
    assert_eq!(Lang::negotiate(Some("x=1"), Some(" EN-gb ,zh")), Lang::EnUs);
    assert_eq!(Lang::negotiate(Some("lang= en"), None), Lang::EnUs);
    assert_eq!(Lang::negotiate(Some(""), Some("fr")), Lang::ZhTw);
    assert_eq!(Lang::negotiate(None, Some("")), Lang::ZhTw);
}

#[test]
fn core_error_maps_to_kind() {
    let e = ApiError::from_core(Lang::ZhTw, &CytraceError::Engine("x".to_string()));
    assert_eq!(e.kind, ErrorKind::Engine);
    assert_eq!(e.kind.status(), 500);
    let e = ApiError::from_core(Lang::ZhTw, &CytraceError::DbMissing("x".to_string()));
    assert_eq!(e.kind.status(), 503);
}

#[test]
fn core_errors_keep_their_message_as_detail() {
    let e = ApiError::from_core(Lang::EnUs, &CytraceError::Parse("bad".to_string()));
    assert_eq!(e.kind, ErrorKind::Parse);
    assert_eq!(e.lang, Lang::EnUs);
    assert_eq!(e.detail.as_deref(), Some("解析錯誤：bad"));
    assert_eq!(e.retry_after, None);
    let io = ApiError::from_core(Lang::ZhTw, &CytraceError::Io("disk".to_string()));
    assert_eq!(io.kind, ErrorKind::Io);
    let cfg = ApiError::from_core(Lang::ZhTw, &CytraceError::Config("c".to_string()));
    assert_eq!(cfg.kind, ErrorKind::Config);
    assert_eq!(CytraceError::Engine("e".to_string()).message(), "引擎子程序錯誤：e");
    assert_eq!(CytraceError::DbMissing("d".to_string()).message(), "漏洞資料庫快照缺失：d");
}

#[test]
fn error_kinds_have_names_statuses_and_keys() {
    let table = [
        (ErrorKind::Engine, "engine", 500),
        (ErrorKind::Parse, "parse", 500),
        (ErrorKind::Io, "io", 500),
        (ErrorKind::Config, "config", 500),
        (ErrorKind::DbMissing, "db_missing", 503),
        (ErrorKind::NotFound, "not_found", 404),
        (ErrorKind::Internal, "internal", 500),
        (ErrorKind::Auth, "auth", 401),
        (ErrorKind::Csrf, "csrf", 403),
        (ErrorKind::RateLimited, "rate_limited", 429),
        (ErrorKind::Validation, "validation", 400),
    ];
    for (k, name, status) in table {
        assert_eq!(k.as_str(), name);
        assert_eq!(k.status(), status);
        assert_eq!(k.i18n_key(), format!("server.err.{name}"));
    }
}

#[test]
fn builders_set_detail_and_retry_after() {
    let e = ApiError::new(Lang::EnUs, ErrorKind::RateLimited)
        .with_retry_after(900)
        .with_detail("slow down".to_string());
    assert_eq!(e.retry_after, Some(900));
    assert_eq!(e.detail.as_deref(), Some("slow down"));
    assert_eq!(e.kind, ErrorKind::RateLimited);
    assert_eq!(e.lang, Lang::EnUs);
}

#[test]
fn error_message_comes_from_the_catalog() {
    let zh = JsonValue::Object(vec![(
        "server".to_string(),
        JsonValue::Object(vec![(
            "err".to_string(),
            JsonValue::Object(vec![("auth".to_string(), JsonValue::Str("未登入".to_string()))]),
        )]),
    )]);
    let cat = Catalog::load("zh-TW", JsonValue::Null, zh);
    let e = ApiError::new(Lang::ZhTw, ErrorKind::Auth);
    assert_eq!(e.message(&cat), "未登入");
    let e = ApiError::new(Lang::ZhTw, ErrorKind::Csrf);
    assert_eq!(e.message(&cat), "server.err.csrf");
}
