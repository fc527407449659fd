use cytrace::config::{bind_error, resolve_settings, session_ttl_secs, tls_files, DEFAULT_BIND, DEFAULT_DATA_DIR};
use cytrace::error::CytraceError;

fn env(pairs: &[(&str, &str)]) -> Vec<(String, String)> {
    pairs
        .iter()
        .map(|(k, v)| (k.to_string(), v.to_string()))
        .collect()
}

#[test]
fn flag_overrides_env_overrides_default() {
    let c = resolve_settings(
        Some("127.0.0.1:9999".to_string()),
        None,
        &env(&[("CYTRACE_BIND", "0.0.0.0:1234")]),
    );
    assert_eq!(c.bind, "127.0.0.1:9999");

    let c = resolve_settings(None, None, &env(&[("CYTRACE_BIND", "0.0.0.0:1234")]));
    assert_eq!(c.bind, "0.0.0.0:1234");

    let c = resolve_settings(None, None, &[]);
    assert_eq!(c.bind, DEFAULT_BIND);
    assert_eq!(c.data_dir, DEFAULT_DATA_DIR);
}

#[test]
fn invalid_bind_is_config_error() {
    let err = bind_error("not-an-addr");
    assert!(matches!(err, CytraceError::Config(_)));
    assert_eq!(
        err,
        CytraceError::Config("CYTRACE_BIND 不是合法位址：not-an-addr".to_string())
    );
}

#[test]
fn db_cache_dir_only_from_environment() {
    let c = resolve_settings(None, None, &[]);
    assert_eq!(c.db_cache_dir, None);
    let c = resolve_settings(
        None,
        Some("/srv/data".to_string()),
        &env(&[("GRYPE_DB_CACHE_DIR", "/db"), ("CYTRACE_DATA_DIR", "/ignored")]),
    );
    assert_eq!(c.db_cache_dir.as_deref(), Some("/db"));
    assert_eq!(c.data_dir, "/srv/data");
    let c = resolve_settings(None, None, &env(&[("CYTRACE_DATA_DIR", "/d")]));
    assert_eq!(c.data_dir, "/d");
}

#[test]
fn session_ttl_reads_whole_hours() {
    assert_eq!(session_ttl_secs(&[]), Ok(12 * 3600));
    assert_eq!(session_ttl_secs(&env(&[("CYTRACE_SESSION_TTL_HOURS", "0")])), Ok(0));
    assert_eq!(session_ttl_secs(&env(&[("CYTRACE_SESSION_TTL_HOURS", " +2 ")])), Ok(7200));
    assert_eq!(
        session_ttl_secs(&env(&[("CYTRACE_SESSION_TTL_HOURS", "18446744073709551615")])),
        Ok(u64::MAX)
    );
    assert_eq!(
        session_ttl_secs(&env(&[("CYTRACE_SESSION_TTL_HOURS", "12h")])),
        Err(CytraceError::Config("CYTRACE_SESSION_TTL_HOURS 不是整數：12h".to_string()))
    );
    for bad in ["", "+", "-1", "18446744073709551616"] {
        assert!(session_ttl_secs(&env(&[("CYTRACE_SESSION_TTL_HOURS", bad)])).is_err());
    }
}

#[test]
fn tls_needs_both_files() {
    assert_eq!(tls_files(&env(&[("CYTRACE_TLS_CERT", "c.pem")])), None);
    assert_eq!(
        tls_files(&env(&[("CYTRACE_TLS_KEY", "k.pem"), ("CYTRACE_TLS_CERT", "c.pem")])),
        Some(("c.pem".to_string(), "k.pem".to_string()))
    );
}
