use cytrace::api_error::{ErrorKind, Lang};
use cytrace::auth::{csrf_check, hash_password, hash_password_with_salt, is_mutating_method, is_valid_phc, verify_password, CSRF_HEADER, MIN_PASSWORD_LEN};
use cytrace::throttle::LoginThrottle;

const IP1: [u8; 4] = [10, 0, 0, 1];
const IP2: [u8; 4] = [10, 0, 0, 2];
const MS: u128 = 1_000_000;

#[test]
fn throttle_blocks_after_per_ip_limit() {
    let mut t = LoginThrottle::new(900_000, 3, 100);
    for i in 0..3u128 {
        assert!(t.check_at(&IP1, i * MS).is_ok());
        t.record_failure_at(&IP1, i * MS);
    }
    assert!(t.check_at(&IP1, 3 * MS).is_err());
    assert!(t.check_at(&IP2, 3 * MS).is_ok());
}

#[test]
fn throttle_global_limit_covers_distributed_sources() {
    let mut t = LoginThrottle::new(900_000, 100, 4);
    for i in 0..4u8 {
        let ip = [10, 0, 1, i];
        assert!(t.check_at(&ip, 0).is_ok());
        t.record_failure_at(&ip, 0);
    }
    assert!(t.check_at(&[10, 0, 9, 9], 0).is_err());
}

#[test]
fn throttle_window_expires() {
    let mut t = LoginThrottle::new(10, 1, 100);
    t.record_failure_at(&IP1, 0);
    assert!(t.check_at(&IP1, 0).is_err());
    assert!(t.check_at(&IP1, 20 * MS).is_ok());
}

#[test]
fn throttle_window_boundary_and_retry_after() {
    let mut t = LoginThrottle::new(900_000, 1, 100);
    t.record_failure_at(&IP1, 0);
    assert_eq!(t.check_at(&IP1, 900_000 * MS - 1), Err(900));
    assert_eq!(t.check_at(&IP1, 900_000 * MS), Ok(()));
    assert_eq!(t.check_at(&IP1, 0), Ok(()));
}

#[test]
fn standard_throttle_allows_five_failures_per_address() {
    let mut t = LoginThrottle::default();
    for _ in 0..5 {
        assert!(t.check_at(&IP1, 0).is_ok());
        t.record_failure_at(&IP1, 0);
    }
    assert_eq!(t.check_at(&IP1, 0), Err(900));
    assert!(t.check_at(&IP2, 0).is_ok());
}

#[test]
fn throttle_with_clock_records_and_blocks() {
    let mut t = LoginThrottle::new(60_000, 1, 10);
    assert!(t.check(&IP1).is_ok());
    t.record_failure(&IP1);
    assert_eq!(t.check(&IP1), Err(60));
}

#[test]
fn hash_then_verify_roundtrip() {
    let phc = hash_password("correct horse battery").unwrap();
    assert!(phc.starts_with("$argon2id$"));
    assert!(is_valid_phc(&phc));
    assert!(verify_password("correct horse battery", &phc).unwrap());
    assert!(!verify_password("wrong password!", &phc).unwrap());
}

#[test]
fn invalid_phc_rejected() {
    assert!(!is_valid_phc("not-a-phc-string"));
    assert!(verify_password("x", "not-a-phc-string").is_err());
    assert!(verify_password("x", "not-a-phc-string").unwrap_err().starts_with("PHC 格式錯誤: "));
}

#[test]
fn csrf_guard_rule() {
    assert_eq!(CSRF_HEADER, "x-cytrace-request");
    assert_eq!(MIN_PASSWORD_LEN, 12);
    for m in ["POST", "PUT", "PATCH", "DELETE"] {
        assert!(is_mutating_method(m));
        let e = csrf_check(m, None, Lang::EnUs).unwrap_err();
        assert_eq!(e.kind, ErrorKind::Csrf);
        assert_eq!(e.kind.status(), 403);
        assert_eq!(e.lang, Lang::EnUs);
        assert!(csrf_check(m, Some("1"), Lang::ZhTw).is_ok());
        assert!(csrf_check(m, Some("0"), Lang::ZhTw).is_err());
        assert!(csrf_check(m, Some(""), Lang::ZhTw).is_err());
        assert!(csrf_check(m, Some("11"), Lang::ZhTw).is_err());
    }
    for m in ["GET", "HEAD", "OPTIONS", "post"] {
        assert!(!is_mutating_method(m));
        assert!(csrf_check(m, None, Lang::ZhTw).is_ok());
        assert!(csrf_check(m, Some("x"), Lang::ZhTw).is_ok());
    }
}

#[test]
fn throttle_clock_never_goes_back_before_a_recorded_failure() {
    let mut t = LoginThrottle::new(1_000, 1, 10);
    let later: u128 = 1_000_000_000_000_000_000;
    t.record_failure_at(&IP1, later);
    assert!(t.clock() >= later);
    assert_eq!(t.check(&IP1), Err(1));
    let phc = hash_password("pw").unwrap();
    let salt = phc.split('$').nth(4).unwrap();
    assert_eq!(salt.len(), 22);
    assert!(salt.chars().all(|c| c.is_ascii_alphanumeric() || c == '+' || c == '/'));
}

#[test]
fn hashing_with_a_given_salt_is_deterministic_and_verifies() {
    let salt = [7u8; 16];
    let a = hash_password_with_salt("correct horse battery", &salt).unwrap();
    let b = hash_password_with_salt("correct horse battery", &salt).unwrap();
    assert_eq!(a, b);
    assert!(a.starts_with("$argon2id$v=19$m=19456,t=2,p=1$BwcHBwcHBwcHBwcHBwcHBw$"));
    assert!(verify_password("correct horse battery", &a).unwrap());
    assert!(!verify_password("wrong", &a).unwrap());
}
