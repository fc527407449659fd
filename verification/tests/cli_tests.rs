use cytrace::cli::{
    batch_exit_code, default_report_path, done_message, fail_on_exit_code, meta_at, meta_for,
    report_path_for_stem, sanitize, target_report_name, EXIT_ERR, EXIT_FAILON, EXIT_OK,
};
use cytrace::engine::{RealEngine, ScanEngine};
use cytrace::error::CytraceError;
use cytrace::i18n::{Catalog, JsonValue};
use cytrace::timefmt::epoch_to_iso;
use cytrace::types::{Severity, Vulnerability};

struct FakeEngine;

impl ScanEngine for FakeEngine {
    fn sbom(&self, _target: &str) -> Result<String, CytraceError> {
        Ok("{}".to_string())
    }
    fn vuln(&self, _sbom: &str) -> Result<String, CytraceError> {
        Ok("{\"matches\":[]}".to_string())
    }
}

fn vuln(sev: Severity) -> Vulnerability {
    Vulnerability {
        id: "CVE-TEST".to_string(),
        severity: sev,
        cvss: None,
        component: "lib".to_string(),
        fixed_version: None,
        source: "test".to_string(),
    }
}

#[test]
fn fake_engine_usable_through_trait_object() {
    let engine: &dyn ScanEngine = &FakeEngine;
    assert_eq!(engine.sbom("dir:/x").unwrap(), "{}");
    assert_eq!(engine.vuln("{}").unwrap(), "{\"matches\":[]}");
}

#[test]
fn default_report_path_uses_stem() {
    assert_eq!(default_report_path("a/b/scan.json"), "scan.report.html");
}

#[test]
fn report_path_without_stem_falls_back_to_scan() {
    assert_eq!(default_report_path(""), "scan.report.html");
    assert_eq!(default_report_path("dir/.."), "scan.report.html");
    assert_eq!(report_path_for_stem(None), "scan.report.html");
    assert_eq!(report_path_for_stem(Some("x")), "x.report.html");
    assert_eq!(default_report_path("archive.tar.gz"), "archive.tar.report.html");
}

#[test]
fn main_epoch_to_iso_formats_utc() {
    assert_eq!(epoch_to_iso(0), "1970-01-01T00:00:00Z");
    assert_eq!(epoch_to_iso(1_609_459_200), "2021-01-01T00:00:00Z");
    assert_eq!(epoch_to_iso(1_782_295_451), "2026-06-24T10:04:11Z");
}

#[test]
fn sanitize_replaces_non_alphanumerics() {
    assert_eq!(sanitize("dir:/srv/app-1"), "dir__srv_app_1");
    assert_eq!(sanitize("映像:v1"), "映像_v1");
    assert_eq!(sanitize(""), "");
    assert_eq!(target_report_name("alpine:3.19"), "alpine_3_19.report.html");
}

#[test]
fn fail_on_exit_codes() {
    assert_eq!((EXIT_OK, EXIT_FAILON, EXIT_ERR), (0, 2, 1));
    let findings = vec![vuln(Severity::Medium), vuln(Severity::High)];
    assert_eq!(fail_on_exit_code(&findings, Some("high")), EXIT_FAILON);
    assert_eq!(fail_on_exit_code(&findings, Some("CRITICAL")), EXIT_OK);
    assert_eq!(fail_on_exit_code(&findings, None), EXIT_OK);
    assert_eq!(fail_on_exit_code(&findings, Some("whatever")), EXIT_FAILON);
    assert_eq!(fail_on_exit_code(&[], Some("unknown")), EXIT_OK);
}

#[test]
fn batch_exit_is_two_when_any_target_fails_on() {
    assert_eq!(batch_exit_code(&[0, 2, 0]), EXIT_FAILON);
    assert_eq!(batch_exit_code(&[0, 0]), EXIT_OK);
    assert_eq!(batch_exit_code(&[]), EXIT_OK);
}

#[test]
fn meta_carries_target_pinned_versions_and_time() {
    let m = meta_at("dir:/srv", 1_609_459_200);
    assert_eq!(m.target, "dir:/srv");
    assert_eq!(m.tool_versions.syft, "pinned");
    assert_eq!(m.tool_versions.grype, "pinned");
    assert_eq!(m.db_snapshot.version, "snapshot");
    assert_eq!(m.db_snapshot.built, "unknown");
    assert_eq!(m.generated_at, "2021-01-01T00:00:00Z");
    let now = meta_for("x");
    assert_eq!(now.generated_at.len(), 20);
    assert!(now.generated_at.ends_with('Z'));
}

#[test]
fn done_message_names_count_and_risk() {
    let s = |t: &str| JsonValue::Str(t.to_string());
    let zh = JsonValue::Object(vec![
        (
            "cli".to_string(),
            JsonValue::Object(vec![("done".to_string(), s("完成：{{count}} 筆，風險 {{risk}}"))]),
        ),
        (
            "severity".to_string(),
            JsonValue::Object(vec![("high".to_string(), s("高"))]),
        ),
    ]);
    let cat = Catalog::load("zh-TW", JsonValue::Null, zh);
    assert_eq!(done_message(&cat, 12, Severity::High), "完成：12 筆，風險 高");
}

#[test]
fn engine_commands_and_outcomes() {
    let e = RealEngine;
    let c = e.sbom_command("dir:/srv");
    assert_eq!(c.program, "syft");
    assert_eq!(c.args, vec!["scan", "dir:/srv", "-o", "cyclonedx-json", "-q"]);
    assert_eq!(
        c.env,
        vec![("SYFT_CHECK_FOR_APP_UPDATE".to_string(), "false".to_string())]
    );
    let g = e.vuln_command("/tmp/x.json");
    assert_eq!(g.program, "grype");
    assert_eq!(g.args, vec!["sbom:/tmp/x.json", "-o", "json", "-q"]);
    assert_eq!(
        g.env,
        vec![
            ("GRYPE_DB_AUTO_UPDATE".to_string(), "false".to_string()),
            ("GRYPE_DB_VALIDATE_AGE".to_string(), "false".to_string()),
            ("GRYPE_CHECK_FOR_APP_UPDATE".to_string(), "false".to_string())
        ]
    );
    assert_eq!(e.sbom_file_name(4242), "cytrace-sbom-4242.cdx.json");
    assert_eq!(
        e.launch_error("syft", "not found"),
        CytraceError::Engine("syft: not found".to_string())
    );
    assert_eq!(e.outcome("syft", true, Some(0), b"{}", b""), Ok("{}".to_string()));
    assert_eq!(
        e.outcome("grype", false, Some(1), b"", b"  db missing\n"),
        Err(CytraceError::Engine("grype 失敗（exit Some(1)）：db missing".to_string()))
    );
    assert_eq!(
        e.outcome("grype", false, None, b"", b""),
        Err(CytraceError::Engine("grype 失敗（exit None）：".to_string()))
    );
    assert_eq!(
        e.outcome("syft", false, Some(-2), b"", &[0xff]),
        Err(CytraceError::Engine("syft 失敗（exit Some(-2)）：\u{fffd}".to_string()))
    );
}

#[test]
fn batch_targets_get_their_own_report_names() {
    assert_eq!(target_report_name("dir:/srv"), "dir__srv.report.html");
    assert_eq!(target_report_name("dir:/a"), "dir__a.report.html");
    assert_eq!(target_report_name("dir:/b"), "dir__b.report.html");
}
