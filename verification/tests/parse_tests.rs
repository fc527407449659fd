use cytrace::error::CytraceError;
use cytrace::parse::{
    parse_cyclonedx, parse_grype, CycloneComponent, CycloneDoc, CycloneLicense,
    CycloneLicenseEntry, GrypeArtifact, GrypeCvss, GrypeCvssMetrics, GrypeDoc, GrypeFix,
    GrypeMatch, GrypeVuln,
};
use cytrace::types::Severity;

fn grype_match(
    id: &str,
    severity: &str,
    source: &str,
    fix: Option<Vec<&str>>,
    scores: Vec<Option<f64>>,
    artifact: &str,
) -> GrypeMatch {
    GrypeMatch {
        vulnerability: GrypeVuln {
            id: id.to_string(),
            severity: severity.to_string(),
            data_source: source.to_string(),
            fix: fix.map(|v| GrypeFix {
                versions: v.into_iter().map(|s| s.to_string()).collect(),
            }),
            cvss: scores
                .into_iter()
                .map(|b| GrypeCvss {
                    metrics: GrypeCvssMetrics {
                        base_score: b.map(f64::to_bits),
                    },
                })
                .collect(),
        },
        artifact: GrypeArtifact {
            name: artifact.to_string(),
        },
    }
}

fn grype_sample() -> GrypeDoc {
    GrypeDoc {
        matches: vec![
            grype_match(
                "CVE-2024-0001",
                "High",
                "https://nvd.nist.gov/vuln/detail/CVE-2024-0001",
                Some(vec!["1.1.1w"]),
                vec![Some(7.5)],
                "openssl",
            ),
            grype_match("CVE-2024-0002", "negligible", "ghsa", None, vec![], "zlib"),
        ],
    }
}

fn license(id: Option<&str>, name: Option<&str>) -> CycloneLicenseEntry {
    CycloneLicenseEntry {
        license: Some(CycloneLicense {
            id: id.map(|s| s.to_string()),
            name: name.map(|s| s.to_string()),
        }),
        expression: None,
    }
}

fn expression(e: &str) -> CycloneLicenseEntry {
    CycloneLicenseEntry {
        license: None,
        expression: Some(e.to_string()),
    }
}

fn component(kind: &str, name: &str, version: &str, licenses: Vec<CycloneLicenseEntry>) -> CycloneComponent {
    CycloneComponent {
        name: name.to_string(),
        version: version.to_string(),
        kind: kind.to_string(),
        licenses,
    }
}

#[test]
fn parses_grype_matches_into_vulnerabilities() {
    let v = parse_grype(Ok(grype_sample())).unwrap();
    assert_eq!(v.len(), 2);
    assert_eq!(v[0].id, "CVE-2024-0001");
    assert_eq!(v[0].severity, Severity::High);
    assert_eq!(v[0].cvss.map(f64::from_bits), Some(7.5));
    assert_eq!(v[0].component, "openssl");
    assert_eq!(v[0].fixed_version.as_deref(), Some("1.1.1w"));
    assert_eq!(v[1].severity, Severity::Negligible);
    assert_eq!(v[1].cvss, None);
    assert_eq!(v[1].fixed_version, None);
}

#[test]
fn grype_empty_matches_yields_empty() {
    assert!(parse_grype(Ok(GrypeDoc { matches: vec![] })).unwrap().is_empty());
}

#[test]
fn malformed_grype_json_is_parse_error() {
    let err = parse_grype(Err("expected value at line 1 column 1".to_string())).unwrap_err();
    assert!(matches!(err, CytraceError::Parse(_)));
    assert_eq!(
        err,
        CytraceError::Parse("grype: expected value at line 1 column 1".to_string())
    );
}

#[test]
fn grype_takes_first_present_score_and_first_fix() {
    let doc = GrypeDoc {
        matches: vec![grype_match(
            "CVE-1",
            "bogus",
            "",
            Some(vec![]),
            vec![None, Some(5.0), Some(9.0)],
            "",
        )],
    };
    let v = parse_grype(Ok(doc)).unwrap();
    assert_eq!(v[0].severity, Severity::Unknown);
    assert_eq!(v[0].cvss.map(f64::from_bits), Some(5.0));
    assert_eq!(v[0].fixed_version, None);
}

#[test]
fn parses_cyclonedx_components_with_licenses() {
    let doc = CycloneDoc {
        components: vec![
            component("library", "openssl", "1.1.1k", vec![license(Some("Apache-2.0"), None)]),
            component("library", "mit-lib", "2.0.0", vec![expression("MIT OR Apache-2.0")]),
        ],
    };
    let c = parse_cyclonedx(Ok(doc)).unwrap();
    assert_eq!(c.len(), 2);
    assert_eq!(c[0].name, "openssl");
    assert_eq!(c[0].kind, "library");
    assert_eq!(c[0].licenses, vec!["Apache-2.0".to_string()]);
    assert_eq!(c[1].licenses, vec!["MIT OR Apache-2.0".to_string()]);
}

#[test]
fn cyclonedx_license_prefers_expression_then_id_then_name() {
    let entries = vec![
        license(None, Some("Custom")),
        CycloneLicenseEntry {
            license: Some(CycloneLicense {
                id: Some("MIT".to_string()),
                name: Some("ignored".to_string()),
            }),
            expression: Some("BSD-3-Clause".to_string()),
        },
        license(None, None),
        CycloneLicenseEntry {
            license: None,
            expression: None,
        },
        license(Some("ISC"), Some("ignored")),
    ];
    let doc = CycloneDoc {
        components: vec![component("library", "x", "1", entries)],
    };
    let c = parse_cyclonedx(Ok(doc)).unwrap();
    assert_eq!(
        c[0].licenses,
        vec!["Custom".to_string(), "BSD-3-Clause".to_string(), "ISC".to_string()]
    );
}

#[test]
fn malformed_cyclonedx_is_parse_error() {
    let err = parse_cyclonedx(Err("EOF".to_string())).unwrap_err();
    assert_eq!(err, CytraceError::Parse("cyclonedx: EOF".to_string()));
}
