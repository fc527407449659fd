use cytrace::severity::{counts_by_severity, overall_risk, summarize, triggered};
use cytrace::types::{Severity, Vulnerability};

fn vuln(sev: Severity) -> Vulnerability {
    Vulnerability {
        id: "CVE-TEST".to_string(),
        severity: sev,
        cvss: None,
        component: "lib".to_string(),
        fixed_version: None,
        source: "test".to_string(),
    }
}

fn count_for(counts: &[(Severity, u64)], s: Severity) -> u64 {
    counts.iter().find(|(k, _)| *k == s).map(|(_, n)| *n).unwrap()
}

#[test]
fn grype_strings_map_to_severity_case_insensitively() {
    assert_eq!(Severity::from_grype_str("Critical"), Severity::Critical);
    assert_eq!(Severity::from_grype_str("high"), Severity::High);
    assert_eq!(Severity::from_grype_str("  MEDIUM "), Severity::Medium);
    assert_eq!(Severity::from_grype_str("Negligible"), Severity::Negligible);
}

#[test]
fn unrecognized_severity_is_unknown() {
    assert_eq!(Severity::from_grype_str(""), Severity::Unknown);
    assert_eq!(Severity::from_grype_str("bogus"), Severity::Unknown);
    assert_eq!(Severity::from_grype_str("Unknown"), Severity::Unknown);
}

#[test]
fn severity_orders_critical_highest_unknown_lowest() {
    assert!(Severity::Critical > Severity::High);
    assert!(Severity::High > Severity::Medium);
    assert!(Severity::Medium > Severity::Low);
    assert!(Severity::Low > Severity::Negligible);
    assert!(Severity::Negligible > Severity::Unknown);
    assert_eq!(
        [Severity::Unknown, Severity::Low].into_iter().max(),
        Some(Severity::Low)
    );
}

#[test]
fn i18n_keys_are_stable() {
    assert_eq!(Severity::Critical.i18n_key(), "severity.critical");
    assert_eq!(Severity::Unknown.i18n_key(), "severity.unknown");
}

#[test]
fn all_levels_listed_high_to_low_with_their_ranks() {
    let all = Severity::all_high_to_low();
    assert_eq!(all[0], Severity::Critical);
    assert_eq!(all[5], Severity::Unknown);
    for (i, s) in all.iter().enumerate() {
        assert_eq!(s.level() as usize, 5 - i);
    }
    assert_eq!(Severity::from_grype_str("\tlow\n"), Severity::Low);
    assert_eq!(Severity::Low.i18n_key(), "severity.low");
}

#[test]
fn overall_risk_is_highest_present_severity() {
    let findings = vec![
        vuln(Severity::Low),
        vuln(Severity::Critical),
        vuln(Severity::Medium),
    ];
    assert_eq!(overall_risk(&findings), Some(Severity::Critical));
}

#[test]
fn overall_risk_none_when_no_findings() {
    assert_eq!(overall_risk(&[]), None);
}

#[test]
fn real_severity_outranks_unknown() {
    let findings = vec![vuln(Severity::Unknown), vuln(Severity::Low)];
    assert_eq!(overall_risk(&findings), Some(Severity::Low));
}

#[test]
fn counts_list_all_six_levels_even_when_zero() {
    let counts = counts_by_severity(&[vuln(Severity::High)]);
    assert_eq!(counts.len(), 6);
    assert_eq!(count_for(&counts, Severity::High), 1);
    assert_eq!(count_for(&counts, Severity::Critical), 0);
}

#[test]
fn counts_are_in_ascending_order_and_sum_to_the_findings() {
    let findings = vec![
        vuln(Severity::High),
        vuln(Severity::High),
        vuln(Severity::Unknown),
        vuln(Severity::Critical),
    ];
    let counts = counts_by_severity(&findings);
    let order: Vec<Severity> = counts.iter().map(|(s, _)| *s).collect();
    assert_eq!(
        order,
        vec![
            Severity::Unknown,
            Severity::Negligible,
            Severity::Low,
            Severity::Medium,
            Severity::High,
            Severity::Critical
        ]
    );
    assert_eq!(count_for(&counts, Severity::High), 2);
    let total: u64 = counts.iter().map(|(_, n)| *n).sum();
    assert_eq!(total, 4);
}

#[test]
fn summarize_empty_is_negligible() {
    assert_eq!(summarize(&[]).overall_risk, Severity::Negligible);
}

#[test]
fn summarize_reports_highest_level_and_counts() {
    let s = summarize(&[vuln(Severity::Medium), vuln(Severity::Low)]);
    assert_eq!(s.overall_risk, Severity::Medium);
    assert_eq!(count_for(&s.counts_by_severity, Severity::Medium), 1);
    assert_eq!(count_for(&s.counts_by_severity, Severity::Low), 1);
}

#[test]
fn triggers_when_a_finding_meets_threshold() {
    let findings = vec![vuln(Severity::Medium), vuln(Severity::High)];
    assert!(triggered(&findings, Severity::High));
}

#[test]
fn does_not_trigger_when_all_below_threshold() {
    let findings = vec![vuln(Severity::Low), vuln(Severity::Medium)];
    assert!(!triggered(&findings, Severity::High));
}

#[test]
fn threshold_is_inclusive() {
    assert!(triggered(&[vuln(Severity::High)], Severity::High));
}

#[test]
fn no_findings_never_triggers() {
    assert!(!triggered(&[], Severity::Unknown));
}

#[test]
fn unknown_threshold_fires_on_any_finding() {
    assert!(triggered(&[vuln(Severity::Unknown)], Severity::Unknown));
    assert!(triggered(&[vuln(Severity::Negligible)], Severity::Unknown));
}

#[test]
fn fail_on_matches_overall_risk_at_threshold() {
    let findings = vec![vuln(Severity::Low), vuln(Severity::Medium)];
    let risk = overall_risk(&findings).unwrap();
    for t in Severity::all_high_to_low() {
        assert_eq!(triggered(&findings, t), risk >= t);
    }
}

#[test]
fn label_reading_ignores_case_and_spacing_and_keys_read_back() {
    for s in ["  Critical ", "HIGH", "\tmedium\n", "Low", "negligible", "bogus", ""] {
        let normalized = s.trim().to_ascii_lowercase();
        assert_eq!(Severity::from_grype_str(s), Severity::from_grype_str(&normalized));
    }
    for sev in Severity::all_high_to_low() {
        let label = sev.i18n_key().strip_prefix("severity.").unwrap();
        assert_eq!(Severity::from_grype_str(label), sev);
    }
}

#[test]
fn each_level_is_counted_once_at_its_rank() {
    let findings = vec![vuln(Severity::Low), vuln(Severity::Low), vuln(Severity::Critical)];
    let counts = counts_by_severity(&findings);
    for s in Severity::all_high_to_low() {
        let entries: Vec<_> = counts.iter().filter(|(k, _)| *k == s).collect();
        assert_eq!(entries.len(), 1);
        assert_eq!(counts[s.level() as usize].0, s);
        let n = findings.iter().filter(|v| v.severity == s).count() as u64;
        assert_eq!(entries[0].1, n);
    }
}
