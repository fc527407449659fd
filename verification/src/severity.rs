//! Severity grading: per-level counts, the overall risk, the fail-on gate and
//! the assembly of a scan result.
use vstd::prelude::*;

use crate::types::{
    Component, Meta, ScanResult, Severity, Summary, Vulnerability, SCHEMA_VERSION,
};

verus! {

/// The severities of `findings`, in order.
pub open spec fn severities(findings: Seq<Vulnerability>) -> Seq<Severity> {
    findings.map_values(|v: Vulnerability| v.severity)
}

/// How many of `sevs` equal `s`.
pub open spec fn count_of(sevs: Seq<Severity>, s: Severity) -> nat
    decreases sevs.len(),
{
    if sevs.len() == 0 {
        0
    } else {
        count_of(sevs.drop_last(), s) + if sevs.last() == s {
            1nat
        } else {
            0nat
        }
    }
}

/// The highest rank among `sevs`, or -1 when there is none.
pub open spec fn max_rank(sevs: Seq<Severity>) -> int
    decreases sevs.len(),
{
    if sevs.len() == 0 {
        -1
    } else {
        let m = max_rank(sevs.drop_last());
        if sevs.last().rank() > m {
            sevs.last().rank()
        } else {
            m
        }
    }
}

/// The overall risk of `findings`: the highest severity present, `None` when there are none.
pub open spec fn risk_of(findings: Seq<Vulnerability>) -> Option<Severity> {
    if findings.len() == 0 {
        None
    } else {
        Some(Severity::of_rank(max_rank(severities(findings))))
    }
}

/// Whether some finding is at least as severe as `threshold`.
pub open spec fn meets_threshold(findings: Seq<Vulnerability>, threshold: Severity) -> bool {
    exists|i: int| 0 <= i < findings.len() && (#[trigger] findings[i]).severity.rank() >= threshold.rank()
}

/// The per-level counts of `findings`: all six levels in ascending order, each with its count.
pub open spec fn counts_of(findings: Seq<Vulnerability>) -> Seq<(Severity, u64)> {
    Seq::new(
        6,
        |i: int| (Severity::of_rank(i), count_of(severities(findings), Severity::of_rank(i)) as u64),
    )
}

/// The summary of `findings`; with no findings the overall risk is `Negligible`.
pub open spec fn summary_of(findings: Seq<Vulnerability>) -> (Seq<(Severity, u64)>, Severity) {
    (
        counts_of(findings),
        match risk_of(findings) {
            Some(s) => s,
            None => Severity::Negligible,
        },
    )
}

proof fn lemma_max_rank_bounds(sevs: Seq<Severity>)
    ensures
        sevs.len() == 0 ==> max_rank(sevs) == -1,
        sevs.len() > 0 ==> 0 <= max_rank(sevs) <= 5,
        sevs.len() > 0 ==> exists|i: int| 0 <= i < sevs.len() && (#[trigger] sevs[i]).rank() == max_rank(sevs),
        forall|i: int| 0 <= i < sevs.len() ==> (#[trigger] sevs[i]).rank() <= max_rank(sevs),
    decreases sevs.len(),
{
    if sevs.len() > 0 {
        let p = sevs.drop_last();
        lemma_max_rank_bounds(p);
        assert forall|i: int| 0 <= i < sevs.len() implies (#[trigger] sevs[i]).rank() <= max_rank(sevs) by {
            if i < sevs.len() - 1 {
                assert(sevs[i] == p[i]);
            }
        }
        if sevs.last().rank() > max_rank(p) {
            assert(sevs[sevs.len() - 1].rank() == max_rank(sevs));
        } else {
            let j = choose|j: int| 0 <= j < p.len() && (#[trigger] p[j]).rank() == max_rank(p);
            assert(sevs[j] == p[j]);
        }
    }
}

proof fn lemma_count_bound(sevs: Seq<Severity>, s: Severity)
    ensures
        count_of(sevs, s) <= sevs.len(),
    decreases sevs.len(),
{
    if sevs.len() > 0 {
        lemma_count_bound(sevs.drop_last(), s);
    }
}

/// The overall risk: the highest severity present, `None` when there are no findings.
pub fn overall_risk(findings: &[Vulnerability]) -> (r: Option<Severity>)
    ensures
        r == risk_of(findings@),
        r is None <==> findings@.len() == 0,
        r matches Some(s) ==> (exists|i: int| 0 <= i < findings@.len() && (#[trigger] findings@[i]).severity == s),
        r matches Some(s) ==> (forall|i: int| 0 <= i < findings@.len() ==> (#[trigger] findings@[i]).severity.rank() <= s.rank()),
{
    let n = findings.len();
    let mut best: Option<Severity> = None;
    let mut i: usize = 0;
    while i < n
        invariant
            n == findings@.len(),
            i <= n,
            best is None <==> i == 0,
            best matches Some(b) ==> b.rank() == max_rank(severities(findings@.take(i as int))),
        decreases n - i,
    {
        let s = findings[i].severity;
        let ghost pre = severities(findings@.take(i as int));
        assert(severities(findings@.take(i + 1)) =~= pre.push(s));
        assert(severities(findings@.take(i + 1)).drop_last() =~= pre);
        assert(pre.len() == i);
        assert(severities(findings@.take(i + 1)).last() == s);
        assert(max_rank(severities(findings@.take(i + 1))) == if s.rank() > max_rank(pre) {
            s.rank()
        } else {
            max_rank(pre)
        });
        proof {
            if i == 0 {
                assert(pre.len() == 0);
                assert(max_rank(pre) == -1);
            }
        }
        best = match best {
            None => Some(s),
            Some(b) => if s.level() > b.level() {
                Some(s)
            } else {
                Some(b)
            },
        };
        i = i + 1;
    }
    assert(findings@.take(n as int) =~= findings@);
    proof {
        let sevs = severities(findings@);
        lemma_max_rank_bounds(sevs);
        if n > 0 {
            let j = choose|j: int| 0 <= j < sevs.len() && (#[trigger] sevs[j]).rank() == max_rank(sevs);
            assert(sevs[j] == findings@[j].severity);
            assert forall|k: int| 0 <= k < findings@.len() implies (#[trigger] findings@[k]).severity.rank()
                <= Severity::of_rank(max_rank(sevs)).rank() by {
                assert(sevs[k] == findings@[k].severity);
            }
        }
    }
    match best {
        None => None,
        Some(b) => Some(b),
    }
}

/// The count of each severity: all six levels in ascending order, each with how many
/// findings have it (zero included), the fixed columns of a report.
pub fn counts_by_severity(findings: &[Vulnerability]) -> (r: Vec<(Severity, u64)>)
    ensures
        r@ == counts_of(findings@),
{
    let mut c: [u64; 6] = [0, 0, 0, 0, 0, 0];
    let n = findings.len();
    let mut i: usize = 0;
    while i < n
        invariant
            n == findings@.len(),
            i <= n,
            forall|k: int| 0 <= k < 6 ==> #[trigger] c@[k] == count_of(
                severities(findings@.take(i as int)),
                Severity::of_rank(k),
            ),
        decreases n - i,
    {
        let s = findings[i].severity;
        let ghost pre = severities(findings@.take(i as int));
        proof {
            assert(severities(findings@.take(i + 1)) =~= pre.push(s));
            assert(severities(findings@.take(i + 1)).drop_last() =~= pre);
            lemma_count_bound(pre, s);
        }
        let k = s.level() as usize;
        let old_v = c[k];
        c[k] = old_v + 1;
        i = i + 1;
    }
    assert(findings@.take(n as int) =~= findings@);
    let r: Vec<(Severity, u64)> = vec![
        (Severity::Unknown, c[0]),
        (Severity::Negligible, c[1]),
        (Severity::Low, c[2]),
        (Severity::Medium, c[3]),
        (Severity::High, c[4]),
        (Severity::Critical, c[5]),
    ];
    assert(r@ =~= counts_of(findings@));
    r
}

/// The summary of `findings`; with no findings the overall risk is `Negligible`
/// (scanned, no risk found).
pub fn summarize(findings: &[Vulnerability]) -> (r: Summary)
    ensures
        (r.counts_by_severity@, r.overall_risk) == summary_of(findings@),
{
    let counts = counts_by_severity(findings);
    let risk = match overall_risk(findings) {
        Some(s) => s,
        None => Severity::Negligible,
    };
    Summary { counts_by_severity: counts, overall_risk: risk }
}

/// The fail-on gate: true when some finding is at least as severe as `threshold`.
/// Since `Unknown` ranks lowest, an `Unknown` threshold fires on any finding.
pub fn triggered(findings: &[Vulnerability], threshold: Severity) -> (r: bool)
    ensures
        r == meets_threshold(findings@, threshold),
{
    let n = findings.len();
    let t = threshold.level();
    let mut i: usize = 0;
    while i < n
        invariant
            n == findings@.len(),
            i <= n,
            t == threshold.rank(),
            forall|j: int| 0 <= j < i ==> (#[trigger] findings@[j]).severity.rank() < threshold.rank(),
        decreases n - i,
    {
        if findings[i].severity.level() >= t {
            return true;
        }
        i = i + 1;
    }
    false
}

/// Builds a `ScanResult` from parsed components and findings, with the current
/// schema version and the summary of the findings.
pub fn assemble(meta: Meta, components: Vec<Component>, findings: Vec<Vulnerability>) -> (r: ScanResult)
    ensures
        r.schema_version == SCHEMA_VERSION,
        r.meta == meta,
        r.components == components,
        r.findings == findings,
        (r.summary.counts_by_severity@, r.summary.overall_risk) == summary_of(findings@),
{
    let summary = summarize(findings.as_slice());
    ScanResult { schema_version: SCHEMA_VERSION, meta, components, findings, summary }
}

/// The sum of the six per-level counts of `sevs` is the length of `sevs`.
proof fn lemma_counts_sum(sevs: Seq<Severity>)
    ensures
        count_of(sevs, Severity::Unknown) + count_of(sevs, Severity::Negligible) + count_of(
            sevs,
            Severity::Low,
        ) + count_of(sevs, Severity::Medium) + count_of(sevs, Severity::High) + count_of(
            sevs,
            Severity::Critical,
        ) == sevs.len(),
    decreases sevs.len(),
{
    if sevs.len() > 0 {
        lemma_counts_sum(sevs.drop_last());
    }
}

/// The fail-on gate fires exactly when the overall risk reaches the threshold.
pub proof fn law_fail_on_is_overall_risk_at_threshold(findings: Seq<Vulnerability>, threshold: Severity)
    ensures
        meets_threshold(findings, threshold) <==> (risk_of(findings) matches Some(s) && s.rank()
            >= threshold.rank()),
{
    let sevs = severities(findings);
    lemma_max_rank_bounds(sevs);
    if meets_threshold(findings, threshold) {
        let i = choose|i: int| 0 <= i < findings.len() && (#[trigger] findings[i]).severity.rank() >= threshold.rank();
        assert(sevs[i] == findings[i].severity);
    }
    if findings.len() > 0 {
        let j = choose|j: int| 0 <= j < sevs.len() && (#[trigger] sevs[j]).rank() == max_rank(sevs);
        assert(sevs[j] == findings[j].severity);
        if Severity::of_rank(max_rank(sevs)).rank() >= threshold.rank() {
            assert(findings[j].severity.rank() >= threshold.rank());
        }
    }
}

/// A threshold of `Unknown` fires on any finding at all, and never on none.
pub proof fn law_unknown_threshold_fires_on_any_finding(findings: Seq<Vulnerability>)
    ensures
        meets_threshold(findings, Severity::Unknown) <==> findings.len() > 0,
{
    if findings.len() > 0 {
        assert(findings[0].severity.rank() >= 0);
    }
}

/// Findings that reach a threshold also reach every lower one.
pub proof fn law_lower_threshold_still_fires(findings: Seq<Vulnerability>, high: Severity, low: Severity)
    requires
        low.rank() <= high.rank(),
        meets_threshold(findings, high),
    ensures
        meets_threshold(findings, low),
{
    let i = choose|i: int| 0 <= i < findings.len() && (#[trigger] findings[i]).severity.rank() >= high.rank();
    assert(findings[i].severity.rank() >= low.rank());
}

/// The per-level counts list all six levels once, in ascending order, and add up
/// to the number of findings.
pub proof fn law_counts_cover_every_finding(findings: Seq<Vulnerability>)
    requires
        findings.len() <= u64::MAX,
    ensures
        counts_of(findings).len() == 6,
        forall|i: int| 0 <= i < 6 ==> (#[trigger] counts_of(findings)[i]).0.rank() == i,
        counts_of(findings)[0].1 + counts_of(findings)[1].1 + counts_of(findings)[2].1
            + counts_of(findings)[3].1 + counts_of(findings)[4].1 + counts_of(findings)[5].1
            == findings.len(),
{
    let sevs = severities(findings);
    lemma_counts_sum(sevs);
    assert forall|k: int| 0 <= k < 6 implies count_of(sevs, Severity::of_rank(k)) <= findings.len() by {
        lemma_count_bound(sevs, Severity::of_rank(k));
    }
    assert(counts_of(findings)[0].1 == count_of(sevs, Severity::Unknown));
    assert(counts_of(findings)[1].1 == count_of(sevs, Severity::Negligible));
    assert(counts_of(findings)[2].1 == count_of(sevs, Severity::Low));
    assert(counts_of(findings)[3].1 == count_of(sevs, Severity::Medium));
    assert(counts_of(findings)[4].1 == count_of(sevs, Severity::High));
    assert(counts_of(findings)[5].1 == count_of(sevs, Severity::Critical));
}

/// The findings of severity `s`, in order.
pub open spec fn with_severity(findings: Seq<Vulnerability>, s: Severity) -> Seq<Vulnerability> {
    findings.filter(|v: Vulnerability| v.severity == s)
}

/// Counting a level is filtering the findings by it.
proof fn lemma_count_is_filter(findings: Seq<Vulnerability>, s: Severity)
    ensures
        count_of(severities(findings), s) == with_severity(findings, s).len(),
    decreases findings.len(),
{
    reveal(Seq::filter);
    if findings.len() > 0 {
        let p = findings.drop_last();
        lemma_count_is_filter(p, s);
        assert(severities(findings).drop_last() =~= severities(p));
        assert(severities(findings).last() == findings.last().severity);
    }
}

/// Every level has exactly one entry among the counts, at its rank, and its
/// count is the number of findings of that level (zero included).
pub proof fn law_each_level_counted_once(findings: Seq<Vulnerability>)
    requires
        findings.len() <= u64::MAX,
    ensures
        forall|s: Severity|
            (#[trigger] counts_of(findings)[s.rank()]).0 == s && counts_of(findings)[s.rank()].1
                == with_severity(findings, s).len(),
        forall|i: int, s: Severity|
            0 <= i < 6 && (#[trigger] counts_of(findings)[i]).0 == s ==> i == #[trigger] s.rank(),
{
    assert forall|s: Severity| (#[trigger] counts_of(findings)[s.rank()]).0 == s
        && counts_of(findings)[s.rank()].1 == with_severity(findings, s).len() by {
        lemma_count_is_filter(findings, s);
        lemma_count_bound(severities(findings), s);
        assert(Severity::of_rank(s.rank()) == s);
    }
}

/// The fail-on gate fires exactly when some finding, at any position, is at
/// least as severe as the threshold.
pub proof fn law_gate_fires_on_any_finding_at_threshold(findings: Seq<Vulnerability>, threshold: Severity)
    ensures
        meets_threshold(findings, threshold) <==> exists|i: int|
            0 <= i < findings.len() && (#[trigger] findings[i]).severity.rank() >= threshold.rank(),
{
}

} // verus!
