//! Shared domain types: severities, components, findings and the scan result.
use vstd::prelude::*;

use crate::text::{
    ascii_lower, eq_lit, is_ws, lower_char, to_ascii_lower, trim, trim_chars, trim_end, trim_start,
};

verus! {

/// The six severity levels. Declaration order is the ranking: `Unknown` is the
/// lowest and `Critical` the highest, so a real level always outranks `Unknown`.
#[derive(Debug, Clone, Copy, PartialEq, Eq, Structural, PartialOrd, Ord, Hash)]
pub enum Severity {
    Unknown,
    Negligible,
    Low,
    Medium,
    High,
    Critical,
}

impl Severity {
    /// Position in the ranking, from 0 (`Unknown`) to 5 (`Critical`).
    pub open spec fn rank(self) -> int {
        match self {
            Severity::Unknown => 0,
            Severity::Negligible => 1,
            Severity::Low => 2,
            Severity::Medium => 3,
            Severity::High => 4,
            Severity::Critical => 5,
        }
    }

    /// The severity at position `r` of the ranking.
    pub open spec fn of_rank(r: int) -> Severity {
        if r <= 0 {
            Severity::Unknown
        } else if r == 1 {
            Severity::Negligible
        } else if r == 2 {
            Severity::Low
        } else if r == 3 {
            Severity::Medium
        } else if r == 4 {
            Severity::High
        } else {
            Severity::Critical
        }
    }

    /// Position in the ranking.
    pub fn level(&self) -> (r: u8)
        ensures
            r == self.rank(),
    {
        match self {
            Severity::Unknown => 0,
            Severity::Negligible => 1,
            Severity::Low => 2,
            Severity::Medium => 3,
            Severity::High => 4,
            Severity::Critical => 5,
        }
    }

    /// The severity that a Grype label names, after trimming white space and
    /// ignoring ASCII case; any other label is `Unknown`.
    pub open spec fn of_label(s: Seq<char>) -> Severity {
        let t = ascii_lower(trim(s));
        if t == "critical"@ {
            Severity::Critical
        } else if t == "high"@ {
            Severity::High
        } else if t == "medium"@ {
            Severity::Medium
        } else if t == "low"@ {
            Severity::Low
        } else if t == "negligible"@ {
            Severity::Negligible
        } else {
            Severity::Unknown
        }
    }

    /// Parses a Grype severity label, case-insensitively; unrecognised labels are `Unknown`.
    pub fn from_grype_str(s: &str) -> (r: Severity)
        ensures
            r == Severity::of_label(s@),
    {
        let cs = crate::text::chars_of(s);
        let t = to_ascii_lower(&trim_chars(&cs));
        if eq_lit(&t, "critical") {
            Severity::Critical
        } else if eq_lit(&t, "high") {
            Severity::High
        } else if eq_lit(&t, "medium") {
            Severity::Medium
        } else if eq_lit(&t, "low") {
            Severity::Low
        } else if eq_lit(&t, "negligible") {
            Severity::Negligible
        } else {
            Severity::Unknown
        }
    }

    /// The message key of this level, shared by the report front end and the CLI catalog.
    pub open spec fn key(self) -> Seq<char> {
        match self {
            Severity::Critical => "severity.critical"@,
            Severity::High => "severity.high"@,
            Severity::Medium => "severity.medium"@,
            Severity::Low => "severity.low"@,
            Severity::Negligible => "severity.negligible"@,
            Severity::Unknown => "severity.unknown"@,
        }
    }

    /// The message key of this level.
    pub fn i18n_key(&self) -> (r: &'static str)
        ensures
            r@ == self.key(),
    {
        match self {
            Severity::Critical => "severity.critical",
            Severity::High => "severity.high",
            Severity::Medium => "severity.medium",
            Severity::Low => "severity.low",
            Severity::Negligible => "severity.negligible",
            Severity::Unknown => "severity.unknown",
        }
    }

    /// All six levels, highest first, the fixed order of reports and summaries.
    pub fn all_high_to_low() -> (r: [Severity; 6])
        ensures
            forall|i: int| 0 <= i < 6 ==> (#[trigger] r@[i]).rank() == 5 - i,
    {
        [
            Severity::Critical,
            Severity::High,
            Severity::Medium,
            Severity::Low,
            Severity::Negligible,
            Severity::Unknown,
        ]
    }
}

/// The first character left by `trim_start` is no white space.
proof fn lemma_trim_start_first(x: Seq<char>)
    ensures
        trim_start(x).len() > 0 ==> !is_ws(trim_start(x)[0]),
    decreases x.len(),
{
    if x.len() > 0 && is_ws(x[0]) {
        lemma_trim_start_first(x.drop_first());
    }
}

/// `trim_end` keeps a prefix whose last character is no white space.
proof fn lemma_trim_end_prefix(x: Seq<char>)
    ensures
        trim_end(x).len() <= x.len(),
        trim_end(x) == x.take(trim_end(x).len() as int),
        trim_end(x).len() > 0 ==> !is_ws(trim_end(x).last()),
    decreases x.len(),
{
    if x.len() > 0 && is_ws(x.last()) {
        lemma_trim_end_prefix(x.drop_last());
        assert(x.drop_last().take(trim_end(x).len() as int) =~= x.take(trim_end(x).len() as int));
    } else {
        assert(x.take(x.len() as int) =~= x);
    }
}

/// A text with no white space at either end is its own trim.
proof fn lemma_trim_fixed(t: Seq<char>)
    requires
        t.len() > 0 ==> !is_ws(t[0]) && !is_ws(t.last()),
    ensures
        trim(t) == t,
{
}

/// Trimmed text has no white space at either end.
proof fn lemma_trim_ends(s: Seq<char>)
    ensures
        trim(s).len() > 0 ==> !is_ws(trim(s)[0]) && !is_ws(trim(s).last()),
{
    lemma_trim_start_first(trim_start(s));
    lemma_trim_start_first(s);
    lemma_trim_end_prefix(trim_start(s));
    if trim(s).len() > 0 {
        assert(trim(s)[0] == trim_start(s)[0]);
    }
}

/// Lower-casing twice is lower-casing once, and lower-casing makes no white space.
proof fn lemma_lower_char(c: char)
    ensures
        lower_char(lower_char(c)) == lower_char(c),
        is_ws(lower_char(c)) == is_ws(c),
{
}

/// The normalized form of a label: trimmed and in ASCII lower case.
pub open spec fn normalized_label(s: Seq<char>) -> Seq<char> {
    ascii_lower(trim(s))
}

/// Normalizing a label twice is normalizing it once.
pub proof fn lemma_normalized_label_idempotent(s: Seq<char>)
    ensures
        normalized_label(normalized_label(s)) == normalized_label(s),
{
    let t = trim(s);
    lemma_trim_ends(s);
    let l = ascii_lower(t);
    if l.len() > 0 {
        lemma_lower_char(t[0]);
        lemma_lower_char(t.last());
        assert(l[0] == lower_char(t[0]));
        assert(l.last() == lower_char(t.last()));
    }
    lemma_trim_fixed(l);
    assert forall|i: int| 0 <= i < l.len() implies #[trigger] ascii_lower(l)[i] == l[i] by {
        lemma_lower_char(t[i]);
    }
    assert(ascii_lower(l) =~= l);
}

/// Reading a Grype label ignores white space at either end and ASCII case:
/// the label and its trimmed lower-case form name the same severity.
pub proof fn law_label_reading_ignores_case_and_spacing(s: Seq<char>)
    ensures
        Severity::of_label(normalized_label(s)) == Severity::of_label(s),
{
    lemma_normalized_label_idempotent(s);
}

/// A label names `Unknown` exactly when its normalized form is none of the
/// five known labels.
pub proof fn law_unknown_is_every_other_label(s: Seq<char>)
    ensures
        (Severity::of_label(s) == Severity::Unknown) <==> (normalized_label(s) != "critical"@
            && normalized_label(s) != "high"@ && normalized_label(s) != "medium"@
            && normalized_label(s) != "low"@ && normalized_label(s) != "negligible"@),
{
}

/// The message key of a level, without its `severity.` prefix, reads back as
/// that level.
pub proof fn law_key_names_its_level(sev: Severity)
    ensures
        sev.key().len() > 9,
        sev.key().take(9) == "severity."@,
        Severity::of_label(sev.key().skip(9)) == sev,
{
    reveal_strlit("severity.");
    reveal_strlit("severity.critical");
    reveal_strlit("severity.high");
    reveal_strlit("severity.medium");
    reveal_strlit("severity.low");
    reveal_strlit("severity.negligible");
    reveal_strlit("severity.unknown");
    reveal_strlit("critical");
    reveal_strlit("high");
    reveal_strlit("medium");
    reveal_strlit("low");
    reveal_strlit("negligible");
    let k = sev.key();
    let l = k.skip(9);
    assert(k.take(9) =~= "severity."@);
    assert(l.len() > 0 && !is_ws(l[0]) && !is_ws(l.last()));
    lemma_trim_fixed(l);
    assert forall|i: int| 0 <= i < l.len() implies #[trigger] ascii_lower(l)[i] == l[i] by {}
    assert(ascii_lower(l) =~= l);
    match sev {
        Severity::Critical => assert(l =~= "critical"@),
        Severity::High => assert(l =~= "high"@),
        Severity::Medium => assert(l =~= "medium"@),
        Severity::Low => assert(l =~= "low"@),
        Severity::Negligible => assert(l =~= "negligible"@),
        Severity::Unknown => {
            assert(l.len() == 7);
            assert(l != "critical"@);
            assert(l != "high"@);
            assert(l != "medium"@);
            assert(l != "low"@);
            assert(l[0] != "negligible"@[0]);
        },
    }
}

/// A software component, a row of the software bill of materials.
#[derive(Debug, Clone)]
pub struct Component {
    pub name: String,
    pub version: String,
    pub kind: String,
    pub licenses: Vec<String>,
}

/// One vulnerability matched against a component.
///
/// `cvss` carries the CVSS base score as the bit pattern of its IEEE-754
/// binary64 value (`f64::to_bits`); the library only passes it along.
#[derive(Debug, Clone)]
pub struct Vulnerability {
    pub id: String,
    pub severity: Severity,
    pub cvss: Option<u64>,
    pub component: String,
    pub fixed_version: Option<String>,
    pub source: String,
}

/// The offline vulnerability database snapshot that a scan used.
#[derive(Debug, Clone)]
pub struct DbSnapshot {
    pub version: String,
    pub built: String,
}

/// Pinned versions of the two scan engines.
#[derive(Debug, Clone)]
pub struct ToolVersions {
    pub syft: String,
    pub grype: String,
}

/// Scan metadata. `generated_at` is the one field that differs between runs.
#[derive(Debug, Clone)]
pub struct Meta {
    pub target: String,
    pub tool_versions: ToolVersions,
    pub db_snapshot: DbSnapshot,
    pub generated_at: String,
}

/// Risk summary. `counts_by_severity` is a map from severity to count, held as
/// pairs in ascending order of severity, each severity at most once.
#[derive(Debug, Clone)]
pub struct Summary {
    pub counts_by_severity: Vec<(Severity, u64)>,
    pub overall_risk: Severity,
}

/// The unified scan result, the stable data contract between scanning and reporting.
#[derive(Debug, Clone)]
pub struct ScanResult {
    pub schema_version: u32,
    pub meta: Meta,
    pub components: Vec<Component>,
    pub findings: Vec<Vulnerability>,
    pub summary: Summary,
}

/// The current schema version of `ScanResult`.
pub const SCHEMA_VERSION: u32 = 1;

} // verus!
