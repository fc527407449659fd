//! The rules of the command-line tool: exit codes, report file names, scan
//! metadata and the console messages.
//!
//! Exit codes: 0 normal, 2 `--fail-on` triggered, 1 an error.
use vstd::prelude::*;
use crate::i18n::{interpolated, vars_view, Catalog};
use crate::severity::{meets_threshold, triggered};
use crate::text::{chars_of, push_str, str_view, string_from_chars};
use crate::timefmt::{decimal, epoch_secs, epoch_to_iso, iso_text, lemma_decimal_nonempty, push_padded};
use crate::types::{DbSnapshot, Meta, Severity, ToolVersions, Vulnerability};

verus! {

/// The exit code of a normal run.
pub const EXIT_OK: u8 = 0;

/// The exit code of a run whose findings reached the `--fail-on` level.
pub const EXIT_FAILON: u8 = 2;

/// The exit code of a run that failed.
pub const EXIT_ERR: u8 = 1;

/// Whether `c` is alphabetic or numeric in Unicode (`char::is_alphanumeric`).
pub uninterp spec fn is_alnum(c: char) -> bool;

/// Whether `c` is alphanumeric (`char::is_alphanumeric`).
///
/// Trusted: the answer is `is_alnum(c)`; for ASCII it is true exactly for
/// the letters and the digits, as the documentation of `is_alphabetic` and
/// `is_numeric` gives them.
#[verifier::external_body]
fn alphanumeric(c: char) -> (r: bool)
    ensures
        r == is_alnum(c),
        (c as u32) < 128 ==> (r <==> ascii_alnum(c)),
{
    c.is_alphanumeric()
}

/// Whether `c` is an ASCII letter or digit.
pub open spec fn ascii_alnum(c: char) -> bool {
    'a' <= c <= 'z' || 'A' <= c <= 'Z' || '0' <= c <= '9'
}

/// For an ASCII character: `c` if it is a letter or digit, else `_`.
pub open spec fn ascii_safe_char(c: char) -> char {
    if ascii_alnum(c) {
        c
    } else {
        '_'
    }
}

/// `c` if it is alphanumeric, else `_`.
pub open spec fn safe_char(c: char) -> char {
    if is_alnum(c) {
        c
    } else {
        '_'
    }
}

/// A target made safe for a file name: every character that is not
/// alphanumeric becomes `_`.
pub fn sanitize(target: &str) -> (r: String)
    ensures
        r@ == target@.map_values(|c: char| safe_char(c)),
        r@.len() == target@.len(),
        forall|i: int|
            0 <= i < target@.len() && (target@[i] as u32) < 128 ==> r@[i] == ascii_safe_char(
                #[trigger] target@[i],
            ),
{
    let cs = chars_of(target);
    let n = cs.len();
    let mut out: Vec<char> = Vec::new();
    let mut i: usize = 0;
    while i < n
        invariant
            n == cs@.len(),
            cs@ == target@,
            i <= n,
            out@ == cs@.take(i as int).map_values(|c: char| safe_char(c)),
            forall|j: int|
                0 <= j < i && (cs@[j] as u32) < 128 ==> out@[j] == ascii_safe_char(#[trigger] cs@[j]),
        decreases n - i,
    {
        let c = cs[i];
        let k = if alphanumeric(c) {
            c
        } else {
            '_'
        };
        out.push(k);
        i = i + 1;
        assert(out@ =~= cs@.take(i as int).map_values(|c: char| safe_char(c)));
    }
    assert(cs@.take(n as int) =~= cs@);
    string_from_chars(&out)
}

/// The report file of a scanned target: `<sanitized target>.report.html`.
pub fn target_report_name(target: &str) -> (r: String)
    ensures
        r@ == target@.map_values(|c: char| safe_char(c)) + ".report.html"@,
        r@.len() == target@.len() + ".report.html"@.len(),
        r@.subrange(target@.len() as int, r@.len() as int) == ".report.html"@,
        forall|i: int|
            0 <= i < target@.len() && (target@[i] as u32) < 128 ==> r@[i] == ascii_safe_char(
                #[trigger] target@[i],
            ),
{
    let s = sanitize(target);
    let mut out = chars_of(s.as_str());
    push_str(&mut out, ".report.html");
    assert(out@.subrange(target@.len() as int, out@.len() as int) =~= ".report.html"@);
    string_from_chars(&out)
}

/// The file stem of a path: its final component without the extension
/// (`Path::file_stem`).
pub uninterp spec fn path_stem(path: Seq<char>) -> Option<Seq<char>>;

/// The file stem of `path` (`Path::file_stem`), as text.
///
/// Trusted: the answer is `path_stem(path)`.
#[verifier::external_body]
fn file_stem(path: &str) -> (r: Option<String>)
    ensures
        r matches Some(s) ==> path_stem(path@) == Some(s@),
        r is None ==> path_stem(path@) is None,
{
    match std::path::Path::new(path).file_stem() {
        Some(s) => match s.to_str() {
            Some(t) => Some(t.to_string()),
            None => None,
        },
        None => None,
    }
}

/// The report file for a file stem: `<stem>.report.html`, or
/// `scan.report.html` when there is no stem.
pub open spec fn report_path_text(stem: Option<Seq<char>>) -> Seq<char> {
    match stem {
        Some(s) => s + ".report.html"@,
        None => "scan.report.html"@,
    }
}

/// The report file for a file stem.
pub fn report_path_for_stem(stem: Option<&str>) -> (r: String)
    ensures
        r@ == report_path_text(str_view(stem)),
{
    let mut out: Vec<char> = Vec::new();
    match stem {
        Some(s) => push_str(&mut out, s),
        None => push_str(&mut out, "scan"),
    }
    push_str(&mut out, ".report.html");
    proof {
        reveal_strlit("scan");
        reveal_strlit(".report.html");
        reveal_strlit("scan.report.html");
    }
    string_from_chars(&out)
}

/// The default report file of `report <input>`: the input's file stem with
/// `.report.html`, in the working directory.
pub fn default_report_path(input: &str) -> (r: String)
    ensures
        r@ == report_path_text(path_stem(input@)),
{
    let stem = file_stem(input);
    match stem {
        Some(s) => report_path_for_stem(Some(s.as_str())),
        None => report_path_for_stem(None),
    }
}

/// The metadata of a scan of `target` made at Unix time `secs`. The engine
/// versions and the database snapshot are the pinned ones.
pub fn meta_at(target: &str, secs: u64) -> (r: Meta)
    ensures
        r.target@ == target@,
        r.tool_versions.syft@ == "pinned"@,
        r.tool_versions.grype@ == "pinned"@,
        r.db_snapshot.version@ == "snapshot"@,
        r.db_snapshot.built@ == "unknown"@,
        r.generated_at@ == iso_text(secs as nat),
{
    Meta {
        target: target.to_string(),
        tool_versions: ToolVersions { syft: "pinned".to_string(), grype: "pinned".to_string() },
        db_snapshot: DbSnapshot { version: "snapshot".to_string(), built: "unknown".to_string() },
        generated_at: epoch_to_iso(secs),
    }
}

/// The metadata of a scan of `target` made now.
pub fn meta_for(target: &str) -> (r: Meta)
    ensures
        r.target@ == target@,
        r.tool_versions.syft@ == "pinned"@,
        r.tool_versions.grype@ == "pinned"@,
        r.db_snapshot.version@ == "snapshot"@,
        r.db_snapshot.built@ == "unknown"@,
        exists|secs: nat| secs <= u64::MAX && r.generated_at@ == #[trigger] iso_text(secs),
{
    let secs = epoch_secs();
    meta_at(target, secs)
}

/// The exit code of one target: 2 when a `--fail-on` level was given and the
/// findings reach it, else 0.
pub open spec fn fail_on_code(findings: Seq<Vulnerability>, fail_on: Option<Seq<char>>) -> u8 {
    match fail_on {
        Some(t) => if meets_threshold(findings, Severity::of_label(t)) {
            EXIT_FAILON
        } else {
            EXIT_OK
        },
        None => EXIT_OK,
    }
}

/// The exit code of one scanned target under `--fail-on`.
pub fn fail_on_exit_code(findings: &[Vulnerability], fail_on: Option<&str>) -> (r: u8)
    ensures
        r == fail_on_code(findings@, str_view(fail_on)),
{
    match fail_on {
        Some(t) => {
            let th = Severity::from_grype_str(t);
            if triggered(findings, th) {
                EXIT_FAILON
            } else {
                EXIT_OK
            }
        },
        None => EXIT_OK,
    }
}

/// The exit code of a batch: 2 when any target's code is 2, else 0.
pub fn batch_exit_code(codes: &[u8]) -> (r: u8)
    ensures
        r == EXIT_FAILON <==> exists|i: int| 0 <= i < codes@.len() && codes@[i] == EXIT_FAILON,
        r == EXIT_OK || r == EXIT_FAILON,
{
    let mut worst = EXIT_OK;
    let n = codes.len();
    let mut i: usize = 0;
    while i < n
        invariant
            n == codes@.len(),
            i <= n,
            worst == EXIT_OK || worst == EXIT_FAILON,
            worst == EXIT_FAILON <==> exists|j: int| 0 <= j < i && codes@[j] == EXIT_FAILON,
        decreases n - i,
    {
        if codes[i] == EXIT_FAILON {
            worst = EXIT_FAILON;
        }
        i = i + 1;
    }
    worst
}

/// The message that a target is being scanned.
pub fn scanning_message(cat: &Catalog, target: &str) -> (r: String)
    ensures
        r@ == interpolated(cat.raw_message("cli.scanning"@), seq![("target"@, target@)]),
{
    let vars = [("target", target)];
    let r = cat.t("cli.scanning", &vars);
    assert(vars_view(vars@) =~= seq![("target"@, target@)]);
    r
}

/// The message at the end of a run: how many findings, and the overall risk
/// by its localized name.
pub fn done_message(cat: &Catalog, count: usize, risk: Severity) -> (r: String)
    ensures
        r@ == interpolated(
            cat.raw_message("cli.done"@),
            seq![
                ("count"@, decimal(count as nat)),
                ("risk"@, interpolated(cat.raw_message(risk.key()), Seq::empty())),
            ],
        ),
{
    let mut digits: Vec<char> = Vec::new();
    proof {
        lemma_decimal_nonempty(count as nat);
    }
    push_padded(&mut digits, count as u64, 1);
    let count_text = string_from_chars(&digits);
    let no_vars: [(&str, &str); 0] = [];
    let risk_name = cat.t(risk.i18n_key(), &no_vars);
    let vars = [("count", count_text.as_str()), ("risk", risk_name.as_str())];
    let r = cat.t("cli.done", &vars);
    assert(vars_view(no_vars@) =~= Seq::<(Seq<char>, Seq<char>)>::empty());
    assert(vars_view(vars@) =~= seq![
        ("count"@, decimal(count as nat)),
        ("risk"@, interpolated(cat.raw_message(risk.key()), Seq::empty())),
    ]);
    r
}

/// The message that a report was written to `path`.
pub fn report_written_message(cat: &Catalog, path: &str) -> (r: String)
    ensures
        r@ == interpolated(cat.raw_message("cli.report_written"@), seq![("path"@, path@)]),
{
    let vars = [("path", path)];
    let r = cat.t("cli.report_written", &vars);
    assert(vars_view(vars@) =~= seq![("path"@, path@)]);
    r
}

/// The message that the findings reached the `--fail-on` level.
pub fn fail_on_message(cat: &Catalog, threshold: &str) -> (r: String)
    ensures
        r@ == interpolated(cat.raw_message("cli.fail_on_triggered"@), seq![("threshold"@, threshold@)]),
{
    let vars = [("threshold", threshold)];
    let r = cat.t("cli.fail_on_triggered", &vars);
    assert(vars_view(vars@) =~= seq![("threshold"@, threshold@)]);
    r
}

/// The `--fail-on` exit code is 2 exactly when some finding, at any position,
/// is at least as severe as the level the threshold label names, and 0
/// otherwise; without `--fail-on` it is always 0.
pub proof fn law_fail_on_exit_is_any_finding_at_threshold(findings: Seq<Vulnerability>, label: Seq<char>)
    ensures
        fail_on_code(findings, Some(label)) == EXIT_FAILON <==> exists|i: int|
            0 <= i < findings.len() && (#[trigger] findings[i]).severity.rank()
                >= Severity::of_label(label).rank(),
        fail_on_code(findings, Some(label)) == EXIT_OK || fail_on_code(findings, Some(label))
            == EXIT_FAILON,
        fail_on_code(findings, None) == EXIT_OK,
{
}

/// Adding findings never lowers the `--fail-on` exit code: a report that fails
/// keeps failing with more findings, in any order.
pub proof fn law_more_findings_keep_failing(
    findings: Seq<Vulnerability>,
    more: Seq<Vulnerability>,
    label: Seq<char>,
)
    requires
        fail_on_code(findings, Some(label)) == EXIT_FAILON,
    ensures
        fail_on_code(findings + more, Some(label)) == EXIT_FAILON,
        fail_on_code(more + findings, Some(label)) == EXIT_FAILON,
{
    law_fail_on_exit_is_any_finding_at_threshold(findings, label);
    let i = choose|i: int|
        0 <= i < findings.len() && (#[trigger] findings[i]).severity.rank() >= Severity::of_label(
            label,
        ).rank();
    assert((findings + more)[i] == findings[i]);
    assert((more + findings)[more.len() + i] == findings[i]);
    law_fail_on_exit_is_any_finding_at_threshold(findings + more, label);
    law_fail_on_exit_is_any_finding_at_threshold(more + findings, label);
}

} // verus!
