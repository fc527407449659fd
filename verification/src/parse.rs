//! Grype JSON and CycloneDX SBOM documents, and their mapping to the unified
//! types. Only the fields the reports need are kept; the documents arrive
//! already decoded, with absent fields at their defaults.
use vstd::prelude::*;
use crate::error::CytraceError;
use crate::text::{push_str, string_from_chars, string_view};
use crate::types::{Component, Severity, Vulnerability};

verus! {

/// A Grype report: its list of matches.
#[derive(Debug)]
pub struct GrypeDoc {
    pub matches: Vec<GrypeMatch>,
}

/// One Grype match: a vulnerability found in an artifact.
#[derive(Debug)]
pub struct GrypeMatch {
    pub vulnerability: GrypeVuln,
    pub artifact: GrypeArtifact,
}

/// The vulnerability part of a Grype match.
#[derive(Debug)]
pub struct GrypeVuln {
    pub id: String,
    pub severity: String,
    pub data_source: String,
    pub fix: Option<GrypeFix>,
    pub cvss: Vec<GrypeCvss>,
}

/// The versions that fix a vulnerability.
#[derive(Debug)]
pub struct GrypeFix {
    pub versions: Vec<String>,
}

/// One CVSS entry of a Grype vulnerability.
#[derive(Debug)]
pub struct GrypeCvss {
    pub metrics: GrypeCvssMetrics,
}

/// CVSS metrics; the base score is held as the bits of its `f64` value.
#[derive(Debug)]
pub struct GrypeCvssMetrics {
    pub base_score: Option<u64>,
}

/// The artifact of a Grype match.
#[derive(Debug)]
pub struct GrypeArtifact {
    pub name: String,
}

/// A CycloneDX SBOM: its list of components.
#[derive(Debug)]
pub struct CycloneDoc {
    pub components: Vec<CycloneComponent>,
}

/// One CycloneDX component.
#[derive(Debug)]
pub struct CycloneComponent {
    pub name: String,
    pub version: String,
    pub kind: String,
    pub licenses: Vec<CycloneLicenseEntry>,
}

/// One entry of a component's license list: a license or an SPDX expression.
#[derive(Debug)]
pub struct CycloneLicenseEntry {
    pub license: Option<CycloneLicense>,
    pub expression: Option<String>,
}

/// A license, by SPDX id or by name.
#[derive(Debug)]
pub struct CycloneLicense {
    pub id: Option<String>,
    pub name: Option<String>,
}

/// The first base score among CVSS entries that have one.
pub open spec fn first_score(cvss: Seq<GrypeCvss>) -> Option<u64>
    decreases cvss.len(),
{
    if cvss.len() == 0 {
        None
    } else if cvss[0].metrics.base_score is Some {
        cvss[0].metrics.base_score
    } else {
        first_score(cvss.drop_first())
    }
}

/// The first version that fixes the vulnerability, if any.
pub open spec fn first_fix(fix: Option<GrypeFix>) -> Option<Seq<char>> {
    match fix {
        Some(f) => if f.versions@.len() > 0 {
            Some(f.versions@[0]@)
        } else {
            None
        },
        None => None,
    }
}

/// Whether `v` is the unified form of the Grype match `m`.
pub open spec fn vuln_of(v: Vulnerability, m: GrypeMatch) -> bool {
    &&& v.id@ == m.vulnerability.id@
    &&& v.severity == Severity::of_label(m.vulnerability.severity@)
    &&& v.cvss == first_score(m.vulnerability.cvss@)
    &&& v.component@ == m.artifact.name@
    &&& string_view(v.fixed_version) == first_fix(m.vulnerability.fix)
    &&& v.source@ == m.vulnerability.data_source@
}

/// The license text of one entry: its expression, else the license's id, else
/// its name.
pub open spec fn license_text(e: CycloneLicenseEntry) -> Option<Seq<char>> {
    match e.expression {
        Some(x) => Some(x@),
        None => match e.license {
            Some(l) => match l.id {
                Some(i) => Some(i@),
                None => string_view(l.name),
            },
            None => None,
        },
    }
}

/// The license texts of the entries that have one, in order.
pub open spec fn license_texts(entries: Seq<CycloneLicenseEntry>) -> Seq<Seq<char>>
    decreases entries.len(),
{
    if entries.len() == 0 {
        Seq::empty()
    } else {
        let rest = license_texts(entries.drop_last());
        match license_text(entries.last()) {
            Some(t) => rest.push(t),
            None => rest,
        }
    }
}

/// Whether `c` is the unified form of the CycloneDX component `k`.
pub open spec fn component_of(c: Component, k: CycloneComponent) -> bool {
    &&& c.name@ == k.name@
    &&& c.version@ == k.version@
    &&& c.kind@ == k.kind@
    &&& c.licenses@.map_values(|s: String| s@) == license_texts(k.licenses@)
}

fn clone_opt(s: &Option<String>) -> (r: Option<String>)
    ensures
        string_view(r) == string_view(*s),
{
    match s {
        Some(t) => Some(t.clone()),
        None => None,
    }
}

/// The first base score among `cvss`.
fn first_base_score(cvss: &Vec<GrypeCvss>) -> (r: Option<u64>)
    ensures
        r == first_score(cvss@),
{
    let n = cvss.len();
    let mut i: usize = 0;
    assert(cvss@.skip(0) =~= cvss@);
    while i < n
        invariant
            n == cvss@.len(),
            i <= n,
            first_score(cvss@) == first_score(cvss@.skip(i as int)),
        decreases n - i,
    {
        assert(cvss@.skip(i as int)[0] == cvss@[i as int]);
        if let Some(s) = cvss[i].metrics.base_score {
            return Some(s);
        }
        assert(cvss@.skip(i as int).drop_first() =~= cvss@.skip(i + 1));
        i = i + 1;
    }
    None
}

/// The unified form of one Grype match.
fn vulnerability_of(m: &GrypeMatch) -> (r: Vulnerability)
    ensures
        vuln_of(r, *m),
{
    let fixed_version = match &m.vulnerability.fix {
        Some(f) => if f.versions.len() > 0 {
            Some(f.versions[0].clone())
        } else {
            None
        },
        None => None,
    };
    Vulnerability {
        id: m.vulnerability.id.clone(),
        severity: Severity::from_grype_str(m.vulnerability.severity.as_str()),
        cvss: first_base_score(&m.vulnerability.cvss),
        component: m.artifact.name.clone(),
        fixed_version,
        source: m.vulnerability.data_source.clone(),
    }
}

/// The findings of a Grype report, one per match and in the same order.
pub fn vulnerabilities_from_grype(doc: &GrypeDoc) -> (r: Vec<Vulnerability>)
    ensures
        r@.len() == doc.matches@.len(),
        forall|i: int| 0 <= i < r@.len() ==> vuln_of(#[trigger] r@[i], doc.matches@[i]),
{
    let mut out: Vec<Vulnerability> = Vec::new();
    let n = doc.matches.len();
    let mut i: usize = 0;
    while i < n
        invariant
            n == doc.matches@.len(),
            i <= n,
            out@.len() == i,
            forall|j: int| 0 <= j < i ==> vuln_of(#[trigger] out@[j], doc.matches@[j]),
        decreases n - i,
    {
        let v = vulnerability_of(&doc.matches[i]);
        out.push(v);
        i = i + 1;
    }
    out
}

/// The license texts of a component's entries.
fn licenses_of(entries: &Vec<CycloneLicenseEntry>) -> (r: Vec<String>)
    ensures
        r@.map_values(|s: String| s@) == license_texts(entries@),
{
    let mut out: Vec<String> = Vec::new();
    let n = entries.len();
    let mut i: usize = 0;
    assert(entries@.take(0) =~= Seq::<CycloneLicenseEntry>::empty());
    while i < n
        invariant
            n == entries@.len(),
            i <= n,
            out@.map_values(|s: String| s@) == license_texts(entries@.take(i as int)),
        decreases n - i,
    {
        let e = &entries[i];
        let text: Option<String> = match &e.expression {
            Some(x) => Some(x.clone()),
            None => match &e.license {
                Some(l) => match &l.id {
                    Some(id) => Some(id.clone()),
                    None => clone_opt(&l.name),
                },
                None => None,
            },
        };
        assert(string_view(text) == license_text(entries@[i as int]));
        assert(entries@.take(i + 1).drop_last() =~= entries@.take(i as int));
        assert(entries@.take(i + 1).last() == entries@[i as int]);
        let ghost before = out@.map_values(|s: String| s@);
        match text {
            Some(t) => {
                out.push(t);
                assert(out@.map_values(|s: String| s@) =~= before.push(
                    license_text(entries@[i as int])->Some_0,
                ));
            },
            None => {},
        }
        i = i + 1;
    }
    assert(entries@.take(n as int) =~= entries@);
    out
}

/// The components of a CycloneDX SBOM, one per component and in the same order.
pub fn components_from_cyclonedx(doc: &CycloneDoc) -> (r: Vec<Component>)
    ensures
        r@.len() == doc.components@.len(),
        forall|i: int| 0 <= i < r@.len() ==> component_of(#[trigger] r@[i], doc.components@[i]),
{
    let mut out: Vec<Component> = Vec::new();
    let n = doc.components.len();
    let mut i: usize = 0;
    while i < n
        invariant
            n == doc.components@.len(),
            i <= n,
            out@.len() == i,
            forall|j: int| 0 <= j < i ==> component_of(#[trigger] out@[j], doc.components@[j]),
        decreases n - i,
    {
        let k = &doc.components[i];
        let c = Component {
            name: k.name.clone(),
            version: k.version.clone(),
            kind: k.kind.clone(),
            licenses: licenses_of(&k.licenses),
        };
        out.push(c);
        i = i + 1;
    }
    out
}

/// The parse error for a document of the given kind: `"<kind>: <reason>"`.
pub open spec fn parse_error_text(kind: Seq<char>, reason: Seq<char>) -> Seq<char> {
    kind + ": "@ + reason
}

fn parse_error(kind: &str, reason: &str) -> (r: CytraceError)
    ensures
        r matches CytraceError::Parse(m) && m@ == parse_error_text(kind@, reason@),
{
    let mut m: Vec<char> = Vec::new();
    push_str(&mut m, kind);
    push_str(&mut m, ": ");
    push_str(&mut m, reason);
    CytraceError::Parse(string_from_chars(&m))
}

/// The findings of a decoded Grype report; a document that could not be
/// decoded (`Err` with the decoder's message) is a parse error `grype: <message>`.
pub fn parse_grype(decoded: Result<GrypeDoc, String>) -> (r: Result<Vec<Vulnerability>, CytraceError>)
    ensures
        decoded matches Ok(doc) ==> (r matches Ok(v) && v@.len() == doc.matches@.len()
            && forall|i: int| 0 <= i < v@.len() ==> vuln_of(#[trigger] v@[i], doc.matches@[i])),
        decoded matches Err(e) ==> (r matches Err(CytraceError::Parse(m)) && m@
            == parse_error_text("grype"@, e@)),
{
    match decoded {
        Ok(doc) => Ok(vulnerabilities_from_grype(&doc)),
        Err(e) => Err(parse_error("grype", e.as_str())),
    }
}

/// The components of a decoded CycloneDX SBOM; a document that could not be
/// decoded is a parse error `cyclonedx: <message>`.
pub fn parse_cyclonedx(decoded: Result<CycloneDoc, String>) -> (r: Result<Vec<Component>, CytraceError>)
    ensures
        decoded matches Ok(doc) ==> (r matches Ok(v) && v@.len() == doc.components@.len()
            && forall|i: int|
            0 <= i < v@.len() ==> component_of(#[trigger] v@[i], doc.components@[i])),
        decoded matches Err(e) ==> (r matches Err(CytraceError::Parse(m)) && m@
            == parse_error_text("cyclonedx"@, e@)),
{
    match decoded {
        Ok(doc) => Ok(components_from_cyclonedx(&doc)),
        Err(e) => Err(parse_error("cyclonedx", e.as_str())),
    }
}

/// The first score found is the score of some entry, with no score before it;
/// no score is found only when no entry has one.
proof fn lemma_first_score(cvss: Seq<GrypeCvss>)
    ensures
        first_score(cvss) matches Some(x) ==> exists|j: int|
            0 <= j < cvss.len() && (#[trigger] cvss[j]).metrics.base_score == Some(x) && forall|k: int|
                0 <= k < j ==> (#[trigger] cvss[k]).metrics.base_score is None,
        first_score(cvss) is None ==> forall|j: int|
            0 <= j < cvss.len() ==> (#[trigger] cvss[j]).metrics.base_score is None,
    decreases cvss.len(),
{
    if cvss.len() > 0 && cvss[0].metrics.base_score is None {
        let rest = cvss.drop_first();
        lemma_first_score(rest);
        if let Some(x) = first_score(cvss) {
            let j = choose|j: int|
                0 <= j < rest.len() && (#[trigger] rest[j]).metrics.base_score == Some(x) && forall|k: int|
                    0 <= k < j ==> (#[trigger] rest[k]).metrics.base_score is None;
            assert(cvss[j + 1] == rest[j]);
            assert forall|k: int| 0 <= k < j + 1 implies (#[trigger] cvss[k]).metrics.base_score is None by {
                if k > 0 {
                    assert(cvss[k] == rest[k - 1]);
                }
            }
        } else {
            assert forall|j: int| 0 <= j < cvss.len() implies (#[trigger] cvss[j]).metrics.base_score is None by {
                if j > 0 {
                    assert(cvss[j] == rest[j - 1]);
                }
            }
        }
    } else if cvss.len() > 0 {
        assert forall|k: int| 0 <= k < 0 implies (#[trigger] cvss[k]).metrics.base_score is None by {}
    }
}

/// Each field of a finding comes from its own field of the Grype match: the
/// id from the vulnerability id, the source from its data source, the
/// component from the artifact name, the severity from the severity label,
/// the CVSS score from the first entry that has a base score, and the fixed
/// version from the first version of the fix.
pub proof fn law_finding_fields_come_from_the_match(v: Vulnerability, m: GrypeMatch)
    requires
        vuln_of(v, m),
    ensures
        v.id@ == m.vulnerability.id@,
        v.source@ == m.vulnerability.data_source@,
        v.component@ == m.artifact.name@,
        v.severity == Severity::of_label(m.vulnerability.severity@),
        v.cvss matches Some(x) ==> exists|j: int|
            0 <= j < m.vulnerability.cvss@.len() && (#[trigger] m.vulnerability.cvss@[j]).metrics.base_score
                == Some(x) && forall|k: int|
                0 <= k < j ==> (#[trigger] m.vulnerability.cvss@[k]).metrics.base_score is None,
        v.cvss is None ==> forall|j: int|
            0 <= j < m.vulnerability.cvss@.len() ==> (#[trigger] m.vulnerability.cvss@[j]).metrics.base_score is None,
        v.fixed_version matches Some(x) ==> (m.vulnerability.fix matches Some(f) && f.versions@.len()
            > 0 && x@ == f.versions@[0]@),
        v.fixed_version is None ==> (m.vulnerability.fix matches Some(f) ==> f.versions@.len() == 0),
{
    lemma_first_score(m.vulnerability.cvss@);
}

/// Each component's name, version and type come from the same fields of its
/// CycloneDX entry; it has no more licenses than the entry has license
/// entries, and when every entry carries an SPDX expression, the licenses are
/// those expressions, in order.
pub proof fn law_component_fields_come_from_the_entry(c: Component, k: CycloneComponent)
    requires
        component_of(c, k),
    ensures
        c.name@ == k.name@,
        c.version@ == k.version@,
        c.kind@ == k.kind@,
        c.licenses@.len() <= k.licenses@.len(),
        (forall|i: int| 0 <= i < k.licenses@.len() ==> (#[trigger] k.licenses@[i]).expression is Some)
            ==> c.licenses@.len() == k.licenses@.len() && forall|i: int|
            0 <= i < c.licenses@.len() ==> Some((#[trigger] c.licenses@[i])@) == string_view(
                k.licenses@[i].expression,
            ),
{
    lemma_license_texts(k.licenses@);
    assert(c.licenses@.map_values(|s: String| s@).len() == c.licenses@.len());
    if forall|i: int| 0 <= i < k.licenses@.len() ==> (#[trigger] k.licenses@[i]).expression is Some {
        assert forall|i: int| 0 <= i < c.licenses@.len() implies Some((#[trigger] c.licenses@[i])@)
            == string_view(k.licenses@[i].expression) by {
            assert(c.licenses@.map_values(|s: String| s@)[i] == c.licenses@[i]@);
        }
    }
}

/// The license texts are at most one per entry; with an expression on every
/// entry they are exactly those expressions.
proof fn lemma_license_texts(entries: Seq<CycloneLicenseEntry>)
    ensures
        license_texts(entries).len() <= entries.len(),
        (forall|i: int| 0 <= i < entries.len() ==> (#[trigger] entries[i]).expression is Some) ==> (
        license_texts(entries).len() == entries.len() && forall|i: int|
            0 <= i < entries.len() ==> Some(#[trigger] license_texts(entries)[i]) == string_view(
                entries[i].expression,
            )),
    decreases entries.len(),
{
    if entries.len() > 0 {
        let p = entries.drop_last();
        lemma_license_texts(p);
        if forall|i: int| 0 <= i < entries.len() ==> (#[trigger] entries[i]).expression is Some {
            assert forall|i: int| 0 <= i < p.len() implies (#[trigger] p[i]).expression is Some by {
                assert(p[i] == entries[i]);
            }
            assert(entries[entries.len() - 1].expression is Some);
            assert forall|i: int| 0 <= i < entries.len() implies Some(#[trigger] license_texts(entries)[i])
                == string_view(entries[i].expression) by {
                if i < p.len() {
                    assert(p[i] == entries[i]);
                    assert(license_texts(entries)[i] == license_texts(p)[i]);
                }
            }
        }
    }
}

/// A component's licenses follow its license entries one by one, in order:
/// the licenses of entries `a` then `b` are those of `a` followed by those of
/// `b`, and one entry gives its SPDX expression, else its license's id, else
/// its license's name, else nothing.
pub proof fn law_licenses_follow_the_entries(
    a: Seq<CycloneLicenseEntry>,
    b: Seq<CycloneLicenseEntry>,
    e: CycloneLicenseEntry,
)
    ensures
        license_texts(a + b) == license_texts(a) + license_texts(b),
        license_texts(seq![e]) == match e.expression {
            Some(x) => seq![x@],
            None => match e.license {
                Some(l) => match l.id {
                    Some(i) => seq![i@],
                    None => match l.name {
                        Some(nm) => seq![nm@],
                        None => Seq::<Seq<char>>::empty(),
                    },
                },
                None => Seq::<Seq<char>>::empty(),
            },
        },
    decreases b.len(),
{
    if b.len() == 0 {
        assert(a + b =~= a);
        assert(license_texts(a) + license_texts(b) =~= license_texts(a));
    } else {
        assert((a + b).drop_last() =~= a + b.drop_last());
        assert((a + b).last() == b.last());
        law_licenses_follow_the_entries(a, b.drop_last(), e);
        match license_text(b.last()) {
            Some(t) => {
                assert(license_texts(a + b) =~= license_texts(a) + license_texts(b.drop_last()).push(
                    t,
                ));
            },
            None => {},
        }
    }
    assert(seq![e].drop_last() =~= Seq::<CycloneLicenseEntry>::empty());
    assert(seq![e].last() == e);
    assert(license_texts(Seq::<CycloneLicenseEntry>::empty()) =~= Seq::<Seq<char>>::empty());
    assert(license_texts(seq![e]) =~= match e.expression {
        Some(x) => seq![x@],
        None => match e.license {
            Some(l) => match l.id {
                Some(i) => seq![i@],
                None => match l.name {
                    Some(nm) => seq![nm@],
                    None => Seq::<Seq<char>>::empty(),
                },
            },
            None => Seq::<Seq<char>>::empty(),
        },
    });
}

} // verus!
