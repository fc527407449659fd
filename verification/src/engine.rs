//! The scan engines: Syft makes a CycloneDX SBOM of a target, Grype matches
//! the SBOM against the offline vulnerability database. Both are pinned Go
//! binaries run as subprocesses; Grype is kept offline by its environment.
//!
//! [`ScanEngine`] is the seam that tests use to run without the binaries.
//! [`RealEngine`] holds the rules of the real engines: which command to run,
//! and how its exit status and output become a result.
use vstd::prelude::*;
use vstd::utf8::{decode_utf8, valid_utf8};
use crate::error::CytraceError;
use crate::text::{chars_of, push_chars, push_str, string_from_chars, trim, trim_chars};
use crate::timefmt::{decimal, lemma_decimal_nonempty, push_padded};

verus! {

/// A scan engine: an SBOM for a target, and the vulnerability matches of an SBOM.
pub trait ScanEngine: Send + Sync {
    /// The CycloneDX JSON SBOM of `target`.
    fn sbom(&self, target: &str) -> Result<String, CytraceError>;

    /// The Grype JSON matches of a CycloneDX JSON SBOM.
    fn vuln(&self, sbom_cyclonedx_json: &str) -> Result<String, CytraceError>;
}

/// A subprocess to run: the program, its arguments and the environment
/// variables to set.
#[derive(Debug)]
pub struct EngineCommand {
    pub program: String,
    pub args: Vec<String>,
    pub env: Vec<(String, String)>,
}

/// The pinned Syft and Grype binaries.
#[derive(Debug)]
pub struct RealEngine;

/// The text that decoding `bytes` as UTF-8, with U+FFFD for invalid
/// sequences, yields (`String::from_utf8_lossy`).
pub uninterp spec fn lossy_text(bytes: Seq<u8>) -> Seq<char>;

/// Decodes `bytes` as UTF-8, replacing invalid sequences with U+FFFD
/// (`String::from_utf8_lossy`).
///
/// Trusted: the text is `lossy_text(bytes)`, and for valid UTF-8 it is the
/// decoded text, as the documentation says.
#[verifier::external_body]
fn utf8_lossy(bytes: &[u8]) -> (r: String)
    ensures
        r@ == lossy_text(bytes@),
        valid_utf8(bytes@) ==> r@ == decode_utf8(bytes@),
{
    String::from_utf8_lossy(bytes).into_owned()
}

/// An `i32` in decimal, with a minus sign when negative.
pub open spec fn int_text(n: int) -> Seq<char> {
    if n < 0 {
        seq!['-'] + decimal((-n) as nat)
    } else {
        decimal(n as nat)
    }
}

/// An optional exit code as `{:?}` shows it: `Some(3)` or `None`.
pub open spec fn code_text(code: Option<i32>) -> Seq<char> {
    match code {
        Some(c) => "Some("@ + int_text(c as int) + ")"@,
        None => "None"@,
    }
}

/// The message of a failed run of engine `name`.
pub open spec fn failure_text(name: Seq<char>, code: Option<i32>, stderr: Seq<u8>) -> Seq<char> {
    name + " 失敗（exit "@ + code_text(code) + "）："@ + trim(lossy_text(stderr))
}

/// The result of a run of engine `name`: its standard output on success, else
/// an engine error with its exit code and trimmed standard error.
pub open spec fn outcome_of(
    name: Seq<char>,
    success: bool,
    code: Option<i32>,
    stdout: Seq<u8>,
    stderr: Seq<u8>,
) -> Result<Seq<char>, Seq<char>> {
    if success {
        Ok(lossy_text(stdout))
    } else {
        Err(failure_text(name, code, stderr))
    }
}

/// Appends `n` in decimal to `out`.
fn push_int(out: &mut Vec<char>, n: i32)
    ensures
        final(out)@ == old(out)@ + int_text(n as int),
{
    if n < 0 {
        out.push('-');
        let m: u64 = (0i64 - (n as i64)) as u64;
        proof {
            lemma_decimal_nonempty(m as nat);
        }
        push_padded(out, m, 1);
    } else {
        let m: u64 = n as u64;
        proof {
            lemma_decimal_nonempty(m as nat);
        }
        push_padded(out, m, 1);
    }
}

impl RealEngine {
    /// `syft scan <target> -o cyclonedx-json -q`, with Syft's check for a new
    /// release turned off, so that nothing leaves the machine.
    pub fn sbom_command(&self, target: &str) -> (r: EngineCommand)
        ensures
            r.program@ == "syft"@,
            r.args@.map_values(|s: String| s@) == seq![
                "scan"@,
                target@,
                "-o"@,
                "cyclonedx-json"@,
                "-q"@,
            ],
            r.env@.map_values(|p: (String, String)| (p.0@, p.1@)) == seq![
                ("SYFT_CHECK_FOR_APP_UPDATE"@, "false"@),
            ],
    {
        let args = vec![
            "scan".to_string(),
            target.to_string(),
            "-o".to_string(),
            "cyclonedx-json".to_string(),
            "-q".to_string(),
        ];
        assert(args@.map_values(|s: String| s@) =~= seq![
            "scan"@,
            target@,
            "-o"@,
            "cyclonedx-json"@,
            "-q"@,
        ]);
        let env = vec![("SYFT_CHECK_FOR_APP_UPDATE".to_string(), "false".to_string())];
        assert(env@.map_values(|p: (String, String)| (p.0@, p.1@)) =~= seq![
            ("SYFT_CHECK_FOR_APP_UPDATE"@, "false"@),
        ]);
        EngineCommand { program: "syft".to_string(), args, env }
    }

    /// `grype sbom:<path> -o json -q`, with the database's automatic update and
    /// age check turned off, so that an old snapshot still serves offline, and
    /// Grype's check for a new release turned off, so that nothing leaves the
    /// machine.
    pub fn vuln_command(&self, sbom_path: &str) -> (r: EngineCommand)
        ensures
            r.program@ == "grype"@,
            r.args@.map_values(|s: String| s@) == seq![
                "sbom:"@ + sbom_path@,
                "-o"@,
                "json"@,
                "-q"@,
            ],
            r.env@.map_values(|p: (String, String)| (p.0@, p.1@)) == seq![
                ("GRYPE_DB_AUTO_UPDATE"@, "false"@),
                ("GRYPE_DB_VALIDATE_AGE"@, "false"@),
                ("GRYPE_CHECK_FOR_APP_UPDATE"@, "false"@),
            ],
    {
        let mut source: Vec<char> = Vec::new();
        push_str(&mut source, "sbom:");
        push_str(&mut source, sbom_path);
        let args = vec![
            string_from_chars(&source),
            "-o".to_string(),
            "json".to_string(),
            "-q".to_string(),
        ];
        let env = vec![
            ("GRYPE_DB_AUTO_UPDATE".to_string(), "false".to_string()),
            ("GRYPE_DB_VALIDATE_AGE".to_string(), "false".to_string()),
            ("GRYPE_CHECK_FOR_APP_UPDATE".to_string(), "false".to_string()),
        ];
        assert(args@.map_values(|s: String| s@) =~= seq![
            "sbom:"@ + sbom_path@,
            "-o"@,
            "json"@,
            "-q"@,
        ]);
        assert(env@.map_values(|p: (String, String)| (p.0@, p.1@)) =~= seq![
            ("GRYPE_DB_AUTO_UPDATE"@, "false"@),
            ("GRYPE_DB_VALIDATE_AGE"@, "false"@),
            ("GRYPE_CHECK_FOR_APP_UPDATE"@, "false"@),
        ]);
        EngineCommand { program: "grype".to_string(), args, env }
    }

    /// The name of the temporary file that hands the SBOM to Grype:
    /// `cytrace-sbom-<pid>.cdx.json`.
    pub fn sbom_file_name(&self, pid: u32) -> (r: String)
        ensures
            r@ == "cytrace-sbom-"@ + decimal(pid as nat) + ".cdx.json"@,
    {
        let mut out: Vec<char> = Vec::new();
        push_str(&mut out, "cytrace-sbom-");
        proof {
            lemma_decimal_nonempty(pid as nat);
        }
        push_padded(&mut out, pid as u64, 1);
        push_str(&mut out, ".cdx.json");
        string_from_chars(&out)
    }

    /// The error of an engine that could not be started: `<name>: <reason>`.
    pub fn launch_error(&self, name: &str, reason: &str) -> (r: CytraceError)
        ensures
            r matches CytraceError::Engine(m) && m@ == name@ + ": "@ + reason@,
    {
        let mut out: Vec<char> = Vec::new();
        push_str(&mut out, name);
        push_str(&mut out, ": ");
        push_str(&mut out, reason);
        CytraceError::Engine(string_from_chars(&out))
    }

    /// The result of a finished run of engine `name`: its standard output when
    /// it exited successfully, else an engine error that gives the exit code
    /// and the trimmed standard error.
    pub fn outcome(
        &self,
        name: &str,
        success: bool,
        code: Option<i32>,
        stdout: &[u8],
        stderr: &[u8],
    ) -> (r: Result<String, CytraceError>)
        ensures
            outcome_of(name@, success, code, stdout@, stderr@) matches Ok(t) ==> (r matches Ok(
                s,
            ) && s@ == t),
            outcome_of(name@, success, code, stdout@, stderr@) matches Err(t) ==> (r matches Err(
                CytraceError::Engine(m),
            ) && m@ == t),
    {
        if success {
            return Ok(utf8_lossy(stdout));
        }
        let err = utf8_lossy(stderr);
        let err_chars = chars_of(err.as_str());
        let trimmed = trim_chars(&err_chars);
        let mut out: Vec<char> = Vec::new();
        push_str(&mut out, name);
        push_str(&mut out, " 失敗（exit ");
        match code {
            Some(c) => {
                push_str(&mut out, "Some(");
                push_int(&mut out, c);
                push_str(&mut out, ")");
            },
            None => {
                push_str(&mut out, "None");
            },
        }
        push_str(&mut out, "）：");
        push_chars(&mut out, &trimmed);
        assert(out@ =~= failure_text(name@, code, stderr@));
        Err(CytraceError::Engine(string_from_chars(&out)))
    }
}

} // verus!
