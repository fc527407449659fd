//! Domain errors of scanning and reporting.
use vstd::prelude::*;

use crate::text::{push_str, string_from_chars};

verus! {

/// Core errors. Exit codes of the CLI: 0 normal, 2 fail-on triggered, any other
/// non-zero value an error.
#[derive(Debug, Clone, PartialEq, Eq)]
pub enum CytraceError {
    /// The engine subprocess (Syft/Grype) failed or was not found.
    Engine(String),
    /// JSON parsing failed (Grype / CycloneDX).
    Parse(String),
    /// An I/O error, by its message.
    Io(String),
    /// A configuration error (such as a missing required parameter).
    Config(String),
    /// The offline vulnerability database snapshot is missing.
    DbMissing(String),
}

impl CytraceError {
    /// The human-readable message of this error: a fixed prefix for its kind,
    /// then its detail.
    pub open spec fn text(self) -> Seq<char> {
        match self {
            CytraceError::Engine(s) => "引擎子程序錯誤："@ + s@,
            CytraceError::Parse(s) => "解析錯誤："@ + s@,
            CytraceError::Io(s) => "I/O 錯誤："@ + s@,
            CytraceError::Config(s) => "設定錯誤："@ + s@,
            CytraceError::DbMissing(s) => "漏洞資料庫快照缺失："@ + s@,
        }
    }

    /// The human-readable message of this error.
    pub fn message(&self) -> (r: String)
        ensures
            r@ == self.text(),
    {
        let mut out: Vec<char> = Vec::new();
        match self {
            CytraceError::Engine(s) => {
                push_str(&mut out, "引擎子程序錯誤：");
                push_str(&mut out, s.as_str());
            },
            CytraceError::Parse(s) => {
                push_str(&mut out, "解析錯誤：");
                push_str(&mut out, s.as_str());
            },
            CytraceError::Io(s) => {
                push_str(&mut out, "I/O 錯誤：");
                push_str(&mut out, s.as_str());
            },
            CytraceError::Config(s) => {
                push_str(&mut out, "設定錯誤：");
                push_str(&mut out, s.as_str());
            },
            CytraceError::DbMissing(s) => {
                push_str(&mut out, "漏洞資料庫快照缺失：");
                push_str(&mut out, s.as_str());
            },
        }
        string_from_chars(&out)
    }
}

} // verus!
