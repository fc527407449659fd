//! Dependency-risk reporting: severity grading, fail-on gating, report data
//! injection, bilingual messages and the session and login rules of the web
//! service.
use vstd::prelude::*;

pub mod text;
pub mod types;
pub mod severity;
pub mod timefmt;
pub mod error;
pub mod api_error;
pub mod session;
pub mod throttle;
pub mod auth;
pub mod report;
pub mod i18n;
pub mod parse;
pub mod service;
pub mod engine;
pub mod cli;
pub mod config;

verus! {

} // verus!
