//! Repository health auditing: text checks, build-output parsing and reports.

pub mod bridge;
pub mod buildlog;
pub mod cache;
pub mod checks;
pub mod config;
pub mod git;
pub mod report;
pub mod scan;
pub mod tally;
pub mod text;
