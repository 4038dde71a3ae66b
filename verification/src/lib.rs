//! Post-processing of secret-scanning results: allowlist filtering of
//! findings and reconciliation of filter results between two scans.

pub mod cli;
pub mod config;
pub mod diff;
pub mod diff_lemmas;
pub mod error;
pub mod filter;
pub mod gitleaks_config;
pub mod pattern;
pub mod report;
pub mod sarif;
pub mod summary;
pub mod text;
