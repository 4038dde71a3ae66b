//! The scanner's own configuration, as far as this crate reads it.

use vstd::prelude::*;

verus! {

/// A scanner configuration file.
#[derive(Debug)]
pub struct GitleaksConfig {
    pub title: Option<String>,
    pub description: Option<String>,
    pub extend: Option<Extend>,
    pub rules: Option<Vec<Rule>>,
    pub allowlist: Option<GitleaksAllowlist>,
}

/// Where a configuration inherits from.
#[derive(Debug)]
pub struct Extend {
    pub path: Option<String>,
    pub url: Option<String>,
    pub use_default: Option<bool>,
}

/// A detection rule of the scanner.
#[derive(Debug)]
pub struct Rule {
    pub id: String,
    pub description: Option<String>,
    /// Entropy threshold, kept as the bit pattern of the double-precision
    /// number in the file, so that it travels unchanged.
    pub entropy_bits: Option<u64>,
    pub secret_group: Option<i32>,
    pub regex: Option<String>,
    pub keywords: Option<Vec<String>>,
    pub path: Option<String>,
    pub tags: Option<Vec<String>>,
    pub allowlist: Option<GitleaksAllowlist>,
}

/// An allowlist in the scanner's own format: patterns are still plain text
/// and the regex target is still a word.
#[derive(Debug)]
pub struct GitleaksAllowlist {
    pub description: Option<String>,
    pub regex_target: Option<String>,
    pub regexes: Option<Vec<String>>,
    pub paths: Option<Vec<String>>,
    pub commits: Option<Vec<String>>,
    pub stopwords: Option<Vec<String>>,
}

} // verus!
