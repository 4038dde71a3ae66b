//! The boundary to the `regex` crate.
//!
//! Regular expressions are compiled and run by the `regex` crate. Nothing in
//! this module is proved: the two functions below are believed to behave as
//! their contracts say, and everything else in the crate is proved from that.

use regex::Regex;
use vstd::prelude::*;

verus! {

/// Whether `regex::Regex::new` accepts `pattern`, that is, returns `Ok`.
pub uninterp spec fn regex_accepts(pattern: Seq<char>) -> bool;

/// What `regex::Regex::is_match` answers on `haystack` for the regular
/// expression that `regex::Regex::new` builds from `pattern`.
pub uninterp spec fn regex_finds(pattern: Seq<char>, haystack: Seq<char>) -> bool;

/// Calls `regex::Regex::new` on `pattern` and throws the compiled expression
/// away. Trusted: the call succeeds exactly on the patterns that
/// `regex_accepts` names; on failure the text is the crate's own description
/// of what is wrong with the pattern, of which nothing is claimed.
#[verifier::external_body]
pub(crate) fn check(pattern: &str) -> (outcome: Result<(), String>)
    ensures
        outcome is Ok <==> regex_accepts(pattern@),
{
    match Regex::new(pattern) {
        Ok(_) => Ok(()),
        Err(reason) => Err(reason.to_string()),
    }
}

/// Calls `regex::Regex::new` on `pattern` and then `regex::Regex::is_match`
/// on `haystack`. Trusted: for a pattern that compiles, the answer depends on
/// the two texts alone and is the one that `regex_finds` names. A pattern
/// that does not compile is left out.
#[verifier::external_body]
pub(crate) fn find(pattern: &str, haystack: &str) -> (found: bool)
    requires
        regex_accepts(pattern@),
    ensures
        found == regex_finds(pattern@, haystack@),
{
    match Regex::new(pattern) {
        Ok(compiled) => compiled.is_match(haystack),
        Err(_) => false,
    }
}

} // verus!
