//! What can be wrong with a configuration.

use vstd::prelude::*;
use vstd::string::StringExecFns;

verus! {

/// A configuration that cannot be loaded.
#[derive(Debug)]
pub enum ConfigError {
    /// Two allowlists carry the same id.
    DuplicatedAllowlistId { id: String },
    /// A regex target other than `secret`, `match` or `line`.
    InvalidRegexTarget { value: String },
    /// A pattern that is not a regular expression; `reason` is the regex
    /// engine's own account of it.
    InvalidRegex { pattern: String, reason: String },
}

impl ConfigError {
    /// The text shown to the user for this error.
    pub open spec fn message_text(&self) -> Seq<char> {
        match self {
            ConfigError::DuplicatedAllowlistId { id } => "Duplicated allowlist id: "@ + id@,
            ConfigError::InvalidRegexTarget { value } => "Invalid regex target: "@ + value@,
            ConfigError::InvalidRegex { pattern, reason } => reason@,
        }
    }

    /// Renders the error for the user.
    pub fn message(&self) -> (text: String)
        ensures
            text@ == self.message_text(),
    {
        match self {
            ConfigError::DuplicatedAllowlistId { id } => {
                String::from_str("Duplicated allowlist id: ").concat(id.as_str())
            },
            ConfigError::InvalidRegexTarget { value } => {
                String::from_str("Invalid regex target: ").concat(value.as_str())
            },
            ConfigError::InvalidRegex { pattern, reason } => reason.clone(),
        }
    }
}

} // verus!
