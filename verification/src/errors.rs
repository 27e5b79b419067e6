//! Error types of the deduplication core.
//!
//! There are exactly two kinds of failure: a URL that cannot be
//! canonicalized ([`ParseError`]) and construction-time misuse of a
//! component ([`ConfigError`]). Neither is retryable; the core does no I/O.

use vstd::prelude::*;

verus! {

/// The raw URL is syntactically invalid, or lacks the minimal structure
/// (scheme and host) required for canonicalization.
#[derive(Debug, Clone, Copy, PartialEq, Eq, Structural)]
pub enum ParseError {
    /// The URL parser rejected the input.
    Syntax,
    /// The URL parsed, but has no host.
    MissingHost,
}

/// Construction-time misuse: a component was configured with values it
/// does not support. Construction fails immediately.
#[derive(Debug, Clone, Copy, PartialEq, Eq, Structural)]
pub enum ConfigError {
    /// A Bloom filter needs capacity for at least one element.
    ZeroCapacity,
    /// The target false-positive rate must lie strictly between 0 and 1.
    RateOutOfRange,
    /// Only 64-bit SimHash fingerprints are supported.
    UnsupportedBitWidth,
}

impl ParseError {
    /// A short description, for callers that print errors.
    pub fn message(&self) -> (r: &'static str)
        ensures
            r@ == (match self {
                ParseError::Syntax => "invalid URL"@,
                ParseError::MissingHost => "URL has no host"@,
            }),
    {
        match self {
            ParseError::Syntax => "invalid URL",
            ParseError::MissingHost => "URL has no host",
        }
    }
}

impl ConfigError {
    /// A short description, for callers that print errors.
    pub fn message(&self) -> (r: &'static str)
        ensures
            r@ == (match self {
                ConfigError::ZeroCapacity => "capacity must be at least 1"@,
                ConfigError::RateOutOfRange => "false-positive rate must be within (0, 1)"@,
                ConfigError::UnsupportedBitWidth => "only 64-bit fingerprints are supported"@,
            }),
    {
        match self {
            ConfigError::ZeroCapacity => "capacity must be at least 1",
            ConfigError::RateOutOfRange => "false-positive rate must be within (0, 1)",
            ConfigError::UnsupportedBitWidth => "only 64-bit fingerprints are supported",
        }
    }
}

} // verus!
