//! Error types for the anonymizer.

use vstd::prelude::*;

verus! {

/// Errors that can occur during anonymizer configuration.
#[derive(Debug, Clone, PartialEq, Eq)]
pub enum ConfigError {
    /// An I/O error, by its message.
    Io(String),
    Config(String),
}

/// Errors that can occur during anonymization.
#[derive(Debug, Clone, PartialEq, Eq)]
pub enum AnonymizerError {
    UnsupportedType,
    Config(String),
    /// An I/O error, by its message.
    Io(String),
    /// A column that does not have the type the operation needs.
    Polars(String),
}

} // verus!
