//! The anonymizer's configuration.

use vstd::prelude::*;

verus! {

/// Command-line arguments of the anonymizer.
#[derive(Debug, Clone, PartialEq, Eq)]
pub struct Opts {
    /// Glob pattern for config file(s). Defaults to `anonymizer_config*`.
    pub config_file: String,
}

/// Anonymizer configuration, as read from a YAML/JSON/TOML file.
#[derive(Debug, Clone, PartialEq, Eq)]
pub struct AppConfig {
    /// Number of worker threads.
    pub nthreads: u8,
    /// Root directory containing mailing list subdirectories from the parser.
    pub input_dir_path: String,
    /// Root directory for anonymized output.
    pub output_dir_path: String,
    /// Specific mailing list directories to anonymize. `None` anonymizes all subdirectories.
    pub lists_to_anonymize: Option<Vec<String>>,
    /// ZSTD compression level of the written datasets; 12 when absent.
    pub compression_level: Option<usize>,
}

} // verus!
