//! Column constants for the anonymizer.

use vstd::prelude::*;

verus! {

/// Maximum number of rows per parquet row group.
pub const BATCH_MAX_RECORDS: usize = 50_000;

/// Columns of strings, or of lists of strings, whose identities are hashed.
pub const FROM_COLUMN: &'static str = "from";
pub const TO_COLUMN: &'static str = "to";
pub const CC_COLUMN: &'static str = "cc";
pub const RAW_BODY_COLUMN: &'static str = "raw_body";

/// The list-of-struct column whose field `TRAILER_IDENTITY_FIELD` is hashed.
pub const TRAILERS_COLUMN: &'static str = "trailers";
pub const TRAILER_IDENTITY_FIELD: &'static str = "identification";

/// Column used to generate the split ID-map dataset.
pub const SPLIT_DATASET_COLUMN: &'static str = "from";

/// Name of the ID-map column that keeps the values as they were read.
pub const ORIGINAL_SPLIT_COLUMN: &'static str = "__original_from";

/// Compression level used when the configuration names none.
pub const DEFAULT_COMPRESSION_LEVEL: usize = 12;

} // verus!
