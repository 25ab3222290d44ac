//! The result model of a diff run and the errors a run can end with.

use vstd::prelude::*;

verus! {

use vstd::string::StringExecFns;

/// One span of a word-level diff of a single changed cell.
#[derive(Clone, Debug)]
pub struct DiffChange {
    pub added: bool,
    pub removed: bool,
    pub value: String,
}

/// One changed column of a modified row.
#[derive(Clone, Debug)]
pub struct Difference {
    pub column: String,
    pub old_value: String,
    pub new_value: String,
    pub diff: Vec<DiffChange>,
}

/// A row present only in the target dataset.
#[derive(Clone, Debug)]
pub struct AddedRow {
    pub key: String,
    pub target_row: Vec<(String, String)>,
}

/// A row present only in the source dataset.
#[derive(Clone, Debug)]
pub struct RemovedRow {
    pub key: String,
    pub source_row: Vec<(String, String)>,
}

/// A row present in both datasets with no differing column.
#[derive(Clone, Debug)]
pub struct UnchangedRow {
    pub key: String,
    pub row: Vec<(String, String)>,
}

/// A row present in both datasets with at least one differing column.
#[derive(Clone, Debug)]
pub struct ModifiedRow {
    pub key: String,
    pub source_row: Vec<(String, String)>,
    pub target_row: Vec<(String, String)>,
    pub differences: Vec<Difference>,
}

/// The headers of one dataset and, outside chunked mode, its rows as
/// header/value pairs.
#[derive(Clone, Debug)]
pub struct DatasetMetadata {
    pub headers: Vec<String>,
    pub rows: Vec<Vec<(String, String)>>,
}

/// A complete classification of every row of a diff run.
#[derive(Clone, Debug)]
pub struct DiffResult {
    pub added: Vec<AddedRow>,
    pub removed: Vec<RemovedRow>,
    pub modified: Vec<ModifiedRow>,
    pub unchanged: Vec<UnchangedRow>,
    pub source: DatasetMetadata,
    pub target: DatasetMetadata,
    pub key_columns: Vec<String>,
    pub excluded_columns: Vec<String>,
    pub mode: String,
}

/// A parsed dataset handed back to a caller: headers plus rows as
/// header/value pairs.
#[derive(Clone, Debug)]
pub struct ParseResult {
    pub headers: Vec<String>,
    pub rows: Vec<Vec<(String, String)>>,
}

/// Why a diff run ended without a result.
#[derive(Clone, Debug)]
pub enum DiffError {
    /// A named key column is missing from one dataset's headers.
    KeyColumnNotFound { column: String, in_target: bool },
    /// Two rows of one dataset share a primary key.
    DuplicateKey { key: String, in_target: bool },
    /// The record reader rejected the raw text.
    Parse { message: String },
}

impl DiffError {
    /// Renders the error as the caller-facing message.
    pub fn message(&self) -> (r: String)
        ensures
            match self {
                DiffError::KeyColumnNotFound { column, in_target } => r@
                    == "Primary key column \""@ + column@ + "\" not found in "@ + (if *in_target {
                    "target"@
                } else {
                    "source"@
                }) + " dataset."@,
                DiffError::DuplicateKey { key, in_target } => r@
                    == "Duplicate Primary Key found in "@ + (if *in_target {
                    "target"@
                } else {
                    "source"@
                }) + ": \""@ + key@ + "\". Primary Keys must be unique."@,
                DiffError::Parse { message } => r@ == message@,
            },
    {
        match self {
            DiffError::KeyColumnNotFound { column, in_target } => {
                let mut r = "Primary key column \"".to_owned();
                r.append(column.as_str());
                r.append("\" not found in ");
                if *in_target {
                    r.append("target");
                } else {
                    r.append("source");
                }
                r.append(" dataset.");
                r
            },
            DiffError::DuplicateKey { key, in_target } => {
                let mut r = "Duplicate Primary Key found in ".to_owned();
                if *in_target {
                    r.append("target");
                } else {
                    r.append("source");
                }
                r.append(": \"");
                r.append(key.as_str());
                r.append("\". Primary Keys must be unique.");
                r
            },
            DiffError::Parse { message } => message.clone(),
        }
    }
}

} // verus!
