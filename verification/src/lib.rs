pub mod discover;
pub mod ingest;
pub mod merge;
pub mod record;
pub mod table;
pub mod text;
pub mod writer;

use vstd::prelude::*;

verus! {

/// The errors a merge run can end with, one variant per failure kind.
#[derive(Clone, Copy, Debug, PartialEq, Eq, Structural)]
pub enum MergeError {
    /// The configuration is missing a key or cannot be read.
    ConfigError,
    /// An input file name lacks the numeric prefix and delimiter.
    NamingError,
    /// An input workbook could not be decoded.
    DecodeError,
    /// A cell write or the final save failed.
    WriteError,
    /// A concurrent worker failed.
    WorkerFailure,
}

} // verus!
