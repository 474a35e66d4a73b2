//! The error kinds of the pipeline.

use vstd::prelude::*;

verus! {

/// What went wrong in one step of the pipeline.
#[derive(Clone, Copy, Debug, PartialEq, Eq, Structural)]
pub enum PipelineError {
    /// A network read failed.
    FetchError,
    /// A link has no final path segment to use as a file name.
    InvalidLinkFormat,
    /// Creating, reading or writing a local file failed.
    FilesystemError,
    /// The input file at `file_index` lacks the projected column at
    /// `column_index`, or holds it with a type that cannot be cast.
    SchemaMismatch { file_index: usize, column_index: usize },
    /// A sampling fraction lies outside `[0, 1]`.
    InvalidPercentage,
}

} // verus!
