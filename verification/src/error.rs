//! Why an operation failed.

use vstd::prelude::*;
use crate::status::NomosDaResult;

verus! {

/// What a run of bytes was to be read as.
#[derive(Debug, Clone, Copy, PartialEq, Eq, Structural)]
pub enum Payload {
    Share,
    Commitments,
}

/// A failure of one of the library's operations.
#[derive(Debug, Clone, Copy, PartialEq, Eq, Structural)]
pub enum DaError {
    /// The column count is odd, below two, or too large for a share index.
    InvalidColumnCount { column_count: usize },
    /// The blob has no bytes.
    EmptyBlob,
    /// The encoder takes whole chunks only and the blob's length is not a
    /// multiple of the chunk size.
    UnalignedBlob { data_len: usize },
    /// The extended rows, commitments or proofs do not fit the blob of
    /// `data_len` bytes.
    InconsistentEncoding { data_len: usize },
    /// The caller's buffer is shorter than the data; `needed` bytes are required.
    BufferTooSmall { needed: usize },
    /// No share has this index.
    ShareIndexOutOfBounds { index: usize, share_count: usize },
    /// The shares do not give the data of an encoding: one of its data
    /// columns has no share among them that has a row and holds data chunks
    /// only, or the shares taken for these columns differ in their number
    /// of rows. Of `share_count` shares.
    EmptyReconstruction { share_count: usize },
    /// Bytes to decode were empty.
    EmptyInput,
    /// Bytes to decode are not the byte form of any value of this kind.
    Malformed { payload: Payload, data_len: usize },
}

impl DaError {
    /// The result code under which this failure is reported.
    pub open spec fn spec_result(self) -> NomosDaResult {
        match self {
            DaError::InvalidColumnCount { .. } => NomosDaResult::ErrorInvalidInput,
            DaError::EmptyBlob => NomosDaResult::ErrorInvalidInput,
            DaError::UnalignedBlob { .. } => NomosDaResult::ErrorInvalidInput,
            DaError::InconsistentEncoding { .. } => NomosDaResult::ErrorInternal,
            DaError::BufferTooSmall { .. } => NomosDaResult::ErrorInvalidInput,
            DaError::ShareIndexOutOfBounds { .. } => NomosDaResult::ErrorInvalidInput,
            DaError::EmptyReconstruction { .. } => NomosDaResult::ErrorInternal,
            DaError::EmptyInput => NomosDaResult::ErrorInvalidInput,
            DaError::Malformed { .. } => NomosDaResult::ErrorInvalidInput,
        }
    }

    /// The result code under which this failure is reported.
    #[verifier::when_used_as_spec(spec_result)]
    pub fn result(self) -> (code: NomosDaResult)
        ensures
            code == self.spec_result(),
            code != NomosDaResult::Success,
    {
        match self {
            DaError::InvalidColumnCount { .. } => NomosDaResult::ErrorInvalidInput,
            DaError::EmptyBlob => NomosDaResult::ErrorInvalidInput,
            DaError::UnalignedBlob { .. } => NomosDaResult::ErrorInvalidInput,
            DaError::InconsistentEncoding { .. } => NomosDaResult::ErrorInternal,
            DaError::BufferTooSmall { .. } => NomosDaResult::ErrorInvalidInput,
            DaError::ShareIndexOutOfBounds { .. } => NomosDaResult::ErrorInvalidInput,
            DaError::EmptyReconstruction { .. } => NomosDaResult::ErrorInternal,
            DaError::EmptyInput => NomosDaResult::ErrorInvalidInput,
            DaError::Malformed { .. } => NomosDaResult::ErrorInvalidInput,
        }
    }
}

} // verus!
