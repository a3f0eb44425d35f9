//! Result codes handed across the boundary.

use vstd::prelude::*;

verus! {

/// Outcome of a fallible operation, as a caller across the boundary sees it.
#[derive(Debug, Clone, Copy, PartialEq, Eq, Structural)]
pub enum NomosDaResult {
    /// The operation did what it was asked to do.
    Success,
    /// An argument was malformed or out of range.
    ErrorInvalidInput,
    /// The computation failed.
    ErrorInternal,
    /// Memory ran out. The library itself never reports this.
    ErrorAllocation,
}

impl NomosDaResult {
    /// The integer that stands for this outcome at the boundary.
    pub open spec fn spec_code(self) -> int {
        match self {
            NomosDaResult::Success => 0,
            NomosDaResult::ErrorInvalidInput => -1,
            NomosDaResult::ErrorInternal => -2,
            NomosDaResult::ErrorAllocation => -3,
        }
    }

    /// The integer that stands for this outcome at the boundary.
    pub fn code(self) -> (c: i32)
        ensures
            c == self.spec_code(),
    {
        match self {
            NomosDaResult::Success => 0,
            NomosDaResult::ErrorInvalidInput => -1,
            NomosDaResult::ErrorInternal => -2,
            NomosDaResult::ErrorAllocation => -3,
        }
    }
}

} // verus!
