//! The most recent diagnostic, kept for a caller that can only receive a code.

use vstd::prelude::*;

verus! {

/// Holds the diagnostic of the most recent failure until it is taken.
#[derive(Debug)]
pub struct LastError {
    pub message: Option<String>,
}

impl LastError {
    /// A slot that holds no diagnostic.
    pub fn new() -> (slot: Self)
        ensures
            slot.message is None,
    {
        LastError { message: None }
    }
}

/// Records `err` as the most recent diagnostic, replacing any earlier one.
pub fn set_error(slot: &mut LastError, err: String)
    ensures
        final(slot).message == Some(err),
{
    slot.message = Some(err);
}

/// Hands out the recorded diagnostic, if any, and leaves the slot empty.
pub fn take_error(slot: &mut LastError) -> (taken: Option<String>)
    ensures
        taken == old(slot).message,
        final(slot).message is None,
{
    slot.message.take()
}

} // verus!
