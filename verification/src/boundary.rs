//! What a caller across the boundary is told: a result code, and the
//! diagnostic that is kept for it.

use vstd::prelude::*;
use crate::chunks::CHUNK_SIZE;
use crate::error::DaError;
use crate::last_error::{set_error, LastError};
use crate::messages::{encoding_failure, encoding_failure_text, error_text, rejection_text};
use crate::status::NomosDaResult;
use crate::verification::Rejection;

verus! {

/// Prepares the library for use. There is nothing to prepare.
pub fn nomos_da_init() -> (code: NomosDaResult)
    ensures
        code == NomosDaResult::Success,
{
    NomosDaResult::Success
}

/// Releases what `nomos_da_init` prepared. There is nothing to release.
pub fn nomos_da_cleanup() {
}

/// The largest number of bytes of a blob that one chunk carries.
pub fn nomos_da_max_chunk_size() -> (size: usize)
    ensures
        size == CHUNK_SIZE,
{
    CHUNK_SIZE
}

/// Keeps the diagnostic of `error`, if it has one, and gives the code
/// under which the failure is reported.
pub fn report(slot: &mut LastError, error: DaError) -> (code: NomosDaResult)
    ensures
        code == error.spec_result(),
        code != NomosDaResult::Success,
        match error_text(error) {
            Some(text) => final(slot).message is Some && final(slot).message->Some_0@ == text,
            None => final(slot).message == old(slot).message,
        },
{
    match error.message() {
        Some(text) => {
            set_error(slot, text);
        },
        None => {},
    }
    error.result()
}

/// Keeps the diagnostic of an encoding that failed outside the library
/// for the reason `detail`, on a blob of `data_len` bytes, and gives the
/// code under which that is reported.
pub fn report_encoding_failure(slot: &mut LastError, detail: &str, data_len: usize) -> (code:
    NomosDaResult)
    ensures
        code == NomosDaResult::ErrorInternal,
        final(slot).message is Some,
        final(slot).message->Some_0@ == encoding_failure_text(detail@, data_len as nat),
{
    set_error(slot, encoding_failure(detail, data_len));
    NomosDaResult::ErrorInternal
}

/// Gives the verdict on a share as a plain answer, and keeps the
/// diagnostic of a rejection.
pub fn report_verdict(slot: &mut LastError, verdict: Result<(), Rejection>) -> (accepted: bool)
    ensures
        accepted == (verdict is Ok),
        match verdict {
            Ok(_) => final(slot).message == old(slot).message,
            Err(why) => final(slot).message is Some && final(slot).message->Some_0@
                == rejection_text(why),
        },
{
    match verdict {
        Ok(_) => true,
        Err(why) => {
            set_error(slot, why.message());
            false
        },
    }
}

impl NomosDaResult {
    /// The code for the outcome of a computation that either succeeded or
    /// failed with a description of its failure. The description is kept
    /// as the diagnostic.
    pub fn from_outcome(outcome: Result<(), String>, slot: &mut LastError) -> (code: NomosDaResult)
        ensures
            match outcome {
                Ok(_) => code == NomosDaResult::Success && final(slot).message == old(
                    slot,
                ).message,
                Err(detail) => code == NomosDaResult::ErrorInternal && final(slot).message
                    == Some(detail),
            },
    {
        match outcome {
            Ok(_) => NomosDaResult::Success,
            Err(detail) => {
                set_error(slot, detail);
                NomosDaResult::ErrorInternal
            },
        }
    }
}

} // verus!
