//! Right-padding of a blob to whole chunks.

use vstd::prelude::*;
use vstd::slice::slice_to_vec;
use crate::chunks::CHUNK_SIZE;
use crate::error::DaError;

verus! {

/// How an encoder treats a blob whose length is no multiple of the chunk size.
#[derive(Debug, Clone, Copy, PartialEq, Eq, Structural)]
pub enum PaddingMode {
    /// Zero bytes are appended up to the next multiple.
    ZeroPad,
    /// The blob is refused: padding is the caller's business.
    Aligned,
}

/// The least multiple of the chunk size that is not below `len`.
pub open spec fn padded_len(len: nat) -> nat {
    ((len + CHUNK_SIZE - 1) / (CHUNK_SIZE as int) * CHUNK_SIZE) as nat
}

/// `blob` followed by zero bytes up to `padded_len`.
pub open spec fn padded(blob: Seq<u8>) -> Seq<u8> {
    blob + Seq::new((padded_len(blob.len()) - blob.len()) as nat, |i: int| 0u8)
}

/// The failure that a blob of `len` bytes meets under `mode`, if any.
pub open spec fn blob_error(mode: PaddingMode, len: nat) -> Option<DaError> {
    if len == 0 {
        Some(DaError::EmptyBlob)
    } else if mode == PaddingMode::Aligned && len % (CHUNK_SIZE as nat) != 0 {
        Some(DaError::UnalignedBlob { data_len: len as usize })
    } else {
        None
    }
}

/// `padded_len` rounds up to a multiple of the chunk size, adds less than
/// one chunk, and leaves a multiple as it is.
pub proof fn lemma_padded_len(len: nat)
    ensures
        padded_len(len) % (CHUNK_SIZE as nat) == 0,
        len <= padded_len(len) < len + CHUNK_SIZE,
        len % (CHUNK_SIZE as nat) == 0 ==> padded_len(len) == len,
        len > 0 ==> padded_len(len) > 0,
{
}

/// Padding keeps the blob as a prefix and appends zero bytes only.
pub proof fn lemma_padded(blob: Seq<u8>)
    ensures
        padded(blob).len() == padded_len(blob.len()),
        padded(blob).subrange(0, blob.len() as int) == blob,
        forall|i: int| blob.len() <= i < padded(blob).len() ==> padded(blob)[i] == 0u8,
        blob.len() % (CHUNK_SIZE as nat) == 0 ==> padded(blob) == blob,
{
    lemma_padded_len(blob.len());
    assert(padded(blob).subrange(0, blob.len() as int) =~= blob);
    if blob.len() % (CHUNK_SIZE as nat) == 0 {
        assert(padded(blob) =~= blob);
    }
}

/// Appends zero bytes to `blob` until its length is a multiple of the chunk
/// size. An empty blob is refused.
pub fn pad(blob: &[u8]) -> (res: Result<Vec<u8>, DaError>)
    ensures
        res is Err <==> blob@.len() == 0,
        res is Err ==> res->Err_0 == DaError::EmptyBlob,
        res is Ok ==> {
            let out = res->Ok_0@;
            &&& out == padded(blob@)
            &&& out.len() == padded_len(blob@.len())
            &&& out.subrange(0, blob@.len() as int) == blob@
            &&& forall|i: int| blob@.len() <= i < out.len() ==> out[i] == 0u8
        },
{
    let len = blob.len();
    if len == 0 {
        return Err(DaError::EmptyBlob);
    }
    let rest = len % CHUNK_SIZE;
    let fill: usize = if rest == 0 { 0 } else { CHUNK_SIZE - rest };
    let mut out = slice_to_vec(blob);
    let mut added: usize = 0;
    while added < fill
        invariant
            added <= fill,
            out@ == blob@ + Seq::new(added as nat, |i: int| 0u8),
        decreases fill - added,
    {
        out.push(0u8);
        added = added + 1;
        assert(out@ =~= blob@ + Seq::new(added as nat, |i: int| 0u8));
    }
    proof {
        lemma_padded_len(len as nat);
        lemma_padded(blob@);
        assert(fill == padded_len(len as nat) - len);
    }
    Ok(out)
}

/// Prepares a blob for chunking under `mode`: pads it, or checks that it
/// needs no padding.
pub fn prepare(blob: &[u8], mode: PaddingMode) -> (res: Result<Vec<u8>, DaError>)
    ensures
        match res {
            Ok(out) => blob_error(mode, blob@.len()) is None && out@ == padded(blob@),
            Err(e) => blob_error(mode, blob@.len()) == Some(e),
        },
{
    match mode {
        PaddingMode::ZeroPad => pad(blob),
        PaddingMode::Aligned => {
            let len = blob.len();
            if len == 0 {
                Err(DaError::EmptyBlob)
            } else if len % CHUNK_SIZE != 0 {
                Err(DaError::UnalignedBlob { data_len: len })
            } else {
                proof {
                    lemma_padded(blob@);
                }
                Ok(slice_to_vec(blob))
            }
        },
    }
}

} // verus!
