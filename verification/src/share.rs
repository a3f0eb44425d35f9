//! Shares: one column of the extended data with what is needed to check it.

use vstd::prelude::*;
use crate::chunks::Column;

verus! {

/// Index of a share: the column it holds.
pub type ShareIndex = u16;

/// The commitment to one row's polynomial, as the bytes that stand for it.
#[derive(Debug, PartialEq, Eq)]
pub struct Commitment(pub Vec<u8>);

/// An opening proof for one column over all rows, as the bytes that stand
/// for it.
#[derive(Debug, PartialEq, Eq)]
pub struct Proof(pub Vec<u8>);

impl View for Commitment {
    type V = Seq<u8>;

    open spec fn view(&self) -> Seq<u8> {
        self.0@
    }
}

impl View for Proof {
    type V = Seq<u8>;

    open spec fn view(&self) -> Seq<u8> {
        self.0@
    }
}

impl Clone for Commitment {
    fn clone(&self) -> (res: Self)
        ensures
            res@ == self@,
    {
        let bytes = self.0.clone();
        assert(bytes@ =~= self.0@);
        Commitment(bytes)
    }
}

impl Clone for Proof {
    fn clone(&self) -> (res: Self)
        ensures
            res@ == self@,
    {
        let bytes = self.0.clone();
        assert(bytes@ =~= self.0@);
        Proof(bytes)
    }
}

/// What a list of commitments holds, each as its bytes.
pub open spec fn commitments_view(list: Seq<Commitment>) -> Seq<Seq<u8>> {
    Seq::new(list.len(), |i: int| list[i]@)
}

/// What a list of proofs holds, each as its bytes.
pub open spec fn proofs_view(list: Seq<Proof>) -> Seq<Seq<u8>> {
    Seq::new(list.len(), |i: int| list[i]@)
}

/// Copies a list of commitments.
pub fn clone_commitments(list: &Vec<Commitment>) -> (res: Vec<Commitment>)
    ensures
        commitments_view(res@) == commitments_view(list@),
{
    let mut res: Vec<Commitment> = Vec::new();
    let mut i: usize = 0;
    while i < list.len()
        invariant
            i <= list@.len(),
            res@.len() == i,
            forall|k: int| 0 <= k < i ==> res@[k]@ == list@[k]@,
        decreases list@.len() - i,
    {
        res.push(list[i].clone());
        i = i + 1;
    }
    assert(commitments_view(res@) =~= commitments_view(list@));
    res
}

/// A share with the commitments of all rows.
#[derive(Debug, PartialEq, Eq)]
pub struct DaShare {
    pub column: Column,
    pub share_idx: ShareIndex,
    pub combined_column_proof: Proof,
    pub rows_commitments: Vec<Commitment>,
}

/// A share without the commitments.
#[derive(Debug, PartialEq, Eq)]
pub struct DaLightShare {
    pub share_idx: ShareIndex,
    pub column: Column,
    pub combined_column_proof: Proof,
}

/// The commitments of all rows, by which shares are checked.
#[derive(Debug, PartialEq, Eq)]
pub struct DaSharesCommitments {
    pub rows_commitments: Vec<Commitment>,
}

/// What a `DaShare` holds.
pub struct DaShareView {
    pub column: Seq<Seq<u8>>,
    pub share_idx: ShareIndex,
    pub combined_column_proof: Seq<u8>,
    pub rows_commitments: Seq<Seq<u8>>,
}

/// What a `DaLightShare` holds.
pub struct DaLightShareView {
    pub share_idx: ShareIndex,
    pub column: Seq<Seq<u8>>,
    pub combined_column_proof: Seq<u8>,
}

impl DaShareView {
    /// The share without its commitments.
    pub open spec fn light(self) -> DaLightShareView {
        DaLightShareView {
            share_idx: self.share_idx,
            column: self.column,
            combined_column_proof: self.combined_column_proof,
        }
    }
}

impl View for DaShare {
    type V = DaShareView;

    open spec fn view(&self) -> DaShareView {
        DaShareView {
            column: self.column@,
            share_idx: self.share_idx,
            combined_column_proof: self.combined_column_proof@,
            rows_commitments: commitments_view(self.rows_commitments@),
        }
    }
}

impl View for DaLightShare {
    type V = DaLightShareView;

    open spec fn view(&self) -> DaLightShareView {
        DaLightShareView {
            share_idx: self.share_idx,
            column: self.column@,
            combined_column_proof: self.combined_column_proof@,
        }
    }
}

impl View for DaSharesCommitments {
    type V = Seq<Seq<u8>>;

    open spec fn view(&self) -> Seq<Seq<u8>> {
        commitments_view(self.rows_commitments@)
    }
}

impl Clone for DaShare {
    fn clone(&self) -> (res: Self)
        ensures
            res@ == self@,
    {
        DaShare {
            column: self.column.clone(),
            share_idx: self.share_idx,
            combined_column_proof: self.combined_column_proof.clone(),
            rows_commitments: clone_commitments(&self.rows_commitments),
        }
    }
}

impl Clone for DaLightShare {
    fn clone(&self) -> (res: Self)
        ensures
            res@ == self@,
    {
        DaLightShare {
            share_idx: self.share_idx,
            column: self.column.clone(),
            combined_column_proof: self.combined_column_proof.clone(),
        }
    }
}

impl Clone for DaSharesCommitments {
    fn clone(&self) -> (res: Self)
        ensures
            res@ == self@,
    {
        DaSharesCommitments { rows_commitments: clone_commitments(&self.rows_commitments) }
    }
}

impl DaShare {
    /// The column this share holds.
    pub fn share_idx(&self) -> (idx: ShareIndex)
        ensures
            idx == self@.share_idx,
    {
        self.share_idx
    }

    /// Splits the share into the part that is checked and the commitments
    /// it is checked against.
    pub fn into_share_and_commitments(self) -> (parts: (DaLightShare, DaSharesCommitments))
        ensures
            parts.0@ == self@.light(),
            parts.1@ == self@.rows_commitments,
    {
        (
            DaLightShare {
                share_idx: self.share_idx,
                column: self.column,
                combined_column_proof: self.combined_column_proof,
            },
            DaSharesCommitments { rows_commitments: self.rows_commitments },
        )
    }
}

} // verus!
