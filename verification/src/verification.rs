//! What the verifier decides around the opening check of a share.

use vstd::prelude::*;
use crate::share::{DaLightShare, DaLightShareView, DaSharesCommitments, ShareIndex};

verus! {

/// Why a share was not accepted.
#[derive(Debug, Clone, Copy, PartialEq, Eq, Structural)]
pub enum Rejection {
    /// The evaluation domain of the rows was given as empty.
    ZeroRowsDomain,
    /// The share has another number of rows than there are commitments, or
    /// the column's proof does not open the commitments to the share's cells.
    Failed { share_idx: ShareIndex, rows_domain_size: usize },
}

/// Why the opening check is not even made for this share, if it is not.
pub open spec fn early_rejection(
    share: DaLightShareView,
    commitments: Seq<Seq<u8>>,
    rows_domain_size: usize,
) -> Option<Rejection> {
    if rows_domain_size == 0 {
        Some(Rejection::ZeroRowsDomain)
    } else if share.column.len() != commitments.len() {
        Some(Rejection::Failed { share_idx: share.share_idx, rows_domain_size })
    } else {
        None
    }
}

/// Why the share is not accepted, if it is not, when the opening check
/// gives `opening_holds` where it is made.
pub open spec fn rejection(
    share: DaLightShareView,
    commitments: Seq<Seq<u8>>,
    rows_domain_size: usize,
    opening_holds: bool,
) -> Option<Rejection> {
    if early_rejection(share, commitments, rows_domain_size) is Some {
        early_rejection(share, commitments, rows_domain_size)
    } else if !opening_holds {
        Some(Rejection::Failed { share_idx: share.share_idx, rows_domain_size })
    } else {
        None
    }
}

/// Decides whether the opening check is to be made for `share`: not for
/// an empty rows domain, and not where the share and the commitments
/// differ in their number of rows.
pub fn screen(share: &DaLightShare, commitments: &DaSharesCommitments, rows_domain_size: usize) -> (res:
    Result<(), Rejection>)
    ensures
        match res {
            Ok(_) => early_rejection(share@, commitments@, rows_domain_size) is None,
            Err(why) => early_rejection(share@, commitments@, rows_domain_size) == Some(why),
        },
        rows_domain_size == 0 ==> res is Err,
{
    if rows_domain_size == 0 {
        return Err(Rejection::ZeroRowsDomain);
    }
    let share_rows = share.column.len();
    let count = commitments.rows_commitments.len();
    if share_rows != count {
        return Err(Rejection::Failed { share_idx: share.share_idx, rows_domain_size });
    }
    Ok(())
}

/// The verdict on `share`, given what the opening check found. The
/// finding counts only where `screen` lets the check be made.
pub fn verdict(
    share: &DaLightShare,
    commitments: &DaSharesCommitments,
    rows_domain_size: usize,
    opening_holds: bool,
) -> (res: Result<(), Rejection>)
    ensures
        match res {
            Ok(_) => rejection(share@, commitments@, rows_domain_size, opening_holds) is None,
            Err(why) => rejection(share@, commitments@, rows_domain_size, opening_holds) == Some(why),
        },
{
    match screen(share, commitments, rows_domain_size) {
        Err(why) => Err(why),
        Ok(_) => {
            if opening_holds {
                Ok(())
            } else {
                Err(Rejection::Failed { share_idx: share.share_idx, rows_domain_size })
            }
        },
    }
}

/// Whether `share` is accepted: the rows domain is not empty, the share
/// has one cell for each commitment, and the opening check holds.
pub fn verify(
    share: &DaLightShare,
    commitments: &DaSharesCommitments,
    rows_domain_size: usize,
    opening_holds: bool,
) -> (accepted: bool)
    ensures
        accepted == (rows_domain_size != 0 && share@.column.len() == commitments@.len()
            && opening_holds),
        rows_domain_size == 0 ==> !accepted,
{
    verdict(share, commitments, rows_domain_size, opening_holds).is_ok()
}

} // verus!
