//! The commit-cell validator.
use crate::cells::{
    lemma_auction_cell_decodes_unique, lemma_commit_cell_decodes_unique, AuctionCellData,
    CommitCellData, PHASE_COMMIT,
};
use crate::codec::{eq32, is_zero32};
use crate::mmr::zero_hash;
use vstd::prelude::*;

verus! {

/// Reasons a commit cell is rejected.
#[derive(Debug, Clone, Copy, PartialEq, Eq)]
pub enum CommitTypeError {
    InvalidCellData,
    ZeroOrderHash,
    InsufficientDeposit,
    ZeroTokenAmount,
    LockHashMismatch,
    BatchIdMismatch,
    WrongPhase,
    InvalidTypeArgs,
    NoAuctionCellInTx,
}

pub type CommitResult = Result<(), CommitTypeError>;

/// Rules for creating a commit cell; `auction` is the auction state of the
/// transaction when its bytes are present and decode.
pub open spec fn commit_creation_rule(
    commit: CommitCellData,
    type_args_len: nat,
    input_lock_hash: Option<Seq<u8>>,
    auction: Option<AuctionCellData>,
    min_deposit: u64,
) -> CommitResult {
    if commit.order_hash@ == zero_hash() {
        Err(CommitTypeError::ZeroOrderHash)
    } else if commit.deposit_ckb < min_deposit {
        Err(CommitTypeError::InsufficientDeposit)
    } else if commit.token_amount == 0 {
        Err(CommitTypeError::ZeroTokenAmount)
    } else if input_lock_hash is Some && commit.sender_lock_hash@ != input_lock_hash->Some_0 {
        Err(CommitTypeError::LockHashMismatch)
    } else if auction is Some && commit.batch_id != auction->Some_0.batch_id {
        Err(CommitTypeError::BatchIdMismatch)
    } else if auction is Some && auction->Some_0.phase != PHASE_COMMIT {
        Err(CommitTypeError::WrongPhase)
    } else if type_args_len < 32 {
        Err(CommitTypeError::InvalidTypeArgs)
    } else {
        Ok(())
    }
}

pub open spec fn lock_view(l: Option<&[u8; 32]>) -> Option<Seq<u8>> {
    match l {
        Some(x) => Some(x@),
        None => None,
    }
}

/// Validates the creation (or consumption) of a commit cell.
pub fn verify_commit_type(
    is_creation: bool,
    cell_data: &[u8],
    type_args: &[u8],
    input_lock_hash: Option<&[u8; 32]>,
    auction_cell_data: Option<&[u8]>,
    min_deposit: u64,
) -> (r: CommitResult)
    ensures
        cell_data@.len() < CommitCellData::SERIALIZED_SIZE ==> r == Err::<(), CommitTypeError>(
            CommitTypeError::InvalidCellData,
        ),
        forall|c: CommitCellData| #[trigger]
            c.decodes(cell_data@) && cell_data@.len() >= CommitCellData::SERIALIZED_SIZE ==> {
                if !is_creation {
                    r == if auction_cell_data is None {
                        Err::<(), CommitTypeError>(CommitTypeError::NoAuctionCellInTx)
                    } else {
                        Ok::<(), CommitTypeError>(())
                    }
                } else {
                    match auction_cell_data {
                        Some(ad) if ad@.len() >= AuctionCellData::SERIALIZED_SIZE => forall|
                            a: AuctionCellData,
                        | #[trigger]
                            a.decodes(ad@) ==> r == commit_creation_rule(
                                c,
                                type_args@.len(),
                                lock_view(input_lock_hash),
                                Some(a),
                                min_deposit,
                            ),
                        _ => r == commit_creation_rule(
                            c,
                            type_args@.len(),
                            lock_view(input_lock_hash),
                            None,
                            min_deposit,
                        ),
                    }
                }
            },
{
    let commit = match CommitCellData::deserialize(cell_data) {
        Some(c) => c,
        None => {
            return Err(CommitTypeError::InvalidCellData);
        },
    };
    proof {
        assert forall|c: CommitCellData| #[trigger] c.decodes(cell_data@) implies c == commit by {
            lemma_commit_cell_decodes_unique(c, commit, cell_data@);
        }
    }
    if is_creation {
        let auction = match auction_cell_data {
            Some(ad) => {
                let parsed = AuctionCellData::deserialize(ad);
                proof {
                    if let Some(p) = parsed {
                        assert forall|a: AuctionCellData| #[trigger] a.decodes(ad@) implies a == p by {
                            lemma_auction_cell_decodes_unique(a, p, ad@);
                        }
                    }
                }
                parsed
            },
            None => None,
        };
        validate_creation(&commit, type_args, input_lock_hash, auction, min_deposit)
    } else {
        validate_consumption(&commit, auction_cell_data)
    }
}

fn validate_creation(
    commit: &CommitCellData,
    type_args: &[u8],
    input_lock_hash: Option<&[u8; 32]>,
    auction: Option<AuctionCellData>,
    min_deposit: u64,
) -> (r: CommitResult)
    ensures
        r == commit_creation_rule(
            *commit,
            type_args@.len(),
            lock_view(input_lock_hash),
            auction,
            min_deposit,
        ),
{
    if is_zero32(&commit.order_hash) {
        return Err(CommitTypeError::ZeroOrderHash);
    }
    if commit.deposit_ckb < min_deposit {
        return Err(CommitTypeError::InsufficientDeposit);
    }
    if commit.token_amount == 0 {
        return Err(CommitTypeError::ZeroTokenAmount);
    }
    if let Some(lock_hash) = input_lock_hash {
        if !eq32(&commit.sender_lock_hash, lock_hash) {
            return Err(CommitTypeError::LockHashMismatch);
        }
    }
    if let Some(a) = auction {
        if commit.batch_id != a.batch_id {
            return Err(CommitTypeError::BatchIdMismatch);
        }
        if a.phase != PHASE_COMMIT {
            return Err(CommitTypeError::WrongPhase);
        }
    }
    if type_args.len() < 32 {
        return Err(CommitTypeError::InvalidTypeArgs);
    }
    Ok(())
}

/// A commit may only be consumed together with the auction cell.
fn validate_consumption(_commit: &CommitCellData, auction_cell_data: Option<&[u8]>) -> (r:
    CommitResult)
    ensures
        r == if auction_cell_data is None {
            Err::<(), CommitTypeError>(CommitTypeError::NoAuctionCellInTx)
        } else {
            Ok::<(), CommitTypeError>(())
        },
{
    if auction_cell_data.is_none() {
        return Err(CommitTypeError::NoAuctionCellInTx);
    }
    Ok(())
}

} // verus!
