//! The proof-of-work lock of shared cells.
use crate::cells::{lemma_pow_lock_args_decodes_unique, AuctionCellData, PoWLockArgs};
use crate::codec::{eq32, le_bytes, le_value, lemma_pow256_values, read_bytes32, read_le};
use crate::hashing::{sha256, sha256_of};
use crate::mmr::zero_hash;
use crate::pow::{
    adjust_difficulty, adjusted_difficulty, count_leading_zero_bits, generate_challenge,
    hash_difficulty, is_valid_proof_structure, proof_hash, verify, PoWProof, ADJUSTMENT_WINDOW,
    TARGET_TRANSITION_BLOCKS,
};
use vstd::prelude::*;

verus! {

/// Reasons a PoW lock rejects a spend.
#[derive(Debug, Clone, Copy, PartialEq, Eq)]
pub enum LockError {
    InvalidArgs,
    InvalidWitness,
    InvalidProofStructure,
    InvalidChallenge,
    InsufficientDifficulty,
    InvalidDifficultyAdjustment,
}

/// Byte range of the difficulty target in the auction cell layout.
pub const DIFFICULTY_TARGET_START: usize = 113;

pub const DIFFICULTY_TARGET_END: usize = 145;

/// The state hash a challenge binds: SHA-256 of the prior cell, zero without one.
pub open spec fn prev_hash_of(prev: Option<Seq<u8>>) -> Seq<u8> {
    match prev {
        Some(p) => sha256_of(p),
        None => zero_hash(),
    }
}

/// Byte range of the batch id in the auction cell layout.
pub const BATCH_ID_START: usize = 1;

pub const BATCH_ID_END: usize = 9;

/// The batch id a challenge binds: the batch id field when the prior cell has
/// the auction layout (its exact length); zero for any other prior cell, such
/// as a pool cell, and without one.
pub open spec fn challenge_batch_id(prev: Option<Seq<u8>>) -> nat {
    match prev {
        Some(p) if p.len() == AuctionCellData::SERIALIZED_SIZE => le_value(
            p.subrange(BATCH_ID_START as int, BATCH_ID_END as int),
        ),
        _ => 0,
    }
}

/// When both cells carry a difficulty target and it changed, its leading zero
/// bits must be within one of the adjusted previous difficulty.
pub open spec fn difficulty_change_ok(prev: Option<Seq<u8>>, cell: Seq<u8>, blocks: u64) -> bool {
    match prev {
        Some(p) if p.len() >= DIFFICULTY_TARGET_END && cell.len() >= DIFFICULTY_TARGET_END => {
            let pd = p.subrange(DIFFICULTY_TARGET_START as int, DIFFICULTY_TARGET_END as int);
            let nd = cell.subrange(DIFFICULTY_TARGET_START as int, DIFFICULTY_TARGET_END as int);
            pd == nd || {
                let expected = adjusted_difficulty(
                    hash_difficulty(pd) as u8,
                    blocks as nat,
                    (TARGET_TRANSITION_BLOCKS * ADJUSTMENT_WINDOW) as nat,
                );
                let got = hash_difficulty(nd) as int;
                got <= expected + 1 && got + 1 >= expected
            }
        },
        _ => true,
    }
}

/// Rules of the lock once its arguments are decoded and the witness holds
/// at least 64 bytes.
pub open spec fn pow_lock_rule(
    args: PoWLockArgs,
    witness: Seq<u8>,
    cell_data: Seq<u8>,
    prev: Option<Seq<u8>>,
    blocks: u64,
) -> Result<(), LockError> {
    let challenge = witness.subrange(0, 32);
    let nonce = witness.subrange(32, 64);
    if challenge == zero_hash() || nonce == zero_hash() {
        Err(LockError::InvalidProofStructure)
    } else if challenge != sha256_of(
        args.pair_id@ + le_bytes(challenge_batch_id(prev), 8) + prev_hash_of(prev),
    ) {
        Err(LockError::InvalidChallenge)
    } else if hash_difficulty(proof_hash(challenge, nonce)) < args.min_difficulty {
        Err(LockError::InsufficientDifficulty)
    } else if !difficulty_change_ok(prev, cell_data, blocks) {
        Err(LockError::InvalidDifficultyAdjustment)
    } else {
        Ok(())
    }
}

pub open spec fn bytes_view(p: Option<&[u8]>) -> Option<Seq<u8>> {
    match p {
        Some(x) => Some(x@),
        None => None,
    }
}

/// Validates the spend of a PoW-locked cell: the witness is
/// `challenge ‖ nonce`, the challenge binds the pair, the batch and the prior
/// state, the nonce reaches the lock's difficulty, and a changed difficulty
/// target follows the adjustment rule.
pub fn verify_pow_lock(
    lock_args: &[u8],
    witness: &[u8],
    cell_data: &[u8],
    prev_cell_data: Option<&[u8]>,
    blocks_since_last_transition: u64,
) -> (r: Result<(), LockError>)
    ensures
        lock_args@.len() < PoWLockArgs::SERIALIZED_SIZE ==> r == Err::<(), LockError>(
            LockError::InvalidArgs,
        ),
        lock_args@.len() >= PoWLockArgs::SERIALIZED_SIZE && witness@.len() < 64 ==> r == Err::<
            (),
            LockError,
        >(LockError::InvalidWitness),
        forall|args: PoWLockArgs| #[trigger]
            args.decodes(lock_args@) && lock_args@.len() >= PoWLockArgs::SERIALIZED_SIZE
                && witness@.len() >= 64 ==> r == pow_lock_rule(
                args,
                witness@,
                cell_data@,
                bytes_view(prev_cell_data),
                blocks_since_last_transition,
            ),
{
    let args = match PoWLockArgs::deserialize(lock_args) {
        Some(a) => a,
        None => {
            return Err(LockError::InvalidArgs);
        },
    };
    proof {
        assert forall|a: PoWLockArgs| #[trigger] a.decodes(lock_args@) implies a == args by {
            lemma_pow_lock_args_decodes_unique(a, args, lock_args@);
        }
    }
    if witness.len() < 64 {
        return Err(LockError::InvalidWitness);
    }
    let challenge = read_bytes32(witness, 0);
    let nonce = read_bytes32(witness, 32);
    let proof = PoWProof { challenge, nonce };
    if !is_valid_proof_structure(&proof) {
        return Err(LockError::InvalidProofStructure);
    }
    let required_difficulty = args.min_difficulty;
    let prev_state_hash: [u8; 32] = match prev_cell_data {
        Some(prev) => sha256(prev),
        None => {
            let z = [0u8; 32];
            proof {
                assert(z@ =~= zero_hash());
            }
            z
        },
    };
    let batch_id: u64 = match prev_cell_data {
        Some(prev) => {
            if prev.len() == AuctionCellData::SERIALIZED_SIZE {
                proof {
                    lemma_pow256_values();
                }
                read_le(prev, BATCH_ID_START, BATCH_ID_END - BATCH_ID_START) as u64
            } else {
                0
            }
        },
        None => 0,
    };
    let expected_challenge = generate_challenge(&args.pair_id, batch_id, &prev_state_hash);
    if !eq32(&challenge, &expected_challenge) {
        return Err(LockError::InvalidChallenge);
    }
    if !verify(&proof, required_difficulty) {
        return Err(LockError::InsufficientDifficulty);
    }
    if let Some(prev) = prev_cell_data {
        if prev.len() >= DIFFICULTY_TARGET_END && cell_data.len() >= DIFFICULTY_TARGET_END {
            let prev_diff = read_bytes32(prev, DIFFICULTY_TARGET_START);
            let new_diff = read_bytes32(cell_data, DIFFICULTY_TARGET_START);
            if !eq32(&prev_diff, &new_diff) {
                let prev_leading = count_leading_zero_bits(&prev_diff);
                let new_leading = count_leading_zero_bits(&new_diff);
                let expected_new = adjust_difficulty(
                    prev_leading,
                    blocks_since_last_transition,
                    TARGET_TRANSITION_BLOCKS * ADJUSTMENT_WINDOW,
                );
                if new_leading as u16 > expected_new as u16 + 1 || (new_leading as u16 + 1)
                    < expected_new as u16 {
                    return Err(LockError::InvalidDifficultyAdjustment);
                }
            }
        }
    }
    Ok(())
}

} // verus!
