//! The batch-auction state machine: which transitions of the auction cell are legal.
use crate::cells::{
    lemma_auction_cell_decodes_unique, AuctionCellData, CommitCellData, ComplianceCellData,
    ConfigCellData, RevealWitness, ORDER_BUY, ORDER_SELL, PHASE_COMMIT, PHASE_REVEAL,
    PHASE_SETTLED, PHASE_SETTLING,
};
use crate::codec::{eq32, is_zero32};
use crate::hashing::{sha256, sha256_of};
use crate::mmr::zero_hash;
use crate::shuffle::{generate_seed_secure, secure_seed_of, xor32};
use vstd::prelude::*;

verus! {

/// Reasons an auction transition is rejected.
#[derive(Debug, Clone, Copy, PartialEq, Eq)]
pub enum AuctionTypeError {
    InvalidCellData,
    InvalidInitialPhase,
    InvalidInitialBatchId,
    InvalidInitialCounts,
    InvalidInitialState,
    InvalidPairId,
    PairIdChanged,
    InvalidStateHash,
    InvalidPhaseTransition,
    NoCommitsToAggregate,
    CommitBatchMismatch,
    ForcedInclusionViolation,
    InvalidCommitCount,
    BatchIdChanged,
    SeedChangedDuringCommit,
    NoCommitsForReveal,
    CommitWindowNotElapsed,
    CommitCountChanged,
    MMRRootChanged,
    RevealCountNotReset,
    InvalidPhaseStartBlock,
    NoRevealsToProcess,
    InvalidOrderType,
    ZeroRevealAmount,
    InvalidXORSeed,
    InvalidRevealCount,
    RevealWindowNotElapsed,
    NoReveals,
    RevealCountChanged,
    InvalidFinalSeed,
    ZeroClearingPrice,
    InvalidBatchIncrement,
    SeedNotReset,
    MMRNotReset,
}

pub type AuctionResult = Result<(), AuctionTypeError>;

/// The hash that the next state must carry: SHA-256 of the serialized state.
pub open spec fn state_hash_of(state: AuctionCellData) -> Seq<u8> {
    sha256_of(state.spec_bytes())
}

/// Rules for a newly created auction cell.
pub open spec fn creation_rule(new: AuctionCellData) -> AuctionResult {
    if new.phase != PHASE_COMMIT {
        Err(AuctionTypeError::InvalidInitialPhase)
    } else if new.batch_id != 0 {
        Err(AuctionTypeError::InvalidInitialBatchId)
    } else if new.commit_count != 0 || new.reveal_count != 0 {
        Err(AuctionTypeError::InvalidInitialCounts)
    } else if new.clearing_price != 0 || new.fillable_volume != 0 || new.xor_seed@ != zero_hash()
        || new.commit_mmr_root@ != zero_hash() {
        Err(AuctionTypeError::InvalidInitialState)
    } else if new.pair_id@ == zero_hash() {
        Err(AuctionTypeError::InvalidPairId)
    } else {
        Ok(())
    }
}

/// Rules for COMMIT to COMMIT: every consumed commit belongs to this batch, no
/// pending commit is left out, the count grows by the commits included, and
/// the seed and the reveal count stay.
pub open spec fn commit_aggregation_rule(
    old: AuctionCellData,
    new: AuctionCellData,
    commits: Seq<CommitCellData>,
    pending_commit_count: u32,
) -> AuctionResult {
    if commits.len() == 0 {
        Err(AuctionTypeError::NoCommitsToAggregate)
    } else if exists|i: int| 0 <= i < commits.len() && #[trigger] commits[i].batch_id != old.batch_id {
        Err(AuctionTypeError::CommitBatchMismatch)
    } else if commits.len() < pending_commit_count {
        Err(AuctionTypeError::ForcedInclusionViolation)
    } else if new.commit_count != old.commit_count + commits.len() {
        Err(AuctionTypeError::InvalidCommitCount)
    } else if new.batch_id != old.batch_id {
        Err(AuctionTypeError::BatchIdChanged)
    } else if new.xor_seed@ != old.xor_seed@ {
        Err(AuctionTypeError::SeedChangedDuringCommit)
    } else if new.reveal_count != old.reveal_count {
        Err(AuctionTypeError::RevealCountChanged)
    } else {
        Ok(())
    }
}

/// Rules for COMMIT to REVEAL.
pub open spec fn commit_to_reveal_rule(
    old: AuctionCellData,
    new: AuctionCellData,
    config: ConfigCellData,
    block_number: u64,
) -> AuctionResult {
    if old.commit_count == 0 {
        Err(AuctionTypeError::NoCommitsForReveal)
    } else if block_number < old.phase_start_block + config.commit_window_blocks {
        Err(AuctionTypeError::CommitWindowNotElapsed)
    } else if new.commit_count != old.commit_count {
        Err(AuctionTypeError::CommitCountChanged)
    } else if new.commit_mmr_root@ != old.commit_mmr_root@ {
        Err(AuctionTypeError::MMRRootChanged)
    } else if new.batch_id != old.batch_id {
        Err(AuctionTypeError::BatchIdChanged)
    } else if new.reveal_count != 0 {
        Err(AuctionTypeError::RevealCountNotReset)
    } else if new.phase_start_block != block_number {
        Err(AuctionTypeError::InvalidPhaseStartBlock)
    } else {
        Ok(())
    }
}

/// The first malformed reveal decides the error.
pub open spec fn reveals_well_formed(reveals: Seq<RevealWitness>) -> AuctionResult
    decreases reveals.len(),
{
    if reveals.len() == 0 {
        Ok(())
    } else if reveals[0].order_type != ORDER_BUY && reveals[0].order_type != ORDER_SELL {
        Err(AuctionTypeError::InvalidOrderType)
    } else if reveals[0].amount_in == 0 {
        Err(AuctionTypeError::ZeroRevealAmount)
    } else {
        reveals_well_formed(reveals.drop_first())
    }
}

/// `seed` XOR-ed with the secret of every reveal.
pub open spec fn xor_reveals(seed: Seq<u8>, reveals: Seq<RevealWitness>) -> Seq<u8>
    decreases reveals.len(),
{
    if reveals.len() == 0 {
        seed
    } else {
        xor32(xor_reveals(seed, reveals.drop_last()), reveals.last().secret@)
    }
}

/// Rules for REVEAL to REVEAL.
pub open spec fn reveal_processing_rule(
    old: AuctionCellData,
    new: AuctionCellData,
    reveals: Seq<RevealWitness>,
) -> AuctionResult {
    if reveals.len() == 0 {
        Err(AuctionTypeError::NoRevealsToProcess)
    } else if reveals_well_formed(reveals) is Err {
        reveals_well_formed(reveals)
    } else if new.xor_seed@ != xor_reveals(old.xor_seed@, reveals) {
        Err(AuctionTypeError::InvalidXORSeed)
    } else if new.reveal_count != old.reveal_count + reveals.len() || old.reveal_count
        + reveals.len() > old.commit_count {
        Err(AuctionTypeError::InvalidRevealCount)
    } else if new.batch_id != old.batch_id {
        Err(AuctionTypeError::BatchIdChanged)
    } else if new.commit_count != old.commit_count {
        Err(AuctionTypeError::CommitCountChanged)
    } else {
        Ok(())
    }
}

/// Rules for REVEAL to SETTLING: the final seed must mix in the entropy of a
/// block after the reveal window, which must be given.
pub open spec fn reveal_to_settling_rule(
    old: AuctionCellData,
    new: AuctionCellData,
    config: ConfigCellData,
    block_number: u64,
    block_entropy: Option<Seq<u8>>,
) -> AuctionResult {
    if block_number < old.phase_start_block + config.reveal_window_blocks {
        Err(AuctionTypeError::RevealWindowNotElapsed)
    } else if old.reveal_count == 0 {
        Err(AuctionTypeError::NoReveals)
    } else if new.commit_count != old.commit_count {
        Err(AuctionTypeError::CommitCountChanged)
    } else if new.reveal_count != old.reveal_count {
        Err(AuctionTypeError::RevealCountChanged)
    } else if new.batch_id != old.batch_id {
        Err(AuctionTypeError::BatchIdChanged)
    } else if new.commit_mmr_root@ != old.commit_mmr_root@ {
        Err(AuctionTypeError::MMRRootChanged)
    } else if block_entropy is None || new.xor_seed@ != secure_seed_of(
        seq![old.xor_seed],
        block_entropy->Some_0,
        old.batch_id,
    ) {
        Err(AuctionTypeError::InvalidFinalSeed)
    } else if new.phase_start_block != block_number {
        Err(AuctionTypeError::InvalidPhaseStartBlock)
    } else {
        Ok(())
    }
}

/// Rules for SETTLING to SETTLED: a clearing price is published and the batch
/// and its counts are carried forward.
pub open spec fn settlement_rule(old: AuctionCellData, new: AuctionCellData) -> AuctionResult {
    if new.clearing_price == 0 {
        Err(AuctionTypeError::ZeroClearingPrice)
    } else if new.batch_id != old.batch_id {
        Err(AuctionTypeError::BatchIdChanged)
    } else if new.commit_count != old.commit_count {
        Err(AuctionTypeError::CommitCountChanged)
    } else if new.reveal_count != old.reveal_count {
        Err(AuctionTypeError::RevealCountChanged)
    } else {
        Ok(())
    }
}

/// Rules for SETTLED to COMMIT: the next batch starts from zero.
pub open spec fn new_batch_rule(old: AuctionCellData, new: AuctionCellData, block_number: u64) -> AuctionResult {
    if new.batch_id != old.batch_id + 1 {
        Err(AuctionTypeError::InvalidBatchIncrement)
    } else if new.phase != PHASE_COMMIT {
        Err(AuctionTypeError::InvalidInitialPhase)
    } else if new.commit_count != 0 || new.reveal_count != 0 {
        Err(AuctionTypeError::InvalidInitialCounts)
    } else if new.clearing_price != 0 || new.fillable_volume != 0 {
        Err(AuctionTypeError::InvalidInitialState)
    } else if new.xor_seed@ != zero_hash() {
        Err(AuctionTypeError::SeedNotReset)
    } else if new.commit_mmr_root@ != zero_hash() {
        Err(AuctionTypeError::MMRNotReset)
    } else if new.phase_start_block != block_number {
        Err(AuctionTypeError::InvalidPhaseStartBlock)
    } else {
        Ok(())
    }
}

/// Rules for a transition of an existing auction cell.
pub open spec fn transition_rule(
    old: AuctionCellData,
    new: AuctionCellData,
    commits: Seq<CommitCellData>,
    reveals: Seq<RevealWitness>,
    config: ConfigCellData,
    block_number: u64,
    block_entropy: Option<Seq<u8>>,
    pending_commit_count: u32,
) -> AuctionResult {
    if old.pair_id@ != new.pair_id@ {
        Err(AuctionTypeError::PairIdChanged)
    } else if new.prev_state_hash@ != state_hash_of(old) {
        Err(AuctionTypeError::InvalidStateHash)
    } else if old.phase == PHASE_COMMIT && new.phase == PHASE_COMMIT {
        commit_aggregation_rule(old, new, commits, pending_commit_count)
    } else if old.phase == PHASE_COMMIT && new.phase == PHASE_REVEAL {
        commit_to_reveal_rule(old, new, config, block_number)
    } else if old.phase == PHASE_REVEAL && new.phase == PHASE_REVEAL {
        reveal_processing_rule(old, new, reveals)
    } else if old.phase == PHASE_REVEAL && new.phase == PHASE_SETTLING {
        reveal_to_settling_rule(old, new, config, block_number, block_entropy)
    } else if old.phase == PHASE_SETTLING && new.phase == PHASE_SETTLED {
        settlement_rule(old, new)
    } else if old.phase == PHASE_SETTLED && new.phase == PHASE_COMMIT {
        new_batch_rule(old, new, block_number)
    } else {
        Err(AuctionTypeError::InvalidPhaseTransition)
    }
}

pub open spec fn entropy_view(e: Option<&[u8; 32]>) -> Option<Seq<u8>> {
    match e {
        Some(x) => Some(x@),
        None => None,
    }
}

/// Validates a transition of the auction cell given as bytes: creation when
/// there is no prior cell, else the phase rules of the old and new state.
pub fn verify_batch_auction_type(
    old_data: Option<&[u8]>,
    new_data: &[u8],
    commit_cells: &[CommitCellData],
    reveal_witnesses: &[RevealWitness],
    compliance_data: Option<&ComplianceCellData>,
    config_data: &ConfigCellData,
    block_number: u64,
    block_entropy: Option<&[u8; 32]>,
    pending_commit_count: u32,
) -> (r: AuctionResult)
    ensures
        new_data@.len() < AuctionCellData::SERIALIZED_SIZE ==> r == Err::<(), AuctionTypeError>(
            AuctionTypeError::InvalidCellData,
        ),
        forall|new: AuctionCellData| #[trigger]
            new.decodes(new_data@) && new_data@.len() >= AuctionCellData::SERIALIZED_SIZE ==> {
                match old_data {
                    None => r == creation_rule(new),
                    Some(od) => {
                        &&& od@.len() < AuctionCellData::SERIALIZED_SIZE ==> r == Err::<
                            (),
                            AuctionTypeError,
                        >(AuctionTypeError::InvalidCellData)
                        &&& forall|old: AuctionCellData| #[trigger]
                            old.decodes(od@) && od@.len() >= AuctionCellData::SERIALIZED_SIZE ==> r
                                == transition_rule(
                                old,
                                new,
                                commit_cells@,
                                reveal_witnesses@,
                                *config_data,
                                block_number,
                                entropy_view(block_entropy),
                                pending_commit_count,
                            )
                    },
                }
            },
{
    let new_state = match AuctionCellData::deserialize(new_data) {
        Some(s) => s,
        None => {
            return Err(AuctionTypeError::InvalidCellData);
        },
    };
    proof {
        assert forall|n: AuctionCellData| #[trigger] n.decodes(new_data@) implies n == new_state by {
            lemma_auction_cell_decodes_unique(n, new_state, new_data@);
        }
    }
    match old_data {
        None => validate_creation(&new_state, config_data),
        Some(old) => {
            let old_state = match AuctionCellData::deserialize(old) {
                Some(s) => s,
                None => {
                    return Err(AuctionTypeError::InvalidCellData);
                },
            };
            proof {
                assert forall|o: AuctionCellData| #[trigger] o.decodes(old@) implies o == old_state by {
                    lemma_auction_cell_decodes_unique(o, old_state, old@);
                }
            }
            validate_transition(
                &old_state,
                &new_state,
                commit_cells,
                reveal_witnesses,
                compliance_data,
                config_data,
                block_number,
                block_entropy,
                pending_commit_count,
            )
        },
    }
}

fn validate_creation(new_state: &AuctionCellData, _config: &ConfigCellData) -> (r: AuctionResult)
    ensures
        r == creation_rule(*new_state),
{
    if new_state.phase != PHASE_COMMIT {
        return Err(AuctionTypeError::InvalidInitialPhase);
    }
    if new_state.batch_id != 0 {
        return Err(AuctionTypeError::InvalidInitialBatchId);
    }
    if new_state.commit_count != 0 || new_state.reveal_count != 0 {
        return Err(AuctionTypeError::InvalidInitialCounts);
    }
    if new_state.clearing_price != 0 || new_state.fillable_volume != 0 || !is_zero32(
        &new_state.xor_seed,
    ) || !is_zero32(&new_state.commit_mmr_root) {
        return Err(AuctionTypeError::InvalidInitialState);
    }
    if is_zero32(&new_state.pair_id) {
        return Err(AuctionTypeError::InvalidPairId);
    }
    Ok(())
}

/// Validates a transition between two decoded auction states.
pub fn validate_transition(
    old: &AuctionCellData,
    new: &AuctionCellData,
    commit_cells: &[CommitCellData],
    reveal_witnesses: &[RevealWitness],
    compliance_data: Option<&ComplianceCellData>,
    config: &ConfigCellData,
    block_number: u64,
    block_entropy: Option<&[u8; 32]>,
    pending_commit_count: u32,
) -> (r: AuctionResult)
    ensures
        r == transition_rule(
            *old,
            *new,
            commit_cells@,
            reveal_witnesses@,
            *config,
            block_number,
            entropy_view(block_entropy),
            pending_commit_count,
        ),
{
    if !eq32(&old.pair_id, &new.pair_id) {
        return Err(AuctionTypeError::PairIdChanged);
    }
    let expected_prev_hash = compute_state_hash(old);
    if !eq32(&new.prev_state_hash, &expected_prev_hash) {
        return Err(AuctionTypeError::InvalidStateHash);
    }
    if old.phase == PHASE_COMMIT && new.phase == PHASE_COMMIT {
        validate_commit_aggregation(old, new, commit_cells, compliance_data, pending_commit_count)
    } else if old.phase == PHASE_COMMIT && new.phase == PHASE_REVEAL {
        validate_commit_to_reveal(old, new, config, block_number)
    } else if old.phase == PHASE_REVEAL && new.phase == PHASE_REVEAL {
        validate_reveal_processing(old, new, reveal_witnesses)
    } else if old.phase == PHASE_REVEAL && new.phase == PHASE_SETTLING {
        validate_reveal_to_settling(old, new, config, block_number, block_entropy)
    } else if old.phase == PHASE_SETTLING && new.phase == PHASE_SETTLED {
        validate_settlement(old, new)
    } else if old.phase == PHASE_SETTLED && new.phase == PHASE_COMMIT {
        validate_new_batch(old, new, block_number)
    } else {
        Err(AuctionTypeError::InvalidPhaseTransition)
    }
}

fn validate_commit_aggregation(
    old: &AuctionCellData,
    new: &AuctionCellData,
    commit_cells: &[CommitCellData],
    compliance_data: Option<&ComplianceCellData>,
    pending_commit_count: u32,
) -> (r: AuctionResult)
    ensures
        r == commit_aggregation_rule(*old, *new, commit_cells@, pending_commit_count),
{
    if commit_cells.len() == 0 {
        return Err(AuctionTypeError::NoCommitsToAggregate);
    }
    let mut filtered_count: usize = 0;
    let mut i: usize = 0;
    while i < commit_cells.len()
        invariant
            i <= commit_cells@.len(),
            filtered_count == 0,
            forall|k: int| 0 <= k < i ==> #[trigger] commit_cells@[k].batch_id == old.batch_id,
        decreases commit_cells@.len() - i,
    {
        if commit_cells[i].batch_id != old.batch_id {
            return Err(AuctionTypeError::CommitBatchMismatch);
        }
        if let Some(compliance) = compliance_data {
            if is_address_blocked(&commit_cells[i].sender_lock_hash, compliance) {
                filtered_count = filtered_count + 1;
            }
        }
        i = i + 1;
    }
    let included_count = commit_cells.len() - filtered_count;
    let expected_total = pending_commit_count as usize - filtered_count;
    if included_count < expected_total {
        return Err(AuctionTypeError::ForcedInclusionViolation);
    }
    if new.commit_count as u128 != old.commit_count as u128 + included_count as u128 {
        return Err(AuctionTypeError::InvalidCommitCount);
    }
    if new.batch_id != old.batch_id {
        return Err(AuctionTypeError::BatchIdChanged);
    }
    if !eq32(&new.xor_seed, &old.xor_seed) {
        return Err(AuctionTypeError::SeedChangedDuringCommit);
    }
    if new.reveal_count != old.reveal_count {
        return Err(AuctionTypeError::RevealCountChanged);
    }
    Ok(())
}

fn validate_commit_to_reveal(
    old: &AuctionCellData,
    new: &AuctionCellData,
    config: &ConfigCellData,
    block_number: u64,
) -> (r: AuctionResult)
    ensures
        r == commit_to_reveal_rule(*old, *new, *config, block_number),
{
    if old.commit_count == 0 {
        return Err(AuctionTypeError::NoCommitsForReveal);
    }
    if (block_number as u128) < old.phase_start_block as u128 + config.commit_window_blocks as u128 {
        return Err(AuctionTypeError::CommitWindowNotElapsed);
    }
    if new.commit_count != old.commit_count {
        return Err(AuctionTypeError::CommitCountChanged);
    }
    if !eq32(&new.commit_mmr_root, &old.commit_mmr_root) {
        return Err(AuctionTypeError::MMRRootChanged);
    }
    if new.batch_id != old.batch_id {
        return Err(AuctionTypeError::BatchIdChanged);
    }
    if new.reveal_count != 0 {
        return Err(AuctionTypeError::RevealCountNotReset);
    }
    if new.phase_start_block != block_number {
        return Err(AuctionTypeError::InvalidPhaseStartBlock);
    }
    Ok(())
}

fn validate_reveal_processing(
    old: &AuctionCellData,
    new: &AuctionCellData,
    reveals: &[RevealWitness],
) -> (r: AuctionResult)
    ensures
        r == reveal_processing_rule(*old, *new, reveals@),
{
    if reveals.len() == 0 {
        return Err(AuctionTypeError::NoRevealsToProcess);
    }
    let mut i: usize = 0;
    proof {
        assert(reveals@.subrange(0, reveals@.len() as int) =~= reveals@);
    }
    while i < reveals.len()
        invariant
            i <= reveals@.len(),
            reveals_well_formed(reveals@) == reveals_well_formed(
                reveals@.subrange(i as int, reveals@.len() as int),
            ),
        decreases reveals@.len() - i,
    {
        proof {
            let s = reveals@.subrange(i as int, reveals@.len() as int);
            assert(s.drop_first() =~= reveals@.subrange(i + 1, reveals@.len() as int));
        }
        if reveals[i].order_type != ORDER_BUY && reveals[i].order_type != ORDER_SELL {
            return Err(AuctionTypeError::InvalidOrderType);
        }
        if reveals[i].amount_in == 0 {
            return Err(AuctionTypeError::ZeroRevealAmount);
        }
        i = i + 1;
    }
    let mut expected_seed = old.xor_seed;
    let mut k: usize = 0;
    proof {
        assert(reveals@.subrange(0, 0) =~= Seq::<RevealWitness>::empty());
    }
    while k < reveals.len()
        invariant
            k <= reveals@.len(),
            expected_seed@ == xor_reveals(old.xor_seed@, reveals@.subrange(0, k as int)),
        decreases reveals@.len() - k,
    {
        let ghost prev = expected_seed@;
        let secret = reveals[k].secret;
        let mut j: usize = 0;
        while j < 32
            invariant
                j <= 32,
                expected_seed@.len() == 32,
                forall|t: int| 0 <= t < j ==> expected_seed@[t] == prev[t] ^ secret@[t],
                forall|t: int| j <= t < 32 ==> expected_seed@[t] == prev[t],
            decreases 32 - j,
        {
            expected_seed[j] = expected_seed[j] ^ secret[j];
            j = j + 1;
        }
        proof {
            let s = reveals@.subrange(0, k + 1);
            assert(s.drop_last() =~= reveals@.subrange(0, k as int));
            assert(expected_seed@ =~= xor32(prev, secret@));
        }
        k = k + 1;
    }
    if !eq32(&new.xor_seed, &expected_seed) {
        return Err(AuctionTypeError::InvalidXORSeed);
    }
    if new.reveal_count as u128 != old.reveal_count as u128 + reveals.len() as u128
        || old.reveal_count as u128 + reveals.len() as u128 > old.commit_count as u128 {
        return Err(AuctionTypeError::InvalidRevealCount);
    }
    if new.batch_id != old.batch_id {
        return Err(AuctionTypeError::BatchIdChanged);
    }
    if new.commit_count != old.commit_count {
        return Err(AuctionTypeError::CommitCountChanged);
    }
    Ok(())
}

fn validate_reveal_to_settling(
    old: &AuctionCellData,
    new: &AuctionCellData,
    config: &ConfigCellData,
    block_number: u64,
    block_entropy: Option<&[u8; 32]>,
) -> (r: AuctionResult)
    ensures
        r == reveal_to_settling_rule(*old, *new, *config, block_number, entropy_view(block_entropy)),
{
    if (block_number as u128) < old.phase_start_block as u128 + config.reveal_window_blocks as u128 {
        return Err(AuctionTypeError::RevealWindowNotElapsed);
    }
    if old.reveal_count == 0 {
        return Err(AuctionTypeError::NoReveals);
    }
    if new.commit_count != old.commit_count {
        return Err(AuctionTypeError::CommitCountChanged);
    }
    if new.reveal_count != old.reveal_count {
        return Err(AuctionTypeError::RevealCountChanged);
    }
    if new.batch_id != old.batch_id {
        return Err(AuctionTypeError::BatchIdChanged);
    }
    if !eq32(&new.commit_mmr_root, &old.commit_mmr_root) {
        return Err(AuctionTypeError::MMRRootChanged);
    }
    let entropy = match block_entropy {
        Some(e) => e,
        None => {
            return Err(AuctionTypeError::InvalidFinalSeed);
        },
    };
    let seeds: [[u8; 32]; 1] = [old.xor_seed];
    let expected_seed = generate_seed_secure(seeds.as_slice(), entropy, old.batch_id);
    proof {
        assert(seeds@ =~= seq![old.xor_seed]);
    }
    if !eq32(&new.xor_seed, &expected_seed) {
        return Err(AuctionTypeError::InvalidFinalSeed);
    }
    if new.phase_start_block != block_number {
        return Err(AuctionTypeError::InvalidPhaseStartBlock);
    }
    Ok(())
}

fn validate_settlement(old: &AuctionCellData, new: &AuctionCellData) -> (r: AuctionResult)
    ensures
        r == settlement_rule(*old, *new),
{
    if new.clearing_price == 0 {
        return Err(AuctionTypeError::ZeroClearingPrice);
    }
    if new.batch_id != old.batch_id {
        return Err(AuctionTypeError::BatchIdChanged);
    }
    if new.commit_count != old.commit_count {
        return Err(AuctionTypeError::CommitCountChanged);
    }
    if new.reveal_count != old.reveal_count {
        return Err(AuctionTypeError::RevealCountChanged);
    }
    Ok(())
}

fn validate_new_batch(old: &AuctionCellData, new: &AuctionCellData, block_number: u64) -> (r:
    AuctionResult)
    ensures
        r == new_batch_rule(*old, *new, block_number),
{
    if new.batch_id as u128 != old.batch_id as u128 + 1 {
        return Err(AuctionTypeError::InvalidBatchIncrement);
    }
    if new.phase != PHASE_COMMIT {
        return Err(AuctionTypeError::InvalidInitialPhase);
    }
    if new.commit_count != 0 || new.reveal_count != 0 {
        return Err(AuctionTypeError::InvalidInitialCounts);
    }
    if new.clearing_price != 0 || new.fillable_volume != 0 {
        return Err(AuctionTypeError::InvalidInitialState);
    }
    if !is_zero32(&new.xor_seed) {
        return Err(AuctionTypeError::SeedNotReset);
    }
    if !is_zero32(&new.commit_mmr_root) {
        return Err(AuctionTypeError::MMRNotReset);
    }
    if new.phase_start_block != block_number {
        return Err(AuctionTypeError::InvalidPhaseStartBlock);
    }
    Ok(())
}

/// Whether the compliance registry marks `lock_hash` as blocked. The
/// non-inclusion proof protocol is not fixed yet, so no address is marked.
fn is_address_blocked(_lock_hash: &[u8; 32], _compliance: &ComplianceCellData) -> (r: bool)
    ensures
        !r,
{
    false
}

/// SHA-256 of the serialized auction state.
pub fn compute_state_hash(state: &AuctionCellData) -> (r: [u8; 32])
    ensures
        r@ == state_hash_of(*state),
{
    let serialized = state.serialize();
    sha256(serialized.as_slice())
}

/// Every accepted transition keeps the reveal count at or below the commit
/// count, and a created cell starts with both at zero.
pub proof fn lemma_reveals_never_exceed_commits(
    old: AuctionCellData,
    new: AuctionCellData,
    commits: Seq<CommitCellData>,
    reveals: Seq<RevealWitness>,
    config: ConfigCellData,
    block_number: u64,
    block_entropy: Option<Seq<u8>>,
    pending_commit_count: u32,
)
    ensures
        creation_rule(new) is Ok ==> new.reveal_count <= new.commit_count,
        old.reveal_count <= old.commit_count && transition_rule(
            old,
            new,
            commits,
            reveals,
            config,
            block_number,
            block_entropy,
            pending_commit_count,
        ) is Ok ==> new.reveal_count <= new.commit_count,
{
}

} // verus!
