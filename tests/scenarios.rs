use core::cmp::Ordering;
use sha2::{Digest, Sha256};
use vibeswap::arith::{mul_cmp, mul_div, sqrt, sqrt_product, wide_mul};
use vibeswap::auction::{compute_state_hash, verify_batch_auction_type, AuctionTypeError};
use vibeswap::batch_math::{self, MathError};
use vibeswap::cells::{
    AuctionCellData, CommitCellData, ConfigCellData, PoolCellData, RevealWitness, ORDER_BUY,
    ORDER_SELL, PHASE_COMMIT, PHASE_REVEAL, PHASE_SETTLED, PHASE_SETTLING, PRECISION,
};
use vibeswap::commit::{verify_commit_type, CommitTypeError};
use vibeswap::mmr::{hash_leaf, MMR};
use vibeswap::pool::{verify_amm_pool_type, PoolTypeError};
use vibeswap::cells::PoWLockArgs;
use vibeswap::pow::{difficulty_to_target, generate_challenge, meets_target, mine};
use vibeswap::pow_lock::{verify_pow_lock, LockError};
use vibeswap::shuffle::{self, generate_seed_secure};

fn commit_with(order_hash: [u8; 32]) -> CommitCellData {
    CommitCellData {
        order_hash,
        batch_id: 0,
        deposit_ckb: 100_000_000,
        token_type_hash: [0x33; 32],
        token_amount: PRECISION,
        block_number: 1,
        sender_lock_hash: [0x44; 32],
    }
}

/// States of the full lifecycle: genesis, two commits aggregated, reveal
/// phase, two reveals, settling, settled, next batch.
fn lifecycle() -> Vec<AuctionCellData> {
    let pair_id = [0x01; 32];
    let v0 = AuctionCellData { phase: PHASE_COMMIT, batch_id: 0, pair_id, ..Default::default() };
    let mut v1 = v0;
    v1.commit_count = 2;
    v1.prev_state_hash = compute_state_hash(&v0);
    let mut v2 = v1;
    v2.phase = PHASE_REVEAL;
    v2.reveal_count = 0;
    v2.phase_start_block = 40;
    v2.prev_state_hash = compute_state_hash(&v1);
    let mut v3 = v2;
    v3.reveal_count = 2;
    v3.xor_seed = [0x11 ^ 0x22; 32];
    v3.prev_state_hash = compute_state_hash(&v2);
    let mut v4 = v3;
    v4.phase = PHASE_SETTLING;
    v4.xor_seed = generate_seed_secure(&[v3.xor_seed], &[0xFF; 32], 0);
    v4.phase_start_block = 50;
    v4.prev_state_hash = compute_state_hash(&v3);
    let mut v5 = v4;
    v5.phase = PHASE_SETTLED;
    v5.clearing_price = 2000 * PRECISION;
    v5.fillable_volume = 800 * PRECISION;
    v5.prev_state_hash = compute_state_hash(&v4);
    let v6 = AuctionCellData {
        phase: PHASE_COMMIT,
        batch_id: 1,
        pair_id,
        phase_start_block: 60,
        prev_state_hash: compute_state_hash(&v5),
        ..Default::default()
    };
    vec![v0, v1, v2, v3, v4, v5, v6]
}

fn reveals() -> Vec<RevealWitness> {
    vec![
        RevealWitness {
            order_type: ORDER_BUY,
            amount_in: 1000 * PRECISION,
            limit_price: 2100 * PRECISION,
            secret: [0x11; 32],
            priority_bid: 0,
            commit_index: 0,
        },
        RevealWitness {
            order_type: ORDER_SELL,
            amount_in: 800 * PRECISION,
            limit_price: 1900 * PRECISION,
            secret: [0x22; 32],
            priority_bid: 0,
            commit_index: 1,
        },
    ]
}

#[test]
fn scenario_full_lifecycle_two_commits() {
    let config = ConfigCellData::default();
    let s = lifecycle();
    let commits = vec![commit_with([0xAA; 32]), commit_with([0xBB; 32])];
    let entropy = [0xFF; 32];
    let b: Vec<[u8; 217]> = s.iter().map(|x| x.serialize()).collect();

    assert_eq!(verify_batch_auction_type(None, &b[0], &[], &[], None, &config, 0, None, 0), Ok(()));
    assert_eq!(
        verify_batch_auction_type(Some(&b[0]), &b[1], &commits, &[], None, &config, 5, None, 2),
        Ok(())
    );
    assert_eq!(
        verify_batch_auction_type(Some(&b[1]), &b[2], &[], &[], None, &config, 40, None, 0),
        Ok(())
    );
    assert_eq!(
        verify_batch_auction_type(Some(&b[2]), &b[3], &[], &reveals(), None, &config, 45, None, 0),
        Ok(())
    );
    // The seed after the reveals is the bytewise XOR of the two secrets.
    assert_eq!(s[3].xor_seed, [0x33; 32]);
    assert_eq!(
        verify_batch_auction_type(
            Some(&b[3]),
            &b[4],
            &[],
            &[],
            None,
            &config,
            50,
            Some(&entropy),
            0
        ),
        Ok(())
    );
    // Final seed: SHA-256(xor_seed ‖ entropy ‖ 0u64 LE ‖ 1u64 LE).
    let mut h = Sha256::new();
    h.update([0x33; 32]);
    h.update(entropy);
    h.update(0u64.to_le_bytes());
    h.update(1u64.to_le_bytes());
    let expected: [u8; 32] = h.finalize().into();
    assert_eq!(s[4].xor_seed, expected);
    assert_eq!(
        verify_batch_auction_type(Some(&b[4]), &b[5], &[], &[], None, &config, 51, None, 0),
        Ok(())
    );
    assert_eq!(
        verify_batch_auction_type(Some(&b[5]), &b[6], &[], &[], None, &config, 60, None, 0),
        Ok(())
    );
    let v6 = s[6];
    assert_eq!(v6.batch_id, 1);
    assert_eq!(v6.commit_count, 0);
    assert_eq!(v6.reveal_count, 0);
    assert_eq!(v6.clearing_price, 0);
    assert_eq!(v6.fillable_volume, 0);
    assert_eq!(v6.xor_seed, [0u8; 32]);
    assert_eq!(v6.commit_mmr_root, [0u8; 32]);
}

#[test]
fn scenario_miner_drops_a_commit() {
    let config = ConfigCellData::default();
    let s = lifecycle();
    let mut v1 = s[1];
    v1.commit_count = 1;
    let commits = vec![commit_with([0xAA; 32])];
    let r = verify_batch_auction_type(
        Some(&s[0].serialize()),
        &v1.serialize(),
        &commits,
        &[],
        None,
        &config,
        5,
        None,
        3,
    );
    assert_eq!(r, Err(AuctionTypeError::ForcedInclusionViolation));
}

#[test]
fn scenario_settled_state_replay() {
    let config = ConfigCellData::default();
    let s = lifecycle();
    let r = verify_batch_auction_type(
        Some(&s[6].serialize()),
        &s[5].serialize(),
        &[],
        &[],
        None,
        &config,
        61,
        None,
        0,
    );
    assert_eq!(r, Err(AuctionTypeError::InvalidStateHash));
}

fn base_pool() -> PoolCellData {
    let r0 = 1_000_000 * PRECISION;
    let r1 = 2_000_000 * PRECISION;
    PoolCellData {
        reserve0: r0,
        reserve1: r1,
        total_lp_supply: sqrt_product(r0, r1) - 1000,
        fee_rate_bps: 5,
        twap_price_cum: 0,
        twap_last_block: 100,
        k_last: [0u8; 32],
        minimum_liquidity: 1000,
        pair_id: [0x01; 32],
        token0_type_hash: [0x02; 32],
        token1_type_hash: [0x03; 32],
    }
}

#[test]
fn scenario_constant_product_swap() {
    let config = ConfigCellData::default();
    let old = base_pool();
    let amount_in = 1000 * PRECISION;
    let out = batch_math::get_amount_out(amount_in, old.reserve0, old.reserve1, 5).unwrap();
    assert!(out >= 1996 * PRECISION && out <= 1999 * PRECISION);
    let mut new = old;
    new.reserve0 = old.reserve0 + amount_in;
    new.reserve1 = old.reserve1 - out;
    let price = mul_div(old.reserve1, PRECISION, old.reserve0);
    new.twap_price_cum = old.twap_price_cum.wrapping_add(price * 10);
    new.twap_last_block = 110;
    assert_eq!(
        verify_amm_pool_type(Some(&old.serialize()), &new.serialize(), &config, None, 110),
        Ok(())
    );
    // An accepted swap never lowers reserve0 · reserve1.
    assert_ne!(mul_cmp(new.reserve0, new.reserve1, old.reserve0, old.reserve1), Ordering::Less);
}

#[test]
fn scenario_k_invariant_manipulation() {
    let config = ConfigCellData::default();
    let old = base_pool();
    let mut new = old;
    new.reserve0 = old.reserve0 - 10_000 * PRECISION;
    new.reserve1 = old.reserve1 + 10_000 * PRECISION;
    new.twap_last_block = 110;
    assert_eq!(
        verify_amm_pool_type(Some(&old.serialize()), &new.serialize(), &config, None, 110),
        Err(PoolTypeError::ExcessiveOutput)
    );
}

#[test]
fn scenario_commit_replay_across_batches() {
    let mut commit = commit_with([0xAA; 32]);
    commit.batch_id = 5;
    let auction = AuctionCellData {
        phase: PHASE_COMMIT,
        batch_id: 6,
        pair_id: [0x01; 32],
        ..Default::default()
    };
    let r = verify_commit_type(
        true,
        &commit.serialize(),
        &[0x01; 32],
        None,
        Some(&auction.serialize()),
        1,
    );
    assert_eq!(r, Err(CommitTypeError::BatchIdMismatch));
}

#[test]
fn mul_div_round_trips_on_values() {
    let a: u128 = (1u128 << 126) + 12345;
    let c: u128 = u64::MAX as u128;
    assert_eq!(mul_div(a, c, c), a);
    assert_eq!(mul_div(a, 1, 1), a);
    assert_eq!(mul_div(0, 77, c), 0);
    // Quotients above 2^128 - 1 are capped.
    assert_eq!(mul_div(u128::MAX, u128::MAX, 1), u128::MAX);
    // Exact floor in the wide path.
    assert_eq!(mul_div(u128::MAX, 3, 6), u128::MAX / 2);
}

#[test]
fn wide_mul_commutes_and_is_exact() {
    assert_eq!(wide_mul(u128::MAX, 7), wide_mul(7, u128::MAX));
    assert_eq!(wide_mul(u128::MAX, u128::MAX), (u128::MAX - 1, 1));
    assert_eq!(wide_mul(1u128 << 64, 1u128 << 64), (1, 0));
}

#[test]
fn sqrt_is_floor_root() {
    assert_eq!(sqrt(u128::MAX), u64::MAX as u128);
    assert_eq!(sqrt(15), 3);
    assert_eq!(sqrt(16), 4);
    assert_eq!(sqrt_product(u128::MAX, u128::MAX), u128::MAX - (2 * u64::MAX as u128));
}

#[test]
fn shuffle_is_a_permutation_and_deterministic() {
    let seed = [0x5A; 32];
    let a = shuffle::shuffle_indices(50, &seed);
    let b = shuffle::shuffle_indices(50, &seed);
    assert_eq!(a, b);
    let mut sorted = a.clone();
    sorted.sort();
    assert_eq!(sorted, (0..50).collect::<Vec<usize>>());
    assert_eq!(shuffle::shuffle_indices(0, &seed), Vec::<usize>::new());
    assert_eq!(shuffle::shuffle_indices(1, &seed), vec![0]);
}

#[test]
fn mmr_peaks_follow_popcount_and_root_changes() {
    let mut mmr = MMR::new();
    let mut prev = mmr.root();
    for k in 1..=33u32 {
        mmr.append(&k.to_le_bytes());
        assert_eq!(mmr.peaks.len() as u32, k.count_ones());
        assert_eq!(mmr.peak_count(), k.count_ones());
        let root = mmr.root();
        assert_ne!(root, prev);
        prev = root;
    }
}

#[test]
fn target_shrinks_as_difficulty_grows() {
    for d in 0u8..255 {
        assert!(difficulty_to_target(d + 1) < difficulty_to_target(d));
    }
    assert_eq!(difficulty_to_target(255), [0u8; 32]);
    let mut hash = [0u8; 32];
    hash[1] = 0xFF;
    assert!(meets_target(&hash, &difficulty_to_target(8)));
    assert!(!meets_target(&hash, &difficulty_to_target(9)));
}

#[test]
fn amount_in_inverts_amount_out() {
    let rin = 1_000_000 * PRECISION;
    let rout = 2_000_000 * PRECISION;
    for amount_in in [PRECISION, 1000 * PRECISION, 12_345 * PRECISION] {
        let out = batch_math::get_amount_out(amount_in, rin, rout, 5).unwrap();
        let back = batch_math::get_amount_in(out, rin, rout, 5).unwrap();
        assert!(back <= amount_in + 1);
        assert!(back * 1000 >= amount_in * 999);
        assert!(batch_math::get_amount_out(back, rin, rout, 5).unwrap() >= out);
    }
}

#[test]
fn math_errors_have_inputs() {
    assert_eq!(batch_math::get_amount_out(0, 1, 1, 5), Err(MathError::InsufficientInput));
    assert_eq!(batch_math::get_amount_out(1, 0, 1, 5), Err(MathError::InsufficientLiquidity));
    assert_eq!(batch_math::get_amount_out(u128::MAX, 1, 1, 5), Err(MathError::Overflow));
    assert_eq!(batch_math::get_amount_in(5, 10, 5, 5), Err(MathError::InsufficientLiquidity));
    assert_eq!(batch_math::calculate_liquidity(10, 10, 0, 0, 0), Err(MathError::InsufficientInitialLiquidity));
    assert_eq!(batch_math::calculate_liquidity(10, 10, 0, 5, 7), Err(MathError::InvalidReserves));
    assert_eq!(shuffle::get_shuffled_index(3, 3, &[0u8; 32]), Err(MathError::PositionOutOfBounds));
    assert_eq!(
        batch_math::calculate_clearing_price(&[], &[], 0, 5),
        Err(MathError::InvalidReserves)
    );
    assert_eq!(
        batch_math::calculate_clearing_price(&[], &[], 4 * PRECISION, 8 * PRECISION),
        Ok((2 * PRECISION, 0))
    );
}

#[test]
fn leaf_hash_is_tagged_sha256() {
    let mut h = Sha256::new();
    h.update([0x00]);
    h.update(b"abc");
    let expected: [u8; 32] = h.finalize().into();
    assert_eq!(hash_leaf(b"abc"), expected);
}

#[test]
fn amount_in_can_fall_below_input_for_coarse_outputs() {
    // 200 in gives 1 out; the least input for 1 out is far below 200.
    let out = batch_math::get_amount_out(200, 1000, 10, 0).unwrap();
    assert_eq!(out, 1);
    assert_eq!(batch_math::get_amount_in(out, 1000, 10, 0), Ok(112));
}

#[test]
fn twap_stays_within_observed_prices() {
    let mut oracle = vibeswap::twap::OracleState::new(16);
    oracle.initialize(0, 100);
    oracle.write(1900, 110);
    oracle.write(2200, 120);
    oracle.write(2000, 130);
    let v = oracle.consult(30, 130).unwrap();
    assert!(v >= 1900 && v <= 2200);
    assert_eq!(v, (1900 * 10 + 2200 * 10 + 2000 * 10) / 30);
    assert_eq!(
        vibeswap::twap::OracleState::new(4).consult(1, 10),
        Err(MathError::InsufficientInput)
    );
}

#[test]
fn settling_without_entropy_is_rejected() {
    let config = ConfigCellData::default();
    let s = lifecycle();
    let r = verify_batch_auction_type(
        Some(&s[3].serialize()),
        &s[4].serialize(),
        &[],
        &[],
        None,
        &config,
        50,
        None,
        0,
    );
    assert_eq!(r, Err(AuctionTypeError::InvalidFinalSeed));
}

#[test]
fn reveals_beyond_commits_are_rejected() {
    let config = ConfigCellData::default();
    let s = lifecycle();
    let mut old = s[2];
    old.commit_count = 1;
    let mut new = s[3];
    new.commit_count = 1;
    new.prev_state_hash = compute_state_hash(&old);
    let r = verify_batch_auction_type(
        Some(&old.serialize()),
        &new.serialize(),
        &[],
        &reveals(),
        None,
        &config,
        45,
        None,
        0,
    );
    assert_eq!(r, Err(AuctionTypeError::InvalidRevealCount));
}

#[test]
fn swap_with_unchanged_other_reserve_is_rejected() {
    let config = ConfigCellData::default();
    let old = base_pool();
    let mut new = old;
    new.reserve0 = old.reserve0 + 1000 * PRECISION;
    let price = mul_div(old.reserve1, PRECISION, old.reserve0);
    new.twap_price_cum = price * 10;
    new.twap_last_block = 110;
    assert_eq!(
        verify_amm_pool_type(Some(&old.serialize()), &new.serialize(), &config, None, 110),
        Err(PoolTypeError::KInvariantViolation)
    );
}

#[test]
fn remove_below_stored_minimum_is_rejected() {
    let config = ConfigCellData::default();
    let mut old = base_pool();
    old.reserve0 = 3000;
    old.reserve1 = 3000;
    old.total_lp_supply = 3000;
    old.minimum_liquidity = 5000;
    old.twap_last_block = 110;
    let mut new = old;
    new.reserve0 = 2000;
    new.reserve1 = 2000;
    new.total_lp_supply = 2000;
    assert_eq!(
        verify_amm_pool_type(Some(&old.serialize()), &new.serialize(), &config, None, 110),
        Err(PoolTypeError::BelowMinimumLiquidity)
    );
}

#[test]
fn pow_lock_challenge_binds_prior_batch_id() {
    let pair_id = [0x01; 32];
    let prev = AuctionCellData { phase: PHASE_COMMIT, batch_id: 7, pair_id, ..Default::default() };
    let prev_bytes = prev.serialize();
    let prev_hash: [u8; 32] = Sha256::digest(prev_bytes).into();
    let args = PoWLockArgs { pair_id, min_difficulty: 4 }.serialize();
    for (batch, expected) in [(7u64, Ok(())), (0u64, Err(LockError::InvalidChallenge))] {
        let challenge = generate_challenge(&pair_id, batch, &prev_hash);
        let nonce = mine(&challenge, 4, 100_000).unwrap();
        let mut witness = challenge.to_vec();
        witness.extend_from_slice(&nonce);
        assert_eq!(verify_pow_lock(&args, &witness, &prev_bytes, Some(&prev_bytes), 50), expected);
    }
}

#[test]
fn counts_are_carried_where_the_phase_does_not_own_them() {
    let config = ConfigCellData::default();
    let s = lifecycle();
    let commits = vec![commit_with([0xAA; 32]), commit_with([0xBB; 32])];

    // COMMIT to COMMIT may not touch the reveal count.
    let mut v1 = s[1];
    v1.reveal_count = 5;
    assert_eq!(
        verify_batch_auction_type(
            Some(&s[0].serialize()),
            &v1.serialize(),
            &commits,
            &[],
            None,
            &config,
            5,
            None,
            2
        ),
        Err(AuctionTypeError::RevealCountChanged)
    );

    // SETTLING to SETTLED carries both counts.
    let mut v5 = s[5];
    v5.commit_count = 9;
    assert_eq!(
        verify_batch_auction_type(
            Some(&s[4].serialize()),
            &v5.serialize(),
            &[],
            &[],
            None,
            &config,
            51,
            None,
            0
        ),
        Err(AuctionTypeError::CommitCountChanged)
    );
    let mut v5 = s[5];
    v5.reveal_count = 1;
    assert_eq!(
        verify_batch_auction_type(
            Some(&s[4].serialize()),
            &v5.serialize(),
            &[],
            &[],
            None,
            &config,
            51,
            None,
            0
        ),
        Err(AuctionTypeError::RevealCountChanged)
    );

    // REVEAL to SETTLING carries the batch and the commit root.
    let entropy = [0xFF; 32];
    let mut v4 = s[4];
    v4.batch_id = 3;
    assert_eq!(
        verify_batch_auction_type(
            Some(&s[3].serialize()),
            &v4.serialize(),
            &[],
            &[],
            None,
            &config,
            50,
            Some(&entropy),
            0
        ),
        Err(AuctionTypeError::BatchIdChanged)
    );
    let mut v4 = s[4];
    v4.commit_mmr_root = [0x07; 32];
    assert_eq!(
        verify_batch_auction_type(
            Some(&s[3].serialize()),
            &v4.serialize(),
            &[],
            &[],
            None,
            &config,
            50,
            Some(&entropy),
            0
        ),
        Err(AuctionTypeError::MMRRootChanged)
    );
}
