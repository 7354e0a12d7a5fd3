//! The AMM pool validator: creation, add/remove liquidity and swaps.
use crate::arith::{mul_cmp, mul_div, mul_div_spec, sqrt_product, sqrt_product_spec};
use crate::batch_math::{abs_diff, amount_out_spec, calculate_liquidity, get_amount_out, liquidity_spec};
use crate::cells::{
    lemma_pool_cell_decodes_unique, ConfigCellData, PoolCellData, BPS_DENOMINATOR,
    MINIMUM_LIQUIDITY, PRECISION,
};
use crate::codec::{eq32, is_zero32};
use crate::mmr::zero_hash;
use crate::twap::wrap_add;
use vstd::prelude::*;

verus! {

/// Reasons a pool transition is rejected.
#[derive(Debug, Clone, Copy, PartialEq, Eq)]
pub enum PoolTypeError {
    InvalidCellData,
    ZeroReserves,
    InsufficientInitialLiquidity,
    InvalidLPSupply,
    InvalidMinimumLiquidity,
    InvalidFeeRate,
    InvalidPairId,
    InvalidTokenTypes,
    DuplicateTokenTypes,
    PairIdChanged,
    TokenTypesChanged,
    MinimumLiquidityChanged,
    NoStateChange,
    Overflow,
    ReserveUnderflow,
    ZeroLiquidityDeposit,
    DisproportionateDeposit,
    LPCalculationFailed,
    InvalidLPMinted,
    ExcessiveWithdrawal,
    BelowMinimumLiquidity,
    LPChangedDuringSwap,
    SwapCalculationFailed,
    ExcessiveOutput,
    InsufficientFee,
    TradeTooLarge,
    ExcessivePriceDeviation,
    KInvariantViolation,
    InvalidTWAPUpdate,
    InvalidTWAPBlock,
    VolumeCircuitBreaker,
    PriceCircuitBreaker,
}

pub type PoolResult = Result<(), PoolTypeError>;

/// Rules for a newly created pool.
pub open spec fn pool_creation_rule(pool: PoolCellData) -> PoolResult {
    let lp = sqrt_product_spec(pool.reserve0 as int, pool.reserve1 as int);
    if pool.reserve0 == 0 || pool.reserve1 == 0 {
        Err(PoolTypeError::ZeroReserves)
    } else if lp <= MINIMUM_LIQUIDITY {
        Err(PoolTypeError::InsufficientInitialLiquidity)
    } else if pool.total_lp_supply != lp - MINIMUM_LIQUIDITY {
        Err(PoolTypeError::InvalidLPSupply)
    } else if pool.minimum_liquidity != MINIMUM_LIQUIDITY {
        Err(PoolTypeError::InvalidMinimumLiquidity)
    } else if pool.fee_rate_bps == 0 || pool.fee_rate_bps > 1000 {
        Err(PoolTypeError::InvalidFeeRate)
    } else if pool.pair_id@ == zero_hash() {
        Err(PoolTypeError::InvalidPairId)
    } else if pool.token0_type_hash@ == zero_hash() || pool.token1_type_hash@ == zero_hash() {
        Err(PoolTypeError::InvalidTokenTypes)
    } else if pool.token0_type_hash@ == pool.token1_type_hash@ {
        Err(PoolTypeError::DuplicateTokenTypes)
    } else {
        Ok(())
    }
}

/// `new.r0 · new.r1 >= old.r0 · old.r1`, compared exactly.
pub open spec fn k_rule(old: PoolCellData, new: PoolCellData) -> PoolResult {
    if (new.reserve0 as int) * (new.reserve1 as int) < (old.reserve0 as int) * (old.reserve1 as int) {
        Err(PoolTypeError::KInvariantViolation)
    } else {
        Ok(())
    }
}

/// Rules for adding liquidity.
pub open spec fn add_liquidity_rule(old: PoolCellData, new: PoolCellData) -> PoolResult {
    let a0 = new.reserve0 - old.reserve0;
    let a1 = new.reserve1 - old.reserve1;
    if a0 < 0 || a1 < 0 {
        Err(PoolTypeError::ReserveUnderflow)
    } else if a0 == 0 || a1 == 0 {
        Err(PoolTypeError::ZeroLiquidityDeposit)
    } else if old.reserve0 == 0 || old.reserve1 == 0 {
        Err(PoolTypeError::ZeroReserves)
    } else if abs_diff(
        mul_div_spec(a0, PRECISION as int, old.reserve0 as int),
        mul_div_spec(a1, PRECISION as int, old.reserve1 as int),
    ) > PRECISION / 1000 {
        Err(PoolTypeError::DisproportionateDeposit)
    } else if liquidity_spec(a0, a1, old.reserve0 as int, old.reserve1 as int, old.total_lp_supply as int) is Err {
        Err(PoolTypeError::LPCalculationFailed)
    } else if liquidity_spec(a0, a1, old.reserve0 as int, old.reserve1 as int, old.total_lp_supply as int)
        != Ok::<u128, crate::batch_math::MathError>((new.total_lp_supply - old.total_lp_supply) as u128) {
        Err(PoolTypeError::InvalidLPMinted)
    } else {
        k_rule(old, new)
    }
}

/// Rules for removing liquidity: each reserve may drop by at most its share of
/// the burned LP tokens plus one unit.
pub open spec fn remove_liquidity_rule(old: PoolCellData, new: PoolCellData) -> PoolResult {
    let burned = old.total_lp_supply - new.total_lp_supply;
    if new.reserve0 > old.reserve0 || new.reserve1 > old.reserve1 {
        Err(PoolTypeError::ReserveUnderflow)
    } else if old.reserve0 - new.reserve0 > mul_div_spec(
        burned,
        old.reserve0 as int,
        old.total_lp_supply as int,
    ) + 1 || old.reserve1 - new.reserve1 > mul_div_spec(
        burned,
        old.reserve1 as int,
        old.total_lp_supply as int,
    ) + 1 {
        Err(PoolTypeError::ExcessiveWithdrawal)
    } else if new.total_lp_supply < old.minimum_liquidity {
        Err(PoolTypeError::BelowMinimumLiquidity)
    } else {
        Ok(())
    }
}

/// Rules for a swap: exactly one reserve grows and the other shrinks; the output stays within the
/// fee-free bound and the fee-inclusive output plus 0.01%; `k` does not drop;
/// the trade size and the oracle deviation stay within the configured limits.
pub open spec fn swap_rule(
    old: PoolCellData,
    new: PoolCellData,
    config: ConfigCellData,
    oracle_price: Option<u128>,
) -> PoolResult {
    let r0_up = new.reserve0 > old.reserve0;
    let r1_up = new.reserve1 > old.reserve1;
    let amount_in = if r0_up {
        new.reserve0 - old.reserve0
    } else {
        new.reserve1 - old.reserve1
    };
    let reserve_in = if r0_up {
        old.reserve0
    } else {
        old.reserve1
    };
    let reserve_out = if r0_up {
        old.reserve1
    } else {
        old.reserve0
    };
    let amount_out = if r0_up {
        old.reserve1 - new.reserve1
    } else {
        old.reserve0 - new.reserve0
    };
    let max_out = amount_out_spec(amount_in, reserve_in as int, reserve_out as int, 0);
    let expected = amount_out_spec(
        amount_in,
        reserve_in as int,
        reserve_out as int,
        old.fee_rate_bps as int,
    );
    if old.total_lp_supply != new.total_lp_supply {
        Err(PoolTypeError::LPChangedDuringSwap)
    } else if r0_up == r1_up || (r0_up && new.reserve1 == old.reserve1) || (r1_up
        && new.reserve0 == old.reserve0) {
        Err(PoolTypeError::KInvariantViolation)
    } else if max_out is Err {
        Err(PoolTypeError::SwapCalculationFailed)
    } else if amount_out > max_out->Ok_0 {
        Err(PoolTypeError::ExcessiveOutput)
    } else if expected is Err {
        Err(PoolTypeError::SwapCalculationFailed)
    } else if amount_out > expected->Ok_0 + expected->Ok_0 / 10_000 {
        Err(PoolTypeError::InsufficientFee)
    } else if k_rule(old, new) is Err {
        k_rule(old, new)
    } else if mul_div_spec(amount_in, BPS_DENOMINATOR as int, reserve_in as int)
        > config.max_trade_size_bps {
        Err(PoolTypeError::TradeTooLarge)
    } else if oracle_price is Some && (new.reserve0 == 0 || oracle_price->Some_0 == 0
        || mul_div_spec(
        abs_diff(
            mul_div_spec(new.reserve1 as int, PRECISION as int, new.reserve0 as int),
            oracle_price->Some_0 as int,
        ),
        BPS_DENOMINATOR as int,
        oracle_price->Some_0 as int,
    ) > config.max_price_deviation) {
        Err(PoolTypeError::ExcessivePriceDeviation)
    } else {
        Ok(())
    }
}

/// TWAP accumulation: unchanged when no block has passed since the last
/// update, else the old spot price times the elapsed blocks is added, wrapping.
pub open spec fn twap_rule(old: PoolCellData, new: PoolCellData, block_number: u64) -> PoolResult {
    if block_number <= old.twap_last_block && new.twap_price_cum != old.twap_price_cum {
        Err(PoolTypeError::InvalidTWAPUpdate)
    } else if block_number > old.twap_last_block && old.reserve0 == 0 {
        Err(PoolTypeError::ZeroReserves)
    } else if block_number > old.twap_last_block && new.twap_price_cum != wrap_add(
        old.twap_price_cum,
        (mul_div_spec(old.reserve1 as int, PRECISION as int, old.reserve0 as int) * (block_number
            - old.twap_last_block)) % (u128::MAX + 1),
    ) {
        Err(PoolTypeError::InvalidTWAPUpdate)
    } else if new.twap_last_block != block_number {
        Err(PoolTypeError::InvalidTWAPBlock)
    } else {
        Ok(())
    }
}

/// Circuit breakers: the change of reserve0 and the change of the spot price
/// (in basis points) stay within the configured limits.
pub open spec fn breaker_rule(old: PoolCellData, new: PoolCellData, config: ConfigCellData) -> PoolResult {
    let old_price = mul_div_spec(old.reserve1 as int, BPS_DENOMINATOR as int, old.reserve0 as int);
    let new_price = mul_div_spec(new.reserve1 as int, BPS_DENOMINATOR as int, new.reserve0 as int);
    if abs_diff(new.reserve0 as int, old.reserve0 as int) > config.volume_breaker_limit {
        Err(PoolTypeError::VolumeCircuitBreaker)
    } else if old.reserve0 == 0 || new.reserve0 == 0 {
        Err(PoolTypeError::ZeroReserves)
    } else if old_price == 0 || mul_div_spec(
        abs_diff(new_price, old_price),
        BPS_DENOMINATOR as int,
        old_price,
    ) > config.price_breaker_bps {
        Err(PoolTypeError::PriceCircuitBreaker)
    } else {
        Ok(())
    }
}

/// Rules for a transition of an existing pool.
pub open spec fn pool_transition_rule(
    old: PoolCellData,
    new: PoolCellData,
    config: ConfigCellData,
    oracle_price: Option<u128>,
    block_number: u64,
) -> PoolResult {
    let reserves_changed = old.reserve0 != new.reserve0 || old.reserve1 != new.reserve1;
    let lp_changed = old.total_lp_supply != new.total_lp_supply;
    let op = if reserves_changed && lp_changed {
        if new.total_lp_supply > old.total_lp_supply {
            add_liquidity_rule(old, new)
        } else {
            remove_liquidity_rule(old, new)
        }
    } else if reserves_changed {
        swap_rule(old, new, config, oracle_price)
    } else {
        Err(PoolTypeError::NoStateChange)
    };
    if old.pair_id@ != new.pair_id@ {
        Err(PoolTypeError::PairIdChanged)
    } else if old.token0_type_hash@ != new.token0_type_hash@ || old.token1_type_hash@
        != new.token1_type_hash@ {
        Err(PoolTypeError::TokenTypesChanged)
    } else if old.minimum_liquidity != new.minimum_liquidity {
        Err(PoolTypeError::MinimumLiquidityChanged)
    } else if op is Err {
        op
    } else if twap_rule(old, new, block_number) is Err {
        twap_rule(old, new, block_number)
    } else if reserves_changed {
        breaker_rule(old, new, config)
    } else {
        Ok(())
    }
}

/// Validates a pool transition given as bytes: creation when there is no
/// prior cell, else the transition rules.
pub fn verify_amm_pool_type(
    old_data: Option<&[u8]>,
    new_data: &[u8],
    config: &ConfigCellData,
    oracle_price: Option<u128>,
    block_number: u64,
) -> (r: PoolResult)
    ensures
        new_data@.len() < PoolCellData::SERIALIZED_SIZE ==> r == Err::<(), PoolTypeError>(
            PoolTypeError::InvalidCellData,
        ),
        forall|new: PoolCellData| #[trigger]
            new.decodes(new_data@) && new_data@.len() >= PoolCellData::SERIALIZED_SIZE ==> {
                match old_data {
                    None => r == pool_creation_rule(new),
                    Some(od) => {
                        &&& od@.len() < PoolCellData::SERIALIZED_SIZE ==> r == Err::<
                            (),
                            PoolTypeError,
                        >(PoolTypeError::InvalidCellData)
                        &&& forall|old: PoolCellData| #[trigger]
                            old.decodes(od@) && od@.len() >= PoolCellData::SERIALIZED_SIZE ==> r
                                == pool_transition_rule(
                                old,
                                new,
                                *config,
                                oracle_price,
                                block_number,
                            )
                    },
                }
            },
{
    let new_pool = match PoolCellData::deserialize(new_data) {
        Some(p) => p,
        None => {
            return Err(PoolTypeError::InvalidCellData);
        },
    };
    proof {
        assert forall|n: PoolCellData| #[trigger] n.decodes(new_data@) implies n == new_pool by {
            lemma_pool_cell_decodes_unique(n, new_pool, new_data@);
        }
    }
    match old_data {
        None => validate_pool_creation(&new_pool),
        Some(old) => {
            let old_pool = match PoolCellData::deserialize(old) {
                Some(p) => p,
                None => {
                    return Err(PoolTypeError::InvalidCellData);
                },
            };
            proof {
                assert forall|o: PoolCellData| #[trigger] o.decodes(old@) implies o == old_pool by {
                    lemma_pool_cell_decodes_unique(o, old_pool, old@);
                }
            }
            validate_pool_transition(&old_pool, &new_pool, config, oracle_price, block_number)
        },
    }
}

fn validate_pool_creation(pool: &PoolCellData) -> (r: PoolResult)
    ensures
        r == pool_creation_rule(*pool),
{
    if pool.reserve0 == 0 || pool.reserve1 == 0 {
        return Err(PoolTypeError::ZeroReserves);
    }
    let expected_lp = sqrt_product(pool.reserve0, pool.reserve1);
    if expected_lp <= MINIMUM_LIQUIDITY {
        return Err(PoolTypeError::InsufficientInitialLiquidity);
    }
    let expected_supply = expected_lp - MINIMUM_LIQUIDITY;
    if pool.total_lp_supply != expected_supply {
        return Err(PoolTypeError::InvalidLPSupply);
    }
    if pool.minimum_liquidity != MINIMUM_LIQUIDITY {
        return Err(PoolTypeError::InvalidMinimumLiquidity);
    }
    if pool.fee_rate_bps == 0 || pool.fee_rate_bps > 1000 {
        return Err(PoolTypeError::InvalidFeeRate);
    }
    if is_zero32(&pool.pair_id) {
        return Err(PoolTypeError::InvalidPairId);
    }
    if is_zero32(&pool.token0_type_hash) || is_zero32(&pool.token1_type_hash) {
        return Err(PoolTypeError::InvalidTokenTypes);
    }
    if eq32(&pool.token0_type_hash, &pool.token1_type_hash) {
        return Err(PoolTypeError::DuplicateTokenTypes);
    }
    Ok(())
}

/// Validates a transition between two decoded pool states.
pub fn validate_pool_transition(
    old: &PoolCellData,
    new: &PoolCellData,
    config: &ConfigCellData,
    oracle_price: Option<u128>,
    block_number: u64,
) -> (r: PoolResult)
    ensures
        r == pool_transition_rule(*old, *new, *config, oracle_price, block_number),
{
    if !eq32(&old.pair_id, &new.pair_id) {
        return Err(PoolTypeError::PairIdChanged);
    }
    if !eq32(&old.token0_type_hash, &new.token0_type_hash) || !eq32(
        &old.token1_type_hash,
        &new.token1_type_hash,
    ) {
        return Err(PoolTypeError::TokenTypesChanged);
    }
    if old.minimum_liquidity != new.minimum_liquidity {
        return Err(PoolTypeError::MinimumLiquidityChanged);
    }
    let reserves_changed = old.reserve0 != new.reserve0 || old.reserve1 != new.reserve1;
    let lp_changed = old.total_lp_supply != new.total_lp_supply;
    let op = if reserves_changed && lp_changed {
        if new.total_lp_supply > old.total_lp_supply {
            validate_add_liquidity(old, new)
        } else {
            validate_remove_liquidity(old, new, config)
        }
    } else if reserves_changed {
        validate_swap(old, new, config, oracle_price)
    } else {
        Err(PoolTypeError::NoStateChange)
    };
    if op.is_err() {
        return op;
    }
    let twap = validate_twap_update(old, new, block_number);
    if twap.is_err() {
        return twap;
    }
    if reserves_changed {
        return check_circuit_breakers(old, new, config);
    }
    Ok(())
}

fn validate_add_liquidity(old: &PoolCellData, new: &PoolCellData) -> (r: PoolResult)
    requires
        new.total_lp_supply > old.total_lp_supply,
    ensures
        r == add_liquidity_rule(*old, *new),
{
    if new.reserve0 < old.reserve0 || new.reserve1 < old.reserve1 {
        return Err(PoolTypeError::ReserveUnderflow);
    }
    let amount0 = new.reserve0 - old.reserve0;
    let amount1 = new.reserve1 - old.reserve1;
    if amount0 == 0 || amount1 == 0 {
        return Err(PoolTypeError::ZeroLiquidityDeposit);
    }
    if old.reserve0 == 0 || old.reserve1 == 0 {
        return Err(PoolTypeError::ZeroReserves);
    }
    let ratio0 = mul_div(amount0, PRECISION, old.reserve0);
    let ratio1 = mul_div(amount1, PRECISION, old.reserve1);
    let (max_ratio, min_ratio) = if ratio0 > ratio1 {
        (ratio0, ratio1)
    } else {
        (ratio1, ratio0)
    };
    if max_ratio - min_ratio > PRECISION / 1000 {
        return Err(PoolTypeError::DisproportionateDeposit);
    }
    let expected_lp = match calculate_liquidity(
        amount0,
        amount1,
        old.reserve0,
        old.reserve1,
        old.total_lp_supply,
    ) {
        Ok(v) => v,
        Err(_) => {
            return Err(PoolTypeError::LPCalculationFailed);
        },
    };
    let lp_minted = new.total_lp_supply - old.total_lp_supply;
    if lp_minted != expected_lp {
        return Err(PoolTypeError::InvalidLPMinted);
    }
    validate_k_invariant(old, new)
}

fn validate_remove_liquidity(old: &PoolCellData, new: &PoolCellData, _config: &ConfigCellData) -> (r:
    PoolResult)
    requires
        new.total_lp_supply < old.total_lp_supply,
    ensures
        r == remove_liquidity_rule(*old, *new),
{
    if new.reserve0 > old.reserve0 || new.reserve1 > old.reserve1 {
        return Err(PoolTypeError::ReserveUnderflow);
    }
    let lp_burned = old.total_lp_supply - new.total_lp_supply;
    let amount0_out = old.reserve0 - new.reserve0;
    let amount1_out = old.reserve1 - new.reserve1;
    let expected_amount0 = mul_div(lp_burned, old.reserve0, old.total_lp_supply);
    let expected_amount1 = mul_div(lp_burned, old.reserve1, old.total_lp_supply);
    if (amount0_out > expected_amount0 && amount0_out - expected_amount0 > 1) || (amount1_out
        > expected_amount1 && amount1_out - expected_amount1 > 1) {
        return Err(PoolTypeError::ExcessiveWithdrawal);
    }
    if new.total_lp_supply < old.minimum_liquidity {
        return Err(PoolTypeError::BelowMinimumLiquidity);
    }
    Ok(())
}

fn validate_swap(
    old: &PoolCellData,
    new: &PoolCellData,
    config: &ConfigCellData,
    oracle_price: Option<u128>,
) -> (r: PoolResult)
    ensures
        r == swap_rule(*old, *new, *config, oracle_price),
{
    if old.total_lp_supply != new.total_lp_supply {
        return Err(PoolTypeError::LPChangedDuringSwap);
    }
    let r0_increased = new.reserve0 > old.reserve0;
    let r1_increased = new.reserve1 > old.reserve1;
    if r0_increased == r1_increased || (r0_increased && new.reserve1 == old.reserve1) || (
    r1_increased && new.reserve0 == old.reserve0) {
        return Err(PoolTypeError::KInvariantViolation);
    }
    let (amount_in, reserve_in_old, reserve_out_old, amount_out) = if r0_increased {
        (
            new.reserve0 - old.reserve0,
            old.reserve0,
            old.reserve1,
            old.reserve1 - new.reserve1,
        )
    } else {
        (
            new.reserve1 - old.reserve1,
            old.reserve1,
            old.reserve0,
            old.reserve0 - new.reserve0,
        )
    };
    let max_out = match get_amount_out(amount_in, reserve_in_old, reserve_out_old, 0) {
        Ok(v) => v,
        Err(_) => {
            return Err(PoolTypeError::SwapCalculationFailed);
        },
    };
    if amount_out > max_out {
        return Err(PoolTypeError::ExcessiveOutput);
    }
    let expected_out = match get_amount_out(
        amount_in,
        reserve_in_old,
        reserve_out_old,
        old.fee_rate_bps as u128,
    ) {
        Ok(v) => v,
        Err(_) => {
            return Err(PoolTypeError::SwapCalculationFailed);
        },
    };
    let tolerance = expected_out / 10_000;
    if amount_out > expected_out && amount_out - expected_out > tolerance {
        return Err(PoolTypeError::InsufficientFee);
    }
    let k = validate_k_invariant(old, new);
    if k.is_err() {
        return k;
    }
    let trade_bps = mul_div(amount_in, BPS_DENOMINATOR, reserve_in_old);
    if trade_bps > config.max_trade_size_bps as u128 {
        return Err(PoolTypeError::TradeTooLarge);
    }
    if let Some(oracle) = oracle_price {
        if new.reserve0 == 0 || oracle == 0 {
            return Err(PoolTypeError::ExcessivePriceDeviation);
        }
        let new_price = mul_div(new.reserve1, PRECISION, new.reserve0);
        let diff = if new_price > oracle {
            new_price - oracle
        } else {
            oracle - new_price
        };
        let deviation = mul_div(diff, BPS_DENOMINATOR, oracle);
        if deviation > config.max_price_deviation as u128 {
            return Err(PoolTypeError::ExcessivePriceDeviation);
        }
    }
    Ok(())
}

fn validate_k_invariant(old: &PoolCellData, new: &PoolCellData) -> (r: PoolResult)
    ensures
        r == k_rule(*old, *new),
{
    match mul_cmp(new.reserve0, new.reserve1, old.reserve0, old.reserve1) {
        core::cmp::Ordering::Less => Err(PoolTypeError::KInvariantViolation),
        _ => Ok(()),
    }
}

fn validate_twap_update(old: &PoolCellData, new: &PoolCellData, block_number: u64) -> (r: PoolResult)
    ensures
        r == twap_rule(*old, *new, block_number),
{
    if block_number <= old.twap_last_block {
        if new.twap_price_cum != old.twap_price_cum {
            return Err(PoolTypeError::InvalidTWAPUpdate);
        }
    } else {
        if old.reserve0 == 0 {
            return Err(PoolTypeError::ZeroReserves);
        }
        let price = mul_div(old.reserve1, PRECISION, old.reserve0);
        let delta_blocks = block_number - old.twap_last_block;
        let expected_cum = old.twap_price_cum.wrapping_add(price.wrapping_mul(delta_blocks as u128));
        proof {
            let p = price as int * delta_blocks as int;
            let m = u128::MAX + 1;
            assert(((old.twap_price_cum + p % m) % m) == ((old.twap_price_cum + (p % m) as u128) % m));
        }
        if new.twap_price_cum != expected_cum {
            return Err(PoolTypeError::InvalidTWAPUpdate);
        }
    }
    if new.twap_last_block != block_number {
        return Err(PoolTypeError::InvalidTWAPBlock);
    }
    Ok(())
}

fn check_circuit_breakers(old: &PoolCellData, new: &PoolCellData, config: &ConfigCellData) -> (r:
    PoolResult)
    ensures
        r == breaker_rule(*old, *new, *config),
{
    let volume = if new.reserve0 > old.reserve0 {
        new.reserve0 - old.reserve0
    } else {
        old.reserve0 - new.reserve0
    };
    if volume > config.volume_breaker_limit {
        return Err(PoolTypeError::VolumeCircuitBreaker);
    }
    if old.reserve0 == 0 || new.reserve0 == 0 {
        return Err(PoolTypeError::ZeroReserves);
    }
    let old_price = mul_div(old.reserve1, BPS_DENOMINATOR, old.reserve0);
    let new_price = mul_div(new.reserve1, BPS_DENOMINATOR, new.reserve0);
    if old_price == 0 {
        return Err(PoolTypeError::PriceCircuitBreaker);
    }
    let diff = if new_price > old_price {
        new_price - old_price
    } else {
        old_price - new_price
    };
    let price_change_bps = mul_div(diff, BPS_DENOMINATOR, old_price);
    if price_change_bps > config.price_breaker_bps as u128 {
        return Err(PoolTypeError::PriceCircuitBreaker);
    }
    Ok(())
}

/// Every accepted pool transition that does not burn LP tokens (creation aside:
/// adding liquidity or swapping) keeps `reserve0 · reserve1` from decreasing.
pub proof fn lemma_constant_product(
    old: PoolCellData,
    new: PoolCellData,
    config: ConfigCellData,
    oracle_price: Option<u128>,
    block_number: u64,
)
    requires
        pool_transition_rule(old, new, config, oracle_price, block_number) is Ok,
        new.total_lp_supply >= old.total_lp_supply,
    ensures
        (old.reserve0 as int) * (old.reserve1 as int) <= (new.reserve0 as int) * (new.reserve1 as int),
{
}

} // verus!
