//! Validators of LP position cells and oracle price cells.
use crate::arith::{mul_div, mul_div_spec};
use crate::cells::{
    lemma_lp_position_cell_decodes_unique, lemma_oracle_cell_decodes_unique, LPPositionCellData,
    OracleCellData, PoolCellData, PRECISION,
};
use crate::codec::{eq32, is_zero32};
use crate::mmr::zero_hash;
use crate::batch_math::abs_diff;
use vstd::prelude::*;

verus! {

/// Reasons an LP position cell is rejected.
#[derive(Debug, Clone, Copy, PartialEq, Eq)]
pub enum LPPositionError {
    InvalidCellData,
    ZeroLPAmount,
    InvalidPoolId,
    Overflow,
    EntryPriceDeviation,
}

/// Reasons an oracle update is rejected.
#[derive(Debug, Clone, Copy, PartialEq, Eq)]
pub enum OracleTypeError {
    InvalidCellData,
    Unauthorized,
    ZeroPrice,
    InvalidConfidence,
    FutureBlock,
    StaleData,
    InvalidPairId,
    NotNewer,
    PairIdChanged,
    ExcessivePriceChange,
}

/// Rules for creating an LP position: a positive amount, a pool id, and an
/// entry price within 1% of the pool's spot price when the pool is known.
pub open spec fn lp_creation_rule(position: LPPositionCellData, pool: Option<PoolCellData>) -> Result<(), LPPositionError> {
    if position.lp_amount == 0 {
        Err(LPPositionError::ZeroLPAmount)
    } else if position.pool_id@ == zero_hash() {
        Err(LPPositionError::InvalidPoolId)
    } else if pool is None {
        Ok(())
    } else if pool->Some_0.reserve1 * PRECISION > u128::MAX || pool->Some_0.reserve0 == 0 {
        Err(LPPositionError::Overflow)
    } else {
        let current = (pool->Some_0.reserve1 * PRECISION) / (pool->Some_0.reserve0 as int);
        if current == 0 || mul_div_spec(abs_diff(position.entry_price as int, current), 10_000, current)
            > 100 {
            Err(LPPositionError::EntryPriceDeviation)
        } else {
            Ok(())
        }
    }
}

pub open spec fn pool_view(p: Option<&PoolCellData>) -> Option<PoolCellData> {
    match p {
        Some(x) => Some(*x),
        None => None,
    }
}

/// Validates the creation or consumption of an LP position cell.
pub fn verify_lp_position_type(is_creation: bool, cell_data: &[u8], pool_data: Option<&PoolCellData>) -> (r:
    Result<(), LPPositionError>)
    ensures
        cell_data@.len() < LPPositionCellData::SERIALIZED_SIZE ==> r == Err::<(), LPPositionError>(
            LPPositionError::InvalidCellData,
        ),
        forall|p: LPPositionCellData| #[trigger]
            p.decodes(cell_data@) && cell_data@.len() >= LPPositionCellData::SERIALIZED_SIZE ==> r
                == if is_creation {
                lp_creation_rule(p, pool_view(pool_data))
            } else {
                Ok::<(), LPPositionError>(())
            },
{
    let position = match LPPositionCellData::deserialize(cell_data) {
        Some(p) => p,
        None => {
            return Err(LPPositionError::InvalidCellData);
        },
    };
    proof {
        assert forall|p: LPPositionCellData| #[trigger] p.decodes(cell_data@) implies p
            == position by {
            lemma_lp_position_cell_decodes_unique(p, position, cell_data@);
        }
    }
    if !is_creation {
        return Ok(());
    }
    if position.lp_amount == 0 {
        return Err(LPPositionError::ZeroLPAmount);
    }
    if is_zero32(&position.pool_id) {
        return Err(LPPositionError::InvalidPoolId);
    }
    if let Some(pool) = pool_data {
        let scaled = match pool.reserve1.checked_mul(PRECISION) {
            Some(v) => v,
            None => {
                return Err(LPPositionError::Overflow);
            },
        };
        if pool.reserve0 == 0 {
            return Err(LPPositionError::Overflow);
        }
        let current_price = scaled / pool.reserve0;
        if current_price == 0 {
            return Err(LPPositionError::EntryPriceDeviation);
        }
        let diff = if position.entry_price > current_price {
            position.entry_price - current_price
        } else {
            current_price - position.entry_price
        };
        let deviation = mul_div(diff, 10_000, current_price);
        if deviation > 100 {
            return Err(LPPositionError::EntryPriceDeviation);
        }
    }
    Ok(())
}

/// Rules for an oracle report: an authorized relayer, a positive price, a
/// confidence of at most 100, a block at most 100 blocks old and not in the
/// future, a pair id; against the prior report a newer block, the same pair
/// and a price move of at most half the old price.
pub open spec fn oracle_rule(
    old: Option<OracleCellData>,
    new: OracleCellData,
    authorized: bool,
    current_block: u64,
) -> Result<(), OracleTypeError> {
    if !authorized {
        Err(OracleTypeError::Unauthorized)
    } else if new.price == 0 {
        Err(OracleTypeError::ZeroPrice)
    } else if new.confidence > 100 {
        Err(OracleTypeError::InvalidConfidence)
    } else if new.block_number > current_block {
        Err(OracleTypeError::FutureBlock)
    } else if current_block - new.block_number > 100 {
        Err(OracleTypeError::StaleData)
    } else if new.pair_id@ == zero_hash() {
        Err(OracleTypeError::InvalidPairId)
    } else if old is None {
        Ok(())
    } else if new.block_number <= old->Some_0.block_number {
        Err(OracleTypeError::NotNewer)
    } else if new.pair_id@ != old->Some_0.pair_id@ {
        Err(OracleTypeError::PairIdChanged)
    } else if abs_diff(new.price as int, old->Some_0.price as int) > old->Some_0.price / 2 {
        Err(OracleTypeError::ExcessivePriceChange)
    } else {
        Ok(())
    }
}

/// Validates a new oracle report, against the prior one when given.
pub fn verify_oracle_type(
    _is_creation: bool,
    old_data: Option<&[u8]>,
    new_data: &[u8],
    is_authorized_relayer: bool,
    current_block: u64,
) -> (r: Result<(), OracleTypeError>)
    ensures
        new_data@.len() < OracleCellData::SERIALIZED_SIZE ==> r == Err::<(), OracleTypeError>(
            OracleTypeError::InvalidCellData,
        ),
        forall|new: OracleCellData| #[trigger]
            new.decodes(new_data@) && new_data@.len() >= OracleCellData::SERIALIZED_SIZE ==> {
                match old_data {
                    Some(od) if oracle_rule(None, new, is_authorized_relayer, current_block) is Ok => {
                        &&& od@.len() < OracleCellData::SERIALIZED_SIZE ==> r == Err::<
                            (),
                            OracleTypeError,
                        >(OracleTypeError::InvalidCellData)
                        &&& forall|old: OracleCellData| #[trigger]
                            old.decodes(od@) && od@.len() >= OracleCellData::SERIALIZED_SIZE ==> r
                                == oracle_rule(Some(old), new, is_authorized_relayer, current_block)
                    },
                    _ => r == oracle_rule(None, new, is_authorized_relayer, current_block),
                }
            },
{
    let new_oracle = match OracleCellData::deserialize(new_data) {
        Some(o) => o,
        None => {
            return Err(OracleTypeError::InvalidCellData);
        },
    };
    proof {
        assert forall|n: OracleCellData| #[trigger] n.decodes(new_data@) implies n == new_oracle by {
            lemma_oracle_cell_decodes_unique(n, new_oracle, new_data@);
        }
    }
    if !is_authorized_relayer {
        return Err(OracleTypeError::Unauthorized);
    }
    if new_oracle.price == 0 {
        return Err(OracleTypeError::ZeroPrice);
    }
    if new_oracle.confidence > 100 {
        return Err(OracleTypeError::InvalidConfidence);
    }
    if new_oracle.block_number > current_block {
        return Err(OracleTypeError::FutureBlock);
    }
    if current_block - new_oracle.block_number > 100 {
        return Err(OracleTypeError::StaleData);
    }
    if is_zero32(&new_oracle.pair_id) {
        return Err(OracleTypeError::InvalidPairId);
    }
    if let Some(old) = old_data {
        let old_oracle = match OracleCellData::deserialize(old) {
            Some(o) => o,
            None => {
                return Err(OracleTypeError::InvalidCellData);
            },
        };
        proof {
            assert forall|o: OracleCellData| #[trigger] o.decodes(old@) implies o == old_oracle by {
                lemma_oracle_cell_decodes_unique(o, old_oracle, old@);
            }
        }
        if new_oracle.block_number <= old_oracle.block_number {
            return Err(OracleTypeError::NotNewer);
        }
        if !eq32(&new_oracle.pair_id, &old_oracle.pair_id) {
            return Err(OracleTypeError::PairIdChanged);
        }
        let max_change = old_oracle.price / 2;
        let diff = if new_oracle.price > old_oracle.price {
            new_oracle.price - old_oracle.price
        } else {
            old_oracle.price - new_oracle.price
        };
        if diff > max_change {
            return Err(OracleTypeError::ExcessivePriceChange);
        }
    }
    Ok(())
}

} // verus!
