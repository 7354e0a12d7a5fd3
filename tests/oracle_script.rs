use vibeswap::cells::{
    AuctionCellData, CommitCellData, ComplianceCellData, ConfigCellData, LPPositionCellData,
    OracleCellData, PoWLockArgs, PoolCellData, RevealWitness, BPS_DENOMINATOR,
    DEFAULT_COMMIT_WINDOW_BLOCKS, DEFAULT_FEE_RATE_BPS, DEFAULT_MAX_PRICE_DEVIATION,
    DEFAULT_MAX_TRADE_SIZE_BPS, DEFAULT_MIN_POW_DIFFICULTY, DEFAULT_REVEAL_WINDOW_BLOCKS,
    DEFAULT_SLASH_RATE_BPS, MINIMUM_LIQUIDITY, ORDER_BUY, ORDER_SELL, PHASE_COMMIT,
    PHASE_REVEAL, PHASE_SETTLED, PHASE_SETTLING, PRECISION,
};
use vibeswap::feeds::{verify_oracle_type, OracleTypeError};

#[test]
fn oracle_test_valid_creation() {
    let oracle = OracleCellData {
        price: 2_000 * PRECISION,
        block_number: 100,
        confidence: 95,
        source_hash: [0x01; 32],
        pair_id: [0x02; 32],
    };
    let data = oracle.serialize();
    assert!(verify_oracle_type(true, None, &data, true, 100).is_ok());
}

#[test]
fn test_unauthorized() {
    let oracle = OracleCellData {
        price: 2_000 * PRECISION,
        block_number: 100,
        confidence: 95,
        source_hash: [0x01; 32],
        pair_id: [0x02; 32],
    };
    let data = oracle.serialize();
    assert_eq!(
        verify_oracle_type(true, None, &data, false, 100),
        Err(OracleTypeError::Unauthorized)
    );
}

#[test]
fn test_stale_data_rejected() {
    let oracle = OracleCellData {
        price: 2_000 * PRECISION,
        block_number: 100,
        confidence: 95,
        source_hash: [0x01; 32],
        pair_id: [0x02; 32],
    };
    let data = oracle.serialize();
    assert_eq!(
        verify_oracle_type(true, None, &data, true, 300), // 200 blocks old
        Err(OracleTypeError::StaleData)
    );
}

#[test]
fn test_excessive_price_change() {
    let old = OracleCellData {
        price: 2_000 * PRECISION,
        block_number: 100,
        confidence: 95,
        source_hash: [0x01; 32],
        pair_id: [0x02; 32],
    };
    let old_data = old.serialize();

    let new_oracle = OracleCellData {
        price: 4_000 * PRECISION, // 100% increase
        block_number: 110,
        confidence: 90,
        source_hash: [0x01; 32],
        pair_id: [0x02; 32],
    };
    let new_data = new_oracle.serialize();

    assert_eq!(
        verify_oracle_type(false, Some(&old_data), &new_data, true, 110),
        Err(OracleTypeError::ExcessivePriceChange)
    );
}
