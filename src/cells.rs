//! Fixed-layout little-endian wire formats of every cell payload.
use crate::codec::{
    le_bytes, le_value, lemma_le_bytes_len, lemma_le_round_trip, lemma_pow256_values, push_bytes32,
    push_le, read_bytes32, read_le, to_array,
};
use vstd::prelude::*;

verus! {

pub const PHASE_COMMIT: u8 = 0;
pub const PHASE_REVEAL: u8 = 1;
pub const PHASE_SETTLING: u8 = 2;
pub const PHASE_SETTLED: u8 = 3;

pub const ORDER_BUY: u8 = 0;
pub const ORDER_SELL: u8 = 1;

/// Fixed-point scale of prices and ratios (10^18).
pub const PRECISION: u128 = 1_000_000_000_000_000_000;
pub const BPS_DENOMINATOR: u128 = 10_000;

pub const DEFAULT_COMMIT_WINDOW_BLOCKS: u64 = 40;
pub const DEFAULT_REVEAL_WINDOW_BLOCKS: u64 = 10;
pub const DEFAULT_SLASH_RATE_BPS: u16 = 5000;
pub const DEFAULT_MAX_PRICE_DEVIATION: u16 = 500;
pub const DEFAULT_MAX_TRADE_SIZE_BPS: u16 = 1000;
pub const DEFAULT_FEE_RATE_BPS: u16 = 5;
pub const DEFAULT_MIN_POW_DIFFICULTY: u8 = 16;
pub const MINIMUM_LIQUIDITY: u128 = 1000;

/// Auction cell: the shared per-pair state of the batch auction.
#[derive(Clone, Copy, Debug, Default, PartialEq, Eq)]
pub struct AuctionCellData {
    pub phase: u8,
    pub batch_id: u64,
    pub commit_mmr_root: [u8; 32],
    pub commit_count: u32,
    pub reveal_count: u32,
    pub xor_seed: [u8; 32],
    pub clearing_price: u128,
    pub fillable_volume: u128,
    pub difficulty_target: [u8; 32],
    pub prev_state_hash: [u8; 32],
    pub phase_start_block: u64,
    pub pair_id: [u8; 32],
}

impl AuctionCellData {
    pub const SERIALIZED_SIZE: usize = 217;

    /// The wire bytes of this value, fields in order, integers little-endian.
    pub open spec fn spec_bytes(self) -> Seq<u8> {
        le_bytes(self.phase as nat, 1)
            + le_bytes(self.batch_id as nat, 8)
            + self.commit_mmr_root@
            + le_bytes(self.commit_count as nat, 4)
            + le_bytes(self.reveal_count as nat, 4)
            + self.xor_seed@
            + le_bytes(self.clearing_price as nat, 16)
            + le_bytes(self.fillable_volume as nat, 16)
            + self.difficulty_target@
            + self.prev_state_hash@
            + le_bytes(self.phase_start_block as nat, 8)
            + self.pair_id@
    }

    /// `self` holds the fields that the wire bytes `s` encode.
    pub open spec fn decodes(self, s: Seq<u8>) -> bool {
        &&& self.phase as nat == le_value(s.subrange(0, 1))
        &&& self.batch_id as nat == le_value(s.subrange(1, 9))
        &&& self.commit_mmr_root@ == s.subrange(9, 41)
        &&& self.commit_count as nat == le_value(s.subrange(41, 45))
        &&& self.reveal_count as nat == le_value(s.subrange(45, 49))
        &&& self.xor_seed@ == s.subrange(49, 81)
        &&& self.clearing_price as nat == le_value(s.subrange(81, 97))
        &&& self.fillable_volume as nat == le_value(s.subrange(97, 113))
        &&& self.difficulty_target@ == s.subrange(113, 145)
        &&& self.prev_state_hash@ == s.subrange(145, 177)
        &&& self.phase_start_block as nat == le_value(s.subrange(177, 185))
        &&& self.pair_id@ == s.subrange(185, 217)
    }

    pub fn serialize(&self) -> (r: [u8; 217])
        ensures
            r@ == self.spec_bytes(),
    {
        let mut out: Vec<u8> = Vec::new();
        push_le(&mut out, self.phase as u128, 1);
        push_le(&mut out, self.batch_id as u128, 8);
        push_bytes32(&mut out, &self.commit_mmr_root);
        push_le(&mut out, self.commit_count as u128, 4);
        push_le(&mut out, self.reveal_count as u128, 4);
        push_bytes32(&mut out, &self.xor_seed);
        push_le(&mut out, self.clearing_price as u128, 16);
        push_le(&mut out, self.fillable_volume as u128, 16);
        push_bytes32(&mut out, &self.difficulty_target);
        push_bytes32(&mut out, &self.prev_state_hash);
        push_le(&mut out, self.phase_start_block as u128, 8);
        push_bytes32(&mut out, &self.pair_id);
        proof {
            lemma_le_bytes_len(self.phase as nat, 1);
            lemma_le_bytes_len(self.batch_id as nat, 8);
            lemma_le_bytes_len(self.commit_count as nat, 4);
            lemma_le_bytes_len(self.reveal_count as nat, 4);
            lemma_le_bytes_len(self.clearing_price as nat, 16);
            lemma_le_bytes_len(self.fillable_volume as nat, 16);
            lemma_le_bytes_len(self.phase_start_block as nat, 8);
        }
        to_array(&out)
    }

    pub fn deserialize(data: &[u8]) -> (r: Option<Self>)
        ensures
            data@.len() < 217 <==> r is None,
            r matches Some(x) ==> x.decodes(data@),
    {
        if data.len() < 217 {
            return None;
        }
        proof {
            lemma_pow256_values();
        }
        let phase = read_le(data, 0, 1) as u8;
        let batch_id = read_le(data, 1, 8) as u64;
        let commit_mmr_root = read_bytes32(data, 9);
        let commit_count = read_le(data, 41, 4) as u32;
        let reveal_count = read_le(data, 45, 4) as u32;
        let xor_seed = read_bytes32(data, 49);
        let clearing_price = read_le(data, 81, 16);
        let fillable_volume = read_le(data, 97, 16);
        let difficulty_target = read_bytes32(data, 113);
        let prev_state_hash = read_bytes32(data, 145);
        let phase_start_block = read_le(data, 177, 8) as u64;
        let pair_id = read_bytes32(data, 185);
        Some(Self { phase, batch_id, commit_mmr_root, commit_count, reveal_count, xor_seed, clearing_price, fillable_volume, difficulty_target, prev_state_hash, phase_start_block, pair_id })
    }
}

/// Decoding the wire bytes of a `AuctionCellData` gives back the same value.
pub proof fn lemma_auction_cell_round_trip(x: AuctionCellData, y: AuctionCellData)
    requires
        y.decodes(x.spec_bytes()),
    ensures
        y == x,
{
    let s = x.spec_bytes();
    lemma_pow256_values();
    lemma_le_round_trip(x.phase as nat, 1);
    lemma_le_round_trip(x.batch_id as nat, 8);
    lemma_le_round_trip(x.commit_count as nat, 4);
    lemma_le_round_trip(x.reveal_count as nat, 4);
    lemma_le_round_trip(x.clearing_price as nat, 16);
    lemma_le_round_trip(x.fillable_volume as nat, 16);
    lemma_le_round_trip(x.phase_start_block as nat, 8);
    assert(s.subrange(0, 1) =~= le_bytes(x.phase as nat, 1));
    assert(s.subrange(1, 9) =~= le_bytes(x.batch_id as nat, 8));
    assert(s.subrange(9, 41) =~= x.commit_mmr_root@);
    assert(y.commit_mmr_root =~= x.commit_mmr_root);
    assert(s.subrange(41, 45) =~= le_bytes(x.commit_count as nat, 4));
    assert(s.subrange(45, 49) =~= le_bytes(x.reveal_count as nat, 4));
    assert(s.subrange(49, 81) =~= x.xor_seed@);
    assert(y.xor_seed =~= x.xor_seed);
    assert(s.subrange(81, 97) =~= le_bytes(x.clearing_price as nat, 16));
    assert(s.subrange(97, 113) =~= le_bytes(x.fillable_volume as nat, 16));
    assert(s.subrange(113, 145) =~= x.difficulty_target@);
    assert(y.difficulty_target =~= x.difficulty_target);
    assert(s.subrange(145, 177) =~= x.prev_state_hash@);
    assert(y.prev_state_hash =~= x.prev_state_hash);
    assert(s.subrange(177, 185) =~= le_bytes(x.phase_start_block as nat, 8));
    assert(s.subrange(185, 217) =~= x.pair_id@);
    assert(y.pair_id =~= x.pair_id);
}

/// Commit cell: one user's sealed order and deposit.
#[derive(Clone, Copy, Debug, Default, PartialEq, Eq)]
pub struct CommitCellData {
    pub order_hash: [u8; 32],
    pub batch_id: u64,
    pub deposit_ckb: u64,
    pub token_type_hash: [u8; 32],
    pub token_amount: u128,
    pub block_number: u64,
    pub sender_lock_hash: [u8; 32],
}

impl CommitCellData {
    pub const SERIALIZED_SIZE: usize = 136;

    /// The wire bytes of this value, fields in order, integers little-endian.
    pub open spec fn spec_bytes(self) -> Seq<u8> {
        self.order_hash@
            + le_bytes(self.batch_id as nat, 8)
            + le_bytes(self.deposit_ckb as nat, 8)
            + self.token_type_hash@
            + le_bytes(self.token_amount as nat, 16)
            + le_bytes(self.block_number as nat, 8)
            + self.sender_lock_hash@
    }

    /// `self` holds the fields that the wire bytes `s` encode.
    pub open spec fn decodes(self, s: Seq<u8>) -> bool {
        &&& self.order_hash@ == s.subrange(0, 32)
        &&& self.batch_id as nat == le_value(s.subrange(32, 40))
        &&& self.deposit_ckb as nat == le_value(s.subrange(40, 48))
        &&& self.token_type_hash@ == s.subrange(48, 80)
        &&& self.token_amount as nat == le_value(s.subrange(80, 96))
        &&& self.block_number as nat == le_value(s.subrange(96, 104))
        &&& self.sender_lock_hash@ == s.subrange(104, 136)
    }

    pub fn serialize(&self) -> (r: [u8; 136])
        ensures
            r@ == self.spec_bytes(),
    {
        let mut out: Vec<u8> = Vec::new();
        push_bytes32(&mut out, &self.order_hash);
        push_le(&mut out, self.batch_id as u128, 8);
        push_le(&mut out, self.deposit_ckb as u128, 8);
        push_bytes32(&mut out, &self.token_type_hash);
        push_le(&mut out, self.token_amount as u128, 16);
        push_le(&mut out, self.block_number as u128, 8);
        push_bytes32(&mut out, &self.sender_lock_hash);
        proof {
            lemma_le_bytes_len(self.batch_id as nat, 8);
            lemma_le_bytes_len(self.deposit_ckb as nat, 8);
            lemma_le_bytes_len(self.token_amount as nat, 16);
            lemma_le_bytes_len(self.block_number as nat, 8);
        }
        to_array(&out)
    }

    pub fn deserialize(data: &[u8]) -> (r: Option<Self>)
        ensures
            data@.len() < 136 <==> r is None,
            r matches Some(x) ==> x.decodes(data@),
    {
        if data.len() < 136 {
            return None;
        }
        proof {
            lemma_pow256_values();
        }
        let order_hash = read_bytes32(data, 0);
        let batch_id = read_le(data, 32, 8) as u64;
        let deposit_ckb = read_le(data, 40, 8) as u64;
        let token_type_hash = read_bytes32(data, 48);
        let token_amount = read_le(data, 80, 16);
        let block_number = read_le(data, 96, 8) as u64;
        let sender_lock_hash = read_bytes32(data, 104);
        Some(Self { order_hash, batch_id, deposit_ckb, token_type_hash, token_amount, block_number, sender_lock_hash })
    }
}

/// Decoding the wire bytes of a `CommitCellData` gives back the same value.
pub proof fn lemma_commit_cell_round_trip(x: CommitCellData, y: CommitCellData)
    requires
        y.decodes(x.spec_bytes()),
    ensures
        y == x,
{
    let s = x.spec_bytes();
    lemma_pow256_values();
    lemma_le_round_trip(x.batch_id as nat, 8);
    lemma_le_round_trip(x.deposit_ckb as nat, 8);
    lemma_le_round_trip(x.token_amount as nat, 16);
    lemma_le_round_trip(x.block_number as nat, 8);
    assert(s.subrange(0, 32) =~= x.order_hash@);
    assert(y.order_hash =~= x.order_hash);
    assert(s.subrange(32, 40) =~= le_bytes(x.batch_id as nat, 8));
    assert(s.subrange(40, 48) =~= le_bytes(x.deposit_ckb as nat, 8));
    assert(s.subrange(48, 80) =~= x.token_type_hash@);
    assert(y.token_type_hash =~= x.token_type_hash);
    assert(s.subrange(80, 96) =~= le_bytes(x.token_amount as nat, 16));
    assert(s.subrange(96, 104) =~= le_bytes(x.block_number as nat, 8));
    assert(s.subrange(104, 136) =~= x.sender_lock_hash@);
    assert(y.sender_lock_hash =~= x.sender_lock_hash);
}

/// Reveal witness: the opened order, carried in a transaction witness.
#[derive(Clone, Copy, Debug, Default, PartialEq, Eq)]
pub struct RevealWitness {
    pub order_type: u8,
    pub amount_in: u128,
    pub limit_price: u128,
    pub secret: [u8; 32],
    pub priority_bid: u64,
    pub commit_index: u32,
}

impl RevealWitness {
    pub const SERIALIZED_SIZE: usize = 77;

    /// The wire bytes of this value, fields in order, integers little-endian.
    pub open spec fn spec_bytes(self) -> Seq<u8> {
        le_bytes(self.order_type as nat, 1)
            + le_bytes(self.amount_in as nat, 16)
            + le_bytes(self.limit_price as nat, 16)
            + self.secret@
            + le_bytes(self.priority_bid as nat, 8)
            + le_bytes(self.commit_index as nat, 4)
    }

    /// `self` holds the fields that the wire bytes `s` encode.
    pub open spec fn decodes(self, s: Seq<u8>) -> bool {
        &&& self.order_type as nat == le_value(s.subrange(0, 1))
        &&& self.amount_in as nat == le_value(s.subrange(1, 17))
        &&& self.limit_price as nat == le_value(s.subrange(17, 33))
        &&& self.secret@ == s.subrange(33, 65)
        &&& self.priority_bid as nat == le_value(s.subrange(65, 73))
        &&& self.commit_index as nat == le_value(s.subrange(73, 77))
    }

    pub fn serialize(&self) -> (r: [u8; 77])
        ensures
            r@ == self.spec_bytes(),
    {
        let mut out: Vec<u8> = Vec::new();
        push_le(&mut out, self.order_type as u128, 1);
        push_le(&mut out, self.amount_in as u128, 16);
        push_le(&mut out, self.limit_price as u128, 16);
        push_bytes32(&mut out, &self.secret);
        push_le(&mut out, self.priority_bid as u128, 8);
        push_le(&mut out, self.commit_index as u128, 4);
        proof {
            lemma_le_bytes_len(self.order_type as nat, 1);
            lemma_le_bytes_len(self.amount_in as nat, 16);
            lemma_le_bytes_len(self.limit_price as nat, 16);
            lemma_le_bytes_len(self.priority_bid as nat, 8);
            lemma_le_bytes_len(self.commit_index as nat, 4);
        }
        to_array(&out)
    }

    pub fn deserialize(data: &[u8]) -> (r: Option<Self>)
        ensures
            data@.len() < 77 <==> r is None,
            r matches Some(x) ==> x.decodes(data@),
    {
        if data.len() < 77 {
            return None;
        }
        proof {
            lemma_pow256_values();
        }
        let order_type = read_le(data, 0, 1) as u8;
        let amount_in = read_le(data, 1, 16);
        let limit_price = read_le(data, 17, 16);
        let secret = read_bytes32(data, 33);
        let priority_bid = read_le(data, 65, 8) as u64;
        let commit_index = read_le(data, 73, 4) as u32;
        Some(Self { order_type, amount_in, limit_price, secret, priority_bid, commit_index })
    }
}

/// Decoding the wire bytes of a `RevealWitness` gives back the same value.
pub proof fn lemma_reveal_witness_round_trip(x: RevealWitness, y: RevealWitness)
    requires
        y.decodes(x.spec_bytes()),
    ensures
        y == x,
{
    let s = x.spec_bytes();
    lemma_pow256_values();
    lemma_le_round_trip(x.order_type as nat, 1);
    lemma_le_round_trip(x.amount_in as nat, 16);
    lemma_le_round_trip(x.limit_price as nat, 16);
    lemma_le_round_trip(x.priority_bid as nat, 8);
    lemma_le_round_trip(x.commit_index as nat, 4);
    assert(s.subrange(0, 1) =~= le_bytes(x.order_type as nat, 1));
    assert(s.subrange(1, 17) =~= le_bytes(x.amount_in as nat, 16));
    assert(s.subrange(17, 33) =~= le_bytes(x.limit_price as nat, 16));
    assert(s.subrange(33, 65) =~= x.secret@);
    assert(y.secret =~= x.secret);
    assert(s.subrange(65, 73) =~= le_bytes(x.priority_bid as nat, 8));
    assert(s.subrange(73, 77) =~= le_bytes(x.commit_index as nat, 4));
}

/// Pool cell: the shared constant-product pool state of a pair.
#[derive(Clone, Copy, Debug, Default, PartialEq, Eq)]
pub struct PoolCellData {
    pub reserve0: u128,
    pub reserve1: u128,
    pub total_lp_supply: u128,
    pub fee_rate_bps: u16,
    pub twap_price_cum: u128,
    pub twap_last_block: u64,
    pub k_last: [u8; 32],
    pub minimum_liquidity: u128,
    pub pair_id: [u8; 32],
    pub token0_type_hash: [u8; 32],
    pub token1_type_hash: [u8; 32],
}

impl PoolCellData {
    pub const SERIALIZED_SIZE: usize = 218;

    /// The wire bytes of this value, fields in order, integers little-endian.
    pub open spec fn spec_bytes(self) -> Seq<u8> {
        le_bytes(self.reserve0 as nat, 16)
            + le_bytes(self.reserve1 as nat, 16)
            + le_bytes(self.total_lp_supply as nat, 16)
            + le_bytes(self.fee_rate_bps as nat, 2)
            + le_bytes(self.twap_price_cum as nat, 16)
            + le_bytes(self.twap_last_block as nat, 8)
            + self.k_last@
            + le_bytes(self.minimum_liquidity as nat, 16)
            + self.pair_id@
            + self.token0_type_hash@
            + self.token1_type_hash@
    }

    /// `self` holds the fields that the wire bytes `s` encode.
    pub open spec fn decodes(self, s: Seq<u8>) -> bool {
        &&& self.reserve0 as nat == le_value(s.subrange(0, 16))
        &&& self.reserve1 as nat == le_value(s.subrange(16, 32))
        &&& self.total_lp_supply as nat == le_value(s.subrange(32, 48))
        &&& self.fee_rate_bps as nat == le_value(s.subrange(48, 50))
        &&& self.twap_price_cum as nat == le_value(s.subrange(50, 66))
        &&& self.twap_last_block as nat == le_value(s.subrange(66, 74))
        &&& self.k_last@ == s.subrange(74, 106)
        &&& self.minimum_liquidity as nat == le_value(s.subrange(106, 122))
        &&& self.pair_id@ == s.subrange(122, 154)
        &&& self.token0_type_hash@ == s.subrange(154, 186)
        &&& self.token1_type_hash@ == s.subrange(186, 218)
    }

    pub fn serialize(&self) -> (r: [u8; 218])
        ensures
            r@ == self.spec_bytes(),
    {
        let mut out: Vec<u8> = Vec::new();
        push_le(&mut out, self.reserve0 as u128, 16);
        push_le(&mut out, self.reserve1 as u128, 16);
        push_le(&mut out, self.total_lp_supply as u128, 16);
        push_le(&mut out, self.fee_rate_bps as u128, 2);
        push_le(&mut out, self.twap_price_cum as u128, 16);
        push_le(&mut out, self.twap_last_block as u128, 8);
        push_bytes32(&mut out, &self.k_last);
        push_le(&mut out, self.minimum_liquidity as u128, 16);
        push_bytes32(&mut out, &self.pair_id);
        push_bytes32(&mut out, &self.token0_type_hash);
        push_bytes32(&mut out, &self.token1_type_hash);
        proof {
            lemma_le_bytes_len(self.reserve0 as nat, 16);
            lemma_le_bytes_len(self.reserve1 as nat, 16);
            lemma_le_bytes_len(self.total_lp_supply as nat, 16);
            lemma_le_bytes_len(self.fee_rate_bps as nat, 2);
            lemma_le_bytes_len(self.twap_price_cum as nat, 16);
            lemma_le_bytes_len(self.twap_last_block as nat, 8);
            lemma_le_bytes_len(self.minimum_liquidity as nat, 16);
        }
        to_array(&out)
    }

    pub fn deserialize(data: &[u8]) -> (r: Option<Self>)
        ensures
            data@.len() < 218 <==> r is None,
            r matches Some(x) ==> x.decodes(data@),
    {
        if data.len() < 218 {
            return None;
        }
        proof {
            lemma_pow256_values();
        }
        let reserve0 = read_le(data, 0, 16);
        let reserve1 = read_le(data, 16, 16);
        let total_lp_supply = read_le(data, 32, 16);
        let fee_rate_bps = read_le(data, 48, 2) as u16;
        let twap_price_cum = read_le(data, 50, 16);
        let twap_last_block = read_le(data, 66, 8) as u64;
        let k_last = read_bytes32(data, 74);
        let minimum_liquidity = read_le(data, 106, 16);
        let pair_id = read_bytes32(data, 122);
        let token0_type_hash = read_bytes32(data, 154);
        let token1_type_hash = read_bytes32(data, 186);
        Some(Self { reserve0, reserve1, total_lp_supply, fee_rate_bps, twap_price_cum, twap_last_block, k_last, minimum_liquidity, pair_id, token0_type_hash, token1_type_hash })
    }
}

/// Decoding the wire bytes of a `PoolCellData` gives back the same value.
pub proof fn lemma_pool_cell_round_trip(x: PoolCellData, y: PoolCellData)
    requires
        y.decodes(x.spec_bytes()),
    ensures
        y == x,
{
    let s = x.spec_bytes();
    lemma_pow256_values();
    lemma_le_round_trip(x.reserve0 as nat, 16);
    lemma_le_round_trip(x.reserve1 as nat, 16);
    lemma_le_round_trip(x.total_lp_supply as nat, 16);
    lemma_le_round_trip(x.fee_rate_bps as nat, 2);
    lemma_le_round_trip(x.twap_price_cum as nat, 16);
    lemma_le_round_trip(x.twap_last_block as nat, 8);
    lemma_le_round_trip(x.minimum_liquidity as nat, 16);
    assert(s.subrange(0, 16) =~= le_bytes(x.reserve0 as nat, 16));
    assert(s.subrange(16, 32) =~= le_bytes(x.reserve1 as nat, 16));
    assert(s.subrange(32, 48) =~= le_bytes(x.total_lp_supply as nat, 16));
    assert(s.subrange(48, 50) =~= le_bytes(x.fee_rate_bps as nat, 2));
    assert(s.subrange(50, 66) =~= le_bytes(x.twap_price_cum as nat, 16));
    assert(s.subrange(66, 74) =~= le_bytes(x.twap_last_block as nat, 8));
    assert(s.subrange(74, 106) =~= x.k_last@);
    assert(y.k_last =~= x.k_last);
    assert(s.subrange(106, 122) =~= le_bytes(x.minimum_liquidity as nat, 16));
    assert(s.subrange(122, 154) =~= x.pair_id@);
    assert(y.pair_id =~= x.pair_id);
    assert(s.subrange(154, 186) =~= x.token0_type_hash@);
    assert(y.token0_type_hash =~= x.token0_type_hash);
    assert(s.subrange(186, 218) =~= x.token1_type_hash@);
    assert(y.token1_type_hash =~= x.token1_type_hash);
}

/// LP position cell: one provider's share of a pool.
#[derive(Clone, Copy, Debug, Default, PartialEq, Eq)]
pub struct LPPositionCellData {
    pub lp_amount: u128,
    pub entry_price: u128,
    pub pool_id: [u8; 32],
    pub deposit_block: u64,
}

impl LPPositionCellData {
    pub const SERIALIZED_SIZE: usize = 72;

    /// The wire bytes of this value, fields in order, integers little-endian.
    pub open spec fn spec_bytes(self) -> Seq<u8> {
        le_bytes(self.lp_amount as nat, 16)
            + le_bytes(self.entry_price as nat, 16)
            + self.pool_id@
            + le_bytes(self.deposit_block as nat, 8)
    }

    /// `self` holds the fields that the wire bytes `s` encode.
    pub open spec fn decodes(self, s: Seq<u8>) -> bool {
        &&& self.lp_amount as nat == le_value(s.subrange(0, 16))
        &&& self.entry_price as nat == le_value(s.subrange(16, 32))
        &&& self.pool_id@ == s.subrange(32, 64)
        &&& self.deposit_block as nat == le_value(s.subrange(64, 72))
    }

    pub fn serialize(&self) -> (r: [u8; 72])
        ensures
            r@ == self.spec_bytes(),
    {
        let mut out: Vec<u8> = Vec::new();
        push_le(&mut out, self.lp_amount as u128, 16);
        push_le(&mut out, self.entry_price as u128, 16);
        push_bytes32(&mut out, &self.pool_id);
        push_le(&mut out, self.deposit_block as u128, 8);
        proof {
            lemma_le_bytes_len(self.lp_amount as nat, 16);
            lemma_le_bytes_len(self.entry_price as nat, 16);
            lemma_le_bytes_len(self.deposit_block as nat, 8);
        }
        to_array(&out)
    }

    pub fn deserialize(data: &[u8]) -> (r: Option<Self>)
        ensures
            data@.len() < 72 <==> r is None,
            r matches Some(x) ==> x.decodes(data@),
    {
        if data.len() < 72 {
            return None;
        }
        proof {
            lemma_pow256_values();
        }
        let lp_amount = read_le(data, 0, 16);
        let entry_price = read_le(data, 16, 16);
        let pool_id = read_bytes32(data, 32);
        let deposit_block = read_le(data, 64, 8) as u64;
        Some(Self { lp_amount, entry_price, pool_id, deposit_block })
    }
}

/// Decoding the wire bytes of a `LPPositionCellData` gives back the same value.
pub proof fn lemma_lp_position_cell_round_trip(x: LPPositionCellData, y: LPPositionCellData)
    requires
        y.decodes(x.spec_bytes()),
    ensures
        y == x,
{
    let s = x.spec_bytes();
    lemma_pow256_values();
    lemma_le_round_trip(x.lp_amount as nat, 16);
    lemma_le_round_trip(x.entry_price as nat, 16);
    lemma_le_round_trip(x.deposit_block as nat, 8);
    assert(s.subrange(0, 16) =~= le_bytes(x.lp_amount as nat, 16));
    assert(s.subrange(16, 32) =~= le_bytes(x.entry_price as nat, 16));
    assert(s.subrange(32, 64) =~= x.pool_id@);
    assert(y.pool_id =~= x.pool_id);
    assert(s.subrange(64, 72) =~= le_bytes(x.deposit_block as nat, 8));
}

/// Compliance cell: the registry of compliance Merkle roots.
#[derive(Clone, Copy, Debug, Default, PartialEq, Eq)]
pub struct ComplianceCellData {
    pub blocked_merkle_root: [u8; 32],
    pub tier_merkle_root: [u8; 32],
    pub jurisdiction_root: [u8; 32],
    pub last_updated: u64,
    pub version: u32,
}

impl ComplianceCellData {
    pub const SERIALIZED_SIZE: usize = 108;

    /// The wire bytes of this value, fields in order, integers little-endian.
    pub open spec fn spec_bytes(self) -> Seq<u8> {
        self.blocked_merkle_root@
            + self.tier_merkle_root@
            + self.jurisdiction_root@
            + le_bytes(self.last_updated as nat, 8)
            + le_bytes(self.version as nat, 4)
    }

    /// `self` holds the fields that the wire bytes `s` encode.
    pub open spec fn decodes(self, s: Seq<u8>) -> bool {
        &&& self.blocked_merkle_root@ == s.subrange(0, 32)
        &&& self.tier_merkle_root@ == s.subrange(32, 64)
        &&& self.jurisdiction_root@ == s.subrange(64, 96)
        &&& self.last_updated as nat == le_value(s.subrange(96, 104))
        &&& self.version as nat == le_value(s.subrange(104, 108))
    }

    pub fn serialize(&self) -> (r: [u8; 108])
        ensures
            r@ == self.spec_bytes(),
    {
        let mut out: Vec<u8> = Vec::new();
        push_bytes32(&mut out, &self.blocked_merkle_root);
        push_bytes32(&mut out, &self.tier_merkle_root);
        push_bytes32(&mut out, &self.jurisdiction_root);
        push_le(&mut out, self.last_updated as u128, 8);
        push_le(&mut out, self.version as u128, 4);
        proof {
            lemma_le_bytes_len(self.last_updated as nat, 8);
            lemma_le_bytes_len(self.version as nat, 4);
        }
        to_array(&out)
    }

    pub fn deserialize(data: &[u8]) -> (r: Option<Self>)
        ensures
            data@.len() < 108 <==> r is None,
            r matches Some(x) ==> x.decodes(data@),
    {
        if data.len() < 108 {
            return None;
        }
        proof {
            lemma_pow256_values();
        }
        let blocked_merkle_root = read_bytes32(data, 0);
        let tier_merkle_root = read_bytes32(data, 32);
        let jurisdiction_root = read_bytes32(data, 64);
        let last_updated = read_le(data, 96, 8) as u64;
        let version = read_le(data, 104, 4) as u32;
        Some(Self { blocked_merkle_root, tier_merkle_root, jurisdiction_root, last_updated, version })
    }
}

/// Decoding the wire bytes of a `ComplianceCellData` gives back the same value.
pub proof fn lemma_compliance_cell_round_trip(x: ComplianceCellData, y: ComplianceCellData)
    requires
        y.decodes(x.spec_bytes()),
    ensures
        y == x,
{
    let s = x.spec_bytes();
    lemma_pow256_values();
    lemma_le_round_trip(x.last_updated as nat, 8);
    lemma_le_round_trip(x.version as nat, 4);
    assert(s.subrange(0, 32) =~= x.blocked_merkle_root@);
    assert(y.blocked_merkle_root =~= x.blocked_merkle_root);
    assert(s.subrange(32, 64) =~= x.tier_merkle_root@);
    assert(y.tier_merkle_root =~= x.tier_merkle_root);
    assert(s.subrange(64, 96) =~= x.jurisdiction_root@);
    assert(y.jurisdiction_root =~= x.jurisdiction_root);
    assert(s.subrange(96, 104) =~= le_bytes(x.last_updated as nat, 8));
    assert(s.subrange(104, 108) =~= le_bytes(x.version as nat, 4));
}

/// Config cell: protocol parameters.
#[derive(Clone, Copy, Debug, PartialEq, Eq)]
pub struct ConfigCellData {
    pub commit_window_blocks: u64,
    pub reveal_window_blocks: u64,
    pub slash_rate_bps: u16,
    pub max_price_deviation: u16,
    pub max_trade_size_bps: u16,
    pub rate_limit_amount: u128,
    pub rate_limit_window: u64,
    pub volume_breaker_limit: u128,
    pub price_breaker_bps: u16,
    pub withdrawal_breaker_bps: u16,
    pub min_pow_difficulty: u8,
}

impl ConfigCellData {
    pub const SERIALIZED_SIZE: usize = 67;

    /// The wire bytes of this value, fields in order, integers little-endian.
    pub open spec fn spec_bytes(self) -> Seq<u8> {
        le_bytes(self.commit_window_blocks as nat, 8)
            + le_bytes(self.reveal_window_blocks as nat, 8)
            + le_bytes(self.slash_rate_bps as nat, 2)
            + le_bytes(self.max_price_deviation as nat, 2)
            + le_bytes(self.max_trade_size_bps as nat, 2)
            + le_bytes(self.rate_limit_amount as nat, 16)
            + le_bytes(self.rate_limit_window as nat, 8)
            + le_bytes(self.volume_breaker_limit as nat, 16)
            + le_bytes(self.price_breaker_bps as nat, 2)
            + le_bytes(self.withdrawal_breaker_bps as nat, 2)
            + le_bytes(self.min_pow_difficulty as nat, 1)
    }

    /// `self` holds the fields that the wire bytes `s` encode.
    pub open spec fn decodes(self, s: Seq<u8>) -> bool {
        &&& self.commit_window_blocks as nat == le_value(s.subrange(0, 8))
        &&& self.reveal_window_blocks as nat == le_value(s.subrange(8, 16))
        &&& self.slash_rate_bps as nat == le_value(s.subrange(16, 18))
        &&& self.max_price_deviation as nat == le_value(s.subrange(18, 20))
        &&& self.max_trade_size_bps as nat == le_value(s.subrange(20, 22))
        &&& self.rate_limit_amount as nat == le_value(s.subrange(22, 38))
        &&& self.rate_limit_window as nat == le_value(s.subrange(38, 46))
        &&& self.volume_breaker_limit as nat == le_value(s.subrange(46, 62))
        &&& self.price_breaker_bps as nat == le_value(s.subrange(62, 64))
        &&& self.withdrawal_breaker_bps as nat == le_value(s.subrange(64, 66))
        &&& self.min_pow_difficulty as nat == le_value(s.subrange(66, 67))
    }

    pub fn serialize(&self) -> (r: [u8; 67])
        ensures
            r@ == self.spec_bytes(),
    {
        let mut out: Vec<u8> = Vec::new();
        push_le(&mut out, self.commit_window_blocks as u128, 8);
        push_le(&mut out, self.reveal_window_blocks as u128, 8);
        push_le(&mut out, self.slash_rate_bps as u128, 2);
        push_le(&mut out, self.max_price_deviation as u128, 2);
        push_le(&mut out, self.max_trade_size_bps as u128, 2);
        push_le(&mut out, self.rate_limit_amount as u128, 16);
        push_le(&mut out, self.rate_limit_window as u128, 8);
        push_le(&mut out, self.volume_breaker_limit as u128, 16);
        push_le(&mut out, self.price_breaker_bps as u128, 2);
        push_le(&mut out, self.withdrawal_breaker_bps as u128, 2);
        push_le(&mut out, self.min_pow_difficulty as u128, 1);
        proof {
            lemma_le_bytes_len(self.commit_window_blocks as nat, 8);
            lemma_le_bytes_len(self.reveal_window_blocks as nat, 8);
            lemma_le_bytes_len(self.slash_rate_bps as nat, 2);
            lemma_le_bytes_len(self.max_price_deviation as nat, 2);
            lemma_le_bytes_len(self.max_trade_size_bps as nat, 2);
            lemma_le_bytes_len(self.rate_limit_amount as nat, 16);
            lemma_le_bytes_len(self.rate_limit_window as nat, 8);
            lemma_le_bytes_len(self.volume_breaker_limit as nat, 16);
            lemma_le_bytes_len(self.price_breaker_bps as nat, 2);
            lemma_le_bytes_len(self.withdrawal_breaker_bps as nat, 2);
            lemma_le_bytes_len(self.min_pow_difficulty as nat, 1);
        }
        to_array(&out)
    }

    pub fn deserialize(data: &[u8]) -> (r: Option<Self>)
        ensures
            data@.len() < 67 <==> r is None,
            r matches Some(x) ==> x.decodes(data@),
    {
        if data.len() < 67 {
            return None;
        }
        proof {
            lemma_pow256_values();
        }
        let commit_window_blocks = read_le(data, 0, 8) as u64;
        let reveal_window_blocks = read_le(data, 8, 8) as u64;
        let slash_rate_bps = read_le(data, 16, 2) as u16;
        let max_price_deviation = read_le(data, 18, 2) as u16;
        let max_trade_size_bps = read_le(data, 20, 2) as u16;
        let rate_limit_amount = read_le(data, 22, 16);
        let rate_limit_window = read_le(data, 38, 8) as u64;
        let volume_breaker_limit = read_le(data, 46, 16);
        let price_breaker_bps = read_le(data, 62, 2) as u16;
        let withdrawal_breaker_bps = read_le(data, 64, 2) as u16;
        let min_pow_difficulty = read_le(data, 66, 1) as u8;
        Some(Self { commit_window_blocks, reveal_window_blocks, slash_rate_bps, max_price_deviation, max_trade_size_bps, rate_limit_amount, rate_limit_window, volume_breaker_limit, price_breaker_bps, withdrawal_breaker_bps, min_pow_difficulty })
    }
}

/// Decoding the wire bytes of a `ConfigCellData` gives back the same value.
pub proof fn lemma_config_cell_round_trip(x: ConfigCellData, y: ConfigCellData)
    requires
        y.decodes(x.spec_bytes()),
    ensures
        y == x,
{
    let s = x.spec_bytes();
    lemma_pow256_values();
    lemma_le_round_trip(x.commit_window_blocks as nat, 8);
    lemma_le_round_trip(x.reveal_window_blocks as nat, 8);
    lemma_le_round_trip(x.slash_rate_bps as nat, 2);
    lemma_le_round_trip(x.max_price_deviation as nat, 2);
    lemma_le_round_trip(x.max_trade_size_bps as nat, 2);
    lemma_le_round_trip(x.rate_limit_amount as nat, 16);
    lemma_le_round_trip(x.rate_limit_window as nat, 8);
    lemma_le_round_trip(x.volume_breaker_limit as nat, 16);
    lemma_le_round_trip(x.price_breaker_bps as nat, 2);
    lemma_le_round_trip(x.withdrawal_breaker_bps as nat, 2);
    lemma_le_round_trip(x.min_pow_difficulty as nat, 1);
    assert(s.subrange(0, 8) =~= le_bytes(x.commit_window_blocks as nat, 8));
    assert(s.subrange(8, 16) =~= le_bytes(x.reveal_window_blocks as nat, 8));
    assert(s.subrange(16, 18) =~= le_bytes(x.slash_rate_bps as nat, 2));
    assert(s.subrange(18, 20) =~= le_bytes(x.max_price_deviation as nat, 2));
    assert(s.subrange(20, 22) =~= le_bytes(x.max_trade_size_bps as nat, 2));
    assert(s.subrange(22, 38) =~= le_bytes(x.rate_limit_amount as nat, 16));
    assert(s.subrange(38, 46) =~= le_bytes(x.rate_limit_window as nat, 8));
    assert(s.subrange(46, 62) =~= le_bytes(x.volume_breaker_limit as nat, 16));
    assert(s.subrange(62, 64) =~= le_bytes(x.price_breaker_bps as nat, 2));
    assert(s.subrange(64, 66) =~= le_bytes(x.withdrawal_breaker_bps as nat, 2));
    assert(s.subrange(66, 67) =~= le_bytes(x.min_pow_difficulty as nat, 1));
}

/// Oracle cell: a price report for a pair.
#[derive(Clone, Copy, Debug, Default, PartialEq, Eq)]
pub struct OracleCellData {
    pub price: u128,
    pub block_number: u64,
    pub confidence: u8,
    pub source_hash: [u8; 32],
    pub pair_id: [u8; 32],
}

impl OracleCellData {
    pub const SERIALIZED_SIZE: usize = 89;

    /// The wire bytes of this value, fields in order, integers little-endian.
    pub open spec fn spec_bytes(self) -> Seq<u8> {
        le_bytes(self.price as nat, 16)
            + le_bytes(self.block_number as nat, 8)
            + le_bytes(self.confidence as nat, 1)
            + self.source_hash@
            + self.pair_id@
    }

    /// `self` holds the fields that the wire bytes `s` encode.
    pub open spec fn decodes(self, s: Seq<u8>) -> bool {
        &&& self.price as nat == le_value(s.subrange(0, 16))
        &&& self.block_number as nat == le_value(s.subrange(16, 24))
        &&& self.confidence as nat == le_value(s.subrange(24, 25))
        &&& self.source_hash@ == s.subrange(25, 57)
        &&& self.pair_id@ == s.subrange(57, 89)
    }

    pub fn serialize(&self) -> (r: [u8; 89])
        ensures
            r@ == self.spec_bytes(),
    {
        let mut out: Vec<u8> = Vec::new();
        push_le(&mut out, self.price as u128, 16);
        push_le(&mut out, self.block_number as u128, 8);
        push_le(&mut out, self.confidence as u128, 1);
        push_bytes32(&mut out, &self.source_hash);
        push_bytes32(&mut out, &self.pair_id);
        proof {
            lemma_le_bytes_len(self.price as nat, 16);
            lemma_le_bytes_len(self.block_number as nat, 8);
            lemma_le_bytes_len(self.confidence as nat, 1);
        }
        to_array(&out)
    }

    pub fn deserialize(data: &[u8]) -> (r: Option<Self>)
        ensures
            data@.len() < 89 <==> r is None,
            r matches Some(x) ==> x.decodes(data@),
    {
        if data.len() < 89 {
            return None;
        }
        proof {
            lemma_pow256_values();
        }
        let price = read_le(data, 0, 16);
        let block_number = read_le(data, 16, 8) as u64;
        let confidence = read_le(data, 24, 1) as u8;
        let source_hash = read_bytes32(data, 25);
        let pair_id = read_bytes32(data, 57);
        Some(Self { price, block_number, confidence, source_hash, pair_id })
    }
}

/// Decoding the wire bytes of a `OracleCellData` gives back the same value.
pub proof fn lemma_oracle_cell_round_trip(x: OracleCellData, y: OracleCellData)
    requires
        y.decodes(x.spec_bytes()),
    ensures
        y == x,
{
    let s = x.spec_bytes();
    lemma_pow256_values();
    lemma_le_round_trip(x.price as nat, 16);
    lemma_le_round_trip(x.block_number as nat, 8);
    lemma_le_round_trip(x.confidence as nat, 1);
    assert(s.subrange(0, 16) =~= le_bytes(x.price as nat, 16));
    assert(s.subrange(16, 24) =~= le_bytes(x.block_number as nat, 8));
    assert(s.subrange(24, 25) =~= le_bytes(x.confidence as nat, 1));
    assert(s.subrange(25, 57) =~= x.source_hash@);
    assert(y.source_hash =~= x.source_hash);
    assert(s.subrange(57, 89) =~= x.pair_id@);
    assert(y.pair_id =~= x.pair_id);
}

/// Arguments of the proof-of-work lock script.
#[derive(Clone, Copy, Debug, Default, PartialEq, Eq)]
pub struct PoWLockArgs {
    pub pair_id: [u8; 32],
    pub min_difficulty: u8,
}

impl PoWLockArgs {
    pub const SERIALIZED_SIZE: usize = 33;

    /// The wire bytes of this value, fields in order, integers little-endian.
    pub open spec fn spec_bytes(self) -> Seq<u8> {
        self.pair_id@
            + le_bytes(self.min_difficulty as nat, 1)
    }

    /// `self` holds the fields that the wire bytes `s` encode.
    pub open spec fn decodes(self, s: Seq<u8>) -> bool {
        &&& self.pair_id@ == s.subrange(0, 32)
        &&& self.min_difficulty as nat == le_value(s.subrange(32, 33))
    }

    pub fn serialize(&self) -> (r: [u8; 33])
        ensures
            r@ == self.spec_bytes(),
    {
        let mut out: Vec<u8> = Vec::new();
        push_bytes32(&mut out, &self.pair_id);
        push_le(&mut out, self.min_difficulty as u128, 1);
        proof {
            lemma_le_bytes_len(self.min_difficulty as nat, 1);
        }
        to_array(&out)
    }

    pub fn deserialize(data: &[u8]) -> (r: Option<Self>)
        ensures
            data@.len() < 33 <==> r is None,
            r matches Some(x) ==> x.decodes(data@),
    {
        if data.len() < 33 {
            return None;
        }
        proof {
            lemma_pow256_values();
        }
        let pair_id = read_bytes32(data, 0);
        let min_difficulty = read_le(data, 32, 1) as u8;
        Some(Self { pair_id, min_difficulty })
    }
}

/// Decoding the wire bytes of a `PoWLockArgs` gives back the same value.
pub proof fn lemma_pow_lock_args_round_trip(x: PoWLockArgs, y: PoWLockArgs)
    requires
        y.decodes(x.spec_bytes()),
    ensures
        y == x,
{
    let s = x.spec_bytes();
    lemma_pow256_values();
    lemma_le_round_trip(x.min_difficulty as nat, 1);
    assert(s.subrange(0, 32) =~= x.pair_id@);
    assert(y.pair_id =~= x.pair_id);
    assert(s.subrange(32, 33) =~= le_bytes(x.min_difficulty as nat, 1));
}

} // verus!

verus! {

impl Default for ConfigCellData {
    /// The protocol's default parameters.
    fn default() -> (r: Self)
        ensures
            r == (ConfigCellData {
                commit_window_blocks: DEFAULT_COMMIT_WINDOW_BLOCKS,
                reveal_window_blocks: DEFAULT_REVEAL_WINDOW_BLOCKS,
                slash_rate_bps: DEFAULT_SLASH_RATE_BPS,
                max_price_deviation: DEFAULT_MAX_PRICE_DEVIATION,
                max_trade_size_bps: DEFAULT_MAX_TRADE_SIZE_BPS,
                rate_limit_amount: 1_000_000_000_000_000_000_000_000,
                rate_limit_window: 3600,
                volume_breaker_limit: 10_000_000_000_000_000_000_000_000,
                price_breaker_bps: 1000,
                withdrawal_breaker_bps: 2000,
                min_pow_difficulty: DEFAULT_MIN_POW_DIFFICULTY,
            }),
    {
        ConfigCellData {
            commit_window_blocks: DEFAULT_COMMIT_WINDOW_BLOCKS,
            reveal_window_blocks: DEFAULT_REVEAL_WINDOW_BLOCKS,
            slash_rate_bps: DEFAULT_SLASH_RATE_BPS,
            max_price_deviation: DEFAULT_MAX_PRICE_DEVIATION,
            max_trade_size_bps: DEFAULT_MAX_TRADE_SIZE_BPS,
            rate_limit_amount: 1_000_000 * PRECISION,
            rate_limit_window: 3600,
            volume_breaker_limit: 10_000_000 * PRECISION,
            price_breaker_bps: 1000,
            withdrawal_breaker_bps: 2000,
            min_pow_difficulty: DEFAULT_MIN_POW_DIFFICULTY,
        }
    }
}

} // verus!

verus! {

/// Two `AuctionCellData` values decoded from the same bytes are equal.
pub proof fn lemma_auction_cell_decodes_unique(y: AuctionCellData, z: AuctionCellData, s: Seq<u8>)
    requires
        y.decodes(s),
        z.decodes(s),
    ensures
        y == z,
{
    assert(y.commit_mmr_root =~= z.commit_mmr_root);
    assert(y.xor_seed =~= z.xor_seed);
    assert(y.difficulty_target =~= z.difficulty_target);
    assert(y.prev_state_hash =~= z.prev_state_hash);
    assert(y.pair_id =~= z.pair_id);
}

/// Two `CommitCellData` values decoded from the same bytes are equal.
pub proof fn lemma_commit_cell_decodes_unique(y: CommitCellData, z: CommitCellData, s: Seq<u8>)
    requires
        y.decodes(s),
        z.decodes(s),
    ensures
        y == z,
{
    assert(y.order_hash =~= z.order_hash);
    assert(y.token_type_hash =~= z.token_type_hash);
    assert(y.sender_lock_hash =~= z.sender_lock_hash);
}

/// Two `PoolCellData` values decoded from the same bytes are equal.
pub proof fn lemma_pool_cell_decodes_unique(y: PoolCellData, z: PoolCellData, s: Seq<u8>)
    requires
        y.decodes(s),
        z.decodes(s),
    ensures
        y == z,
{
    assert(y.k_last =~= z.k_last);
    assert(y.pair_id =~= z.pair_id);
    assert(y.token0_type_hash =~= z.token0_type_hash);
    assert(y.token1_type_hash =~= z.token1_type_hash);
}

/// Two `LPPositionCellData` values decoded from the same bytes are equal.
pub proof fn lemma_lp_position_cell_decodes_unique(y: LPPositionCellData, z: LPPositionCellData, s: Seq<u8>)
    requires
        y.decodes(s),
        z.decodes(s),
    ensures
        y == z,
{
    assert(y.pool_id =~= z.pool_id);
}

/// Two `ComplianceCellData` values decoded from the same bytes are equal.
pub proof fn lemma_compliance_cell_decodes_unique(y: ComplianceCellData, z: ComplianceCellData, s: Seq<u8>)
    requires
        y.decodes(s),
        z.decodes(s),
    ensures
        y == z,
{
    assert(y.blocked_merkle_root =~= z.blocked_merkle_root);
    assert(y.tier_merkle_root =~= z.tier_merkle_root);
    assert(y.jurisdiction_root =~= z.jurisdiction_root);
}

/// Two `ConfigCellData` values decoded from the same bytes are equal.
pub proof fn lemma_config_cell_decodes_unique(y: ConfigCellData, z: ConfigCellData, s: Seq<u8>)
    requires
        y.decodes(s),
        z.decodes(s),
    ensures
        y == z,
{
}

/// Two `OracleCellData` values decoded from the same bytes are equal.
pub proof fn lemma_oracle_cell_decodes_unique(y: OracleCellData, z: OracleCellData, s: Seq<u8>)
    requires
        y.decodes(s),
        z.decodes(s),
    ensures
        y == z,
{
    assert(y.source_hash =~= z.source_hash);
    assert(y.pair_id =~= z.pair_id);
}

/// Two `PoWLockArgs` values decoded from the same bytes are equal.
pub proof fn lemma_pow_lock_args_decodes_unique(y: PoWLockArgs, z: PoWLockArgs, s: Seq<u8>)
    requires
        y.decodes(s),
        z.decodes(s),
    ensures
        y == z,
{
    assert(y.pair_id =~= z.pair_id);
}

} // verus!
