//! Validation core of a commit-reveal batch-auction exchange on a cell-model ledger.
pub mod arith;
pub mod codec;
pub mod cells;
pub mod hashing;
pub mod pow;
pub mod mmr;
pub mod batch_math;
pub mod shuffle;
pub mod twap;
pub mod auction;
pub mod pool;
pub mod commit;
pub mod governance;
pub mod feeds;
pub mod pow_lock;
