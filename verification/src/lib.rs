//! A proof-of-work blockchain node library: signed value-transfer
//! transactions, mined into blocks, maintained by a small peer network.
use vstd::prelude::*;

pub mod blockchain;
pub mod errors;
pub mod mining;
pub mod network;
pub mod rsa_verification;
pub mod serialization;
pub mod transaction;
pub mod wallet;

verus! {

/// Reward credited to the miner of every accepted block.
pub const MINING_REWARD: i64 = 10;

/// Leading hex zeroes required of the genesis block's hash.
pub const GENESIS_DIFFICULTY: u8 = 3;

/// Upper bound on the number of transactions mined into one block.
pub const MAX_TRANSACTION_COUNT: usize = 10;

} // verus!
