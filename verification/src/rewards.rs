//! Rewards that are handed out to the liquidity of a pool.
use vstd::prelude::*;

use crate::words::U160;

verus! {

/// How rewards are handed out: to the current range only, or tick by tick.
#[derive(Clone, Debug)]
pub enum RewardsUpdate {
    CurrentOnly { amount: u128, expected_liquidity: u128 },
    MultiTick {
        start_tick: i32,
        start_liquidity: u128,
        quantities: Vec<u128>,
        reward_checksum: U160,
    },
}

} // verus!
