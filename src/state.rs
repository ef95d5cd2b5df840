//! The persisted counters of the engine and the limits they obey.

use vstd::prelude::*;

verus! {

/// Cumulative cap on asset A: 1,500,000 tokens of 18 decimals.
pub const CAP_A: u128 = 1_500_000_000_000_000_000_000_000;

/// Cumulative cap on asset B: 750,000 tokens of 18 decimals.
pub const CAP_B: u128 = 750_000_000_000_000_000_000_000;

/// Heights that must pass between two distributions (a day at 1.5 s a block).
pub const DISTRIBUTION_INTERVAL: u64 = 57600;

/// One of the two minted assets.
#[derive(Clone, Copy, Debug, PartialEq, Eq, Structural)]
pub enum Asset {
    AssetA,
    AssetB,
}

/// The identities of the engine's collaborators, fixed at set-up.
#[derive(Clone, Debug, PartialEq, Eq)]
pub struct Config {
    pub asset_a: String,
    pub asset_b: String,
    pub staking_source: String,
}

/// The counters the engine owns: what it has minted of each asset so far,
/// and the height of its last committed distribution.
#[derive(Clone, Copy, Debug, PartialEq, Eq, Structural)]
pub struct DistributionState {
    pub total_distributed_a: u128,
    pub total_distributed_b: u128,
    pub last_distribution_height: u64,
}

impl DistributionState {
    /// Both cumulative counters are within their caps.
    pub open spec fn wf(self) -> bool {
        &&& self.total_distributed_a <= CAP_A
        &&& self.total_distributed_b <= CAP_B
    }

    /// The state before any distribution: every counter at zero.
    pub fn new() -> (r: DistributionState)
        ensures
            r == DistributionState::initial(),
            r.wf(),
    {
        DistributionState { total_distributed_a: 0, total_distributed_b: 0, last_distribution_height: 0 }
    }

    /// Every counter at zero.
    pub open spec fn initial() -> DistributionState {
        DistributionState { total_distributed_a: 0, total_distributed_b: 0, last_distribution_height: 0 }
    }
}

} // verus!
