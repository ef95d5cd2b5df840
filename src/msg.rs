//! The messages the engine answers at its boundary.

use vstd::prelude::*;

verus! {

/// Set-up message: the addresses of the two minted assets and of the staking
/// source.
#[derive(Clone, Debug, PartialEq, Eq)]
pub struct InstantiateMsg {
    pub liquid_prysm_address: String,
    pub liquid_btc_address: String,
    pub staking_contract_address: String,
}

/// The one state-changing operation that can be triggered.
#[derive(Clone, Debug, PartialEq, Eq, Structural)]
pub enum ExecuteMsg {
    DistributeTokens {},
}

/// Read-only request for the engine's counters.
#[derive(Clone, Copy, Debug, PartialEq, Eq, Structural)]
pub struct QueryMsg;

} // verus!
