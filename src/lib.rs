//! A distribution engine that turns a snapshot of staking positions into
//! minted rewards of two assets, behind a height gate and cumulative caps.

pub mod engine;
pub mod minting;
pub mod laws;
pub mod msg;
pub mod ratio;
pub mod snapshot;
pub mod state;
