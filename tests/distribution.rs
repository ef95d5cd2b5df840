use token_distributor::engine::{
    check_distribution, check_interval, distribute, execute, instantiate, reward_share, staker_rewards,
    DistributionError, DistributionReceipt, StakerReward,
};
use token_distributor::minting::{MintError, MintRecorder};
use token_distributor::msg::{ExecuteMsg, InstantiateMsg};
use token_distributor::snapshot::{query_stakers, StakerSnapshot, StakingSnapshot};
use token_distributor::state::{Asset, DistributionState, CAP_A, CAP_B, DISTRIBUTION_INTERVAL};

const E18: u128 = 1_000_000_000_000_000_000;

fn staker(name: &str, balance: u128) -> StakerSnapshot {
    StakerSnapshot { staker: name.to_string(), balance }
}

fn snapshot(total: u128, stakers: Vec<StakerSnapshot>) -> StakingSnapshot {
    query_stakers(total, stakers).unwrap()
}

fn two_halves() -> StakingSnapshot {
    snapshot(100 * E18, vec![staker("staker1", 50 * E18), staker("staker2", 50 * E18)])
}

#[test]
fn instantiate_zeroes_counters_and_keeps_addresses() {
    let msg = InstantiateMsg {
        liquid_prysm_address: "liquid_prysm".to_string(),
        liquid_btc_address: "liquid_btc".to_string(),
        staking_contract_address: "staking_contract".to_string(),
    };
    let (config, state) = instantiate(msg);
    assert_eq!(config.asset_a, "liquid_prysm");
    assert_eq!(config.asset_b, "liquid_btc");
    assert_eq!(config.staking_source, "staking_contract");
    assert_eq!(state, DistributionState::new());
    assert_eq!(state.total_distributed_a, 0);
    assert_eq!(state.total_distributed_b, 0);
    assert_eq!(state.last_distribution_height, 0);
}

#[test]
fn test_distribute_tokens() {
    let mut state = DistributionState::new();
    let mut minter = MintRecorder::new();
    let res = execute(&mut state, 57601, &two_halves(), &mut minter, ExecuteMsg::DistributeTokens {});
    assert!(res.is_ok());
    assert_eq!(state.total_distributed_a, 100 * E18);
    assert_eq!(state.total_distributed_b, 100 * E18);
}

#[test]
fn two_equal_stakers_get_half_each() {
    let mut state = DistributionState::new();
    let mut minter = MintRecorder::new();
    let res = distribute(&mut state, 57600, &two_halves(), &mut minter);
    assert_eq!(
        res,
        Ok(DistributionReceipt { height: 57600, pool_a: 100 * E18, pool_b: 100 * E18, stakers_paid: 2 })
    );
    assert_eq!(
        minter.mints,
        vec![
            (Asset::AssetA, "staker1".to_string(), 50 * E18),
            (Asset::AssetB, "staker1".to_string(), 50 * E18),
            (Asset::AssetA, "staker2".to_string(), 50 * E18),
            (Asset::AssetB, "staker2".to_string(), 50 * E18),
        ]
    );
    assert_eq!(state.total_distributed_a, 100 * E18);
    assert_eq!(state.total_distributed_b, 100 * E18);
    assert_eq!(state.last_distribution_height, 57600);
}

#[test]
fn second_call_one_height_early_is_refused() {
    let mut state = DistributionState::new();
    let mut minter = MintRecorder::new();
    distribute(&mut state, 100_000, &two_halves(), &mut minter).unwrap();
    let before = state;
    let mut second = MintRecorder::new();
    let res = distribute(&mut state, 100_000 + 57599, &two_halves(), &mut second);
    assert_eq!(res, Err(DistributionError::IntervalNotElapsed));
    assert_eq!(state, before);
    assert!(second.mints.is_empty());
}

#[test]
fn second_call_after_full_interval_commits() {
    let mut state = DistributionState::new();
    let mut minter = MintRecorder::new();
    distribute(&mut state, 100_000, &two_halves(), &mut minter).unwrap();
    let res = distribute(&mut state, 100_000 + DISTRIBUTION_INTERVAL, &two_halves(), &mut minter);
    assert!(res.is_ok());
    assert_eq!(state.total_distributed_a, 200 * E18);
    assert_eq!(state.total_distributed_b, 200 * E18);
    assert_eq!(state.last_distribution_height, 157_600);
    assert_eq!(minter.mints.len(), 8);
}

#[test]
fn first_call_before_one_interval_is_refused() {
    let mut state = DistributionState::new();
    let mut minter = MintRecorder::new();
    let res = distribute(&mut state, 57599, &two_halves(), &mut minter);
    assert_eq!(res, Err(DistributionError::IntervalNotElapsed));
    assert_eq!(state, DistributionState::new());
}

#[test]
fn zero_stake_is_refused() {
    let mut state = DistributionState::new();
    let mut minter = MintRecorder::new();
    let res = distribute(&mut state, 57600, &snapshot(0, vec![]), &mut minter);
    assert_eq!(res, Err(DistributionError::NoStakeToDistribute));
    assert_eq!(state, DistributionState::new());
    assert!(minter.mints.is_empty());
}

#[test]
fn cap_a_exceeded_mints_nothing() {
    let mut state = DistributionState {
        total_distributed_a: CAP_A - 99 * E18,
        total_distributed_b: 0,
        last_distribution_height: 0,
    };
    let before = state;
    let mut minter = MintRecorder::new();
    let res = distribute(&mut state, 57600, &two_halves(), &mut minter);
    assert_eq!(res, Err(DistributionError::CapExceeded { asset: Asset::AssetA }));
    assert_eq!(state, before);
    assert!(minter.mints.is_empty());
}

#[test]
fn cap_a_reached_exactly_commits() {
    let mut state = DistributionState {
        total_distributed_a: CAP_A - 100 * E18,
        total_distributed_b: 0,
        last_distribution_height: 0,
    };
    let mut minter = MintRecorder::new();
    assert!(distribute(&mut state, 57600, &two_halves(), &mut minter).is_ok());
    assert_eq!(state.total_distributed_a, CAP_A);
}

#[test]
fn cap_b_exceeded_mints_nothing() {
    let mut state = DistributionState {
        total_distributed_a: 0,
        total_distributed_b: CAP_B - 1,
        last_distribution_height: 0,
    };
    let before = state;
    let mut minter = MintRecorder::new();
    let res = distribute(&mut state, 57600, &two_halves(), &mut minter);
    assert_eq!(res, Err(DistributionError::CapExceeded { asset: Asset::AssetB }));
    assert_eq!(state, before);
    assert!(minter.mints.is_empty());
}

#[test]
fn huge_stake_exceeds_cap_without_overflow() {
    let mut state = DistributionState::new();
    let mut minter = MintRecorder::new();
    let snap = snapshot(u128::MAX, vec![staker("whale", u128::MAX)]);
    let res = distribute(&mut state, 57600, &snap, &mut minter);
    assert_eq!(res, Err(DistributionError::CapExceeded { asset: Asset::AssetA }));
    assert_eq!(state, DistributionState::new());
}

#[test]
fn three_stakers_rewards_follow_the_floor_formula() {
    // With the pool equal to the total stake, floor(b * 15 / 15) is b itself.
    let snap = snapshot(15, vec![staker("a", 1), staker("b", 7), staker("c", 7)]);
    let rewards = staker_rewards(&snap);
    let amounts: Vec<(u128, u128)> = rewards.iter().map(|r| (r.amount_a, r.amount_b)).collect();
    assert_eq!(amounts, vec![(1, 1), (7, 7), (7, 7)]);
    let mut state = DistributionState::new();
    let mut minter = MintRecorder::new();
    distribute(&mut state, 57600, &snap, &mut minter).unwrap();
    let minted: Vec<u128> = minter.mints.iter().map(|c| c.2).collect();
    assert_eq!(minted, vec![1, 1, 7, 7, 7, 7]);
    assert_eq!(state.total_distributed_a, 15);
}

#[test]
fn rewards_are_proportional_with_partial_stake() {
    // Balances below the total: each staker gets exactly its balance, and the
    // rewards add up to less than the pool.
    let snap = snapshot(10, vec![staker("a", 3), staker("b", 4)]);
    let rewards = staker_rewards(&snap);
    assert_eq!(
        rewards,
        vec![
            StakerReward { staker: "a".to_string(), amount_a: 3, amount_b: 3 },
            StakerReward { staker: "b".to_string(), amount_a: 4, amount_b: 4 },
        ]
    );
    let sum: u128 = rewards.iter().map(|r| r.amount_a).sum();
    assert!(sum <= 10);
}

#[test]
fn rewards_of_largest_balances_do_not_overflow() {
    let big = u128::MAX - 1;
    let snap = snapshot(u128::MAX, vec![staker("a", big), staker("b", 1)]);
    let rewards = staker_rewards(&snap);
    assert_eq!(rewards[0].amount_a, big);
    assert_eq!(rewards[1].amount_b, 1);
}

#[test]
fn mint_failure_keeps_counters() {
    let mut state = DistributionState::new();
    let mut minter = MintRecorder::with_capacity(3);
    let res = distribute(&mut state, 57600, &two_halves(), &mut minter);
    assert_eq!(
        res,
        Err(DistributionError::MintFailure {
            staker: "staker2".to_string(),
            asset: Asset::AssetB,
            cause: MintError { reason: "mint capacity reached".to_string() },
        })
    );
    assert_eq!(state, DistributionState::new());
    // the mints already made are not taken back
    assert_eq!(minter.mints.len(), 3);
}

#[test]
fn mint_failure_on_first_asset_names_it() {
    let mut state = DistributionState::new();
    let mut minter = MintRecorder::with_capacity(0);
    let res = distribute(&mut state, 57600, &two_halves(), &mut minter);
    assert_eq!(
        res,
        Err(DistributionError::MintFailure {
            staker: "staker1".to_string(),
            asset: Asset::AssetA,
            cause: MintError { reason: "mint capacity reached".to_string() },
        })
    );
    assert_eq!(state.last_distribution_height, 0);
}

#[test]
fn caps_hold_over_many_cycles() {
    let mut state = DistributionState::new();
    let mut minter = MintRecorder::new();
    let snap = snapshot(300_000 * E18, vec![staker("a", 300_000 * E18)]);
    let mut height: u64 = 0;
    let mut last_ok: Option<u64> = None;
    for _ in 0..8 {
        height += DISTRIBUTION_INTERVAL;
        if distribute(&mut state, height, &snap, &mut minter).is_ok() {
            if let Some(prev) = last_ok {
                assert!(height >= prev + DISTRIBUTION_INTERVAL);
            }
            last_ok = Some(height);
        }
        assert!(state.total_distributed_a <= CAP_A);
        assert!(state.total_distributed_b <= CAP_B);
    }
    assert_eq!(state.total_distributed_b, 600_000 * E18);
    assert_eq!(last_ok, Some(2 * DISTRIBUTION_INTERVAL));
}

#[test]
fn gate_checks_follow_their_order() {
    let state = DistributionState { total_distributed_a: CAP_A, total_distributed_b: CAP_B, last_distribution_height: 10 };
    assert_eq!(check_distribution(&state, 57609, 0), Err(DistributionError::IntervalNotElapsed));
    assert_eq!(check_distribution(&state, 57610, 0), Err(DistributionError::NoStakeToDistribute));
    assert_eq!(check_distribution(&state, 57610, 1), Err(DistributionError::CapExceeded { asset: Asset::AssetA }));
    let state = DistributionState { total_distributed_a: 0, ..state };
    assert_eq!(check_distribution(&state, 57610, 1), Err(DistributionError::CapExceeded { asset: Asset::AssetB }));
    let state = DistributionState { total_distributed_b: 0, ..state };
    assert_eq!(check_distribution(&state, 57610, 1), Ok(()));
}

#[test]
fn gate_handles_height_near_the_top() {
    let state = DistributionState { total_distributed_a: 0, total_distributed_b: 0, last_distribution_height: u64::MAX - 10 };
    assert_eq!(check_distribution(&state, u64::MAX, 1), Err(DistributionError::IntervalNotElapsed));
}

#[test]
fn inconsistent_snapshot_is_refused() {
    assert!(query_stakers(10, vec![staker("a", 6), staker("b", 5)]).is_none());
    assert!(query_stakers(u128::MAX, vec![staker("a", u128::MAX), staker("b", 1)]).is_none());
    let snap = query_stakers(11, vec![staker("a", 6), staker("b", 5)]).unwrap();
    assert_eq!(snap.total_staked, 11);
    assert_eq!(snap.stakers.len(), 2);
}

#[test]
fn reward_share_floors_the_ratio() {
    assert_eq!(reward_share(3, 10, 4), Some(7));
    assert_eq!(reward_share(1, 15, 15), Some(1));
    assert_eq!(reward_share(7, 10, 15), Some(4));
    assert_eq!(reward_share(0, 10, 15), Some(0));
}

#[test]
fn reward_share_uses_a_wide_product() {
    let half = u128::MAX / 2;
    assert_eq!(reward_share(half, half, half), Some(half));
    assert_eq!(reward_share(u128::MAX, u128::MAX, u128::MAX), Some(u128::MAX));
}

#[test]
fn reward_share_refuses_zero_total_and_overflow() {
    assert_eq!(reward_share(5, 5, 0), None);
    assert_eq!(reward_share(u128::MAX, 2, 1), None);
}

#[test]
fn recorder_keeps_every_mint_in_order() {
    let mut state = DistributionState::new();
    let mut recorder = MintRecorder::new();
    let snap = snapshot(15, vec![staker("s1", 1), staker("s2", 7), staker("s3", 7)]);
    let res = execute(&mut state, 57600, &snap, &mut recorder, ExecuteMsg::DistributeTokens {});
    assert_eq!(res, Ok(DistributionReceipt { height: 57600, pool_a: 15, pool_b: 15, stakers_paid: 3 }));
    assert_eq!(
        recorder.mints,
        vec![
            (Asset::AssetA, "s1".to_string(), 1),
            (Asset::AssetB, "s1".to_string(), 1),
            (Asset::AssetA, "s2".to_string(), 7),
            (Asset::AssetB, "s2".to_string(), 7),
            (Asset::AssetA, "s3".to_string(), 7),
            (Asset::AssetB, "s3".to_string(), 7),
        ]
    );
    assert_eq!(state.total_distributed_a, 15);
    assert_eq!(state.total_distributed_b, 15);
    assert_eq!(state.last_distribution_height, 57600);
}

#[test]
fn no_stakers_commits_without_mints() {
    let mut state = DistributionState::new();
    let mut minter = MintRecorder::with_capacity(0);
    let res = distribute(&mut state, 57600, &snapshot(10, vec![]), &mut minter);
    assert_eq!(res, Ok(DistributionReceipt { height: 57600, pool_a: 10, pool_b: 10, stakers_paid: 0 }));
    assert_eq!(state.total_distributed_a, 10);
    assert!(minter.mints.is_empty());
}

#[test]
fn interval_check_alone() {
    let state = DistributionState { total_distributed_a: 0, total_distributed_b: 0, last_distribution_height: 5 };
    assert_eq!(check_interval(&state, 57604), Err(DistributionError::IntervalNotElapsed));
    assert_eq!(check_interval(&state, 57605), Ok(()));
}

#[test]
fn accepted_a_then_refused_b_keeps_one_mint() {
    let mut state = DistributionState::new();
    let mut minter = MintRecorder::with_capacity(1);
    let snap = snapshot(10, vec![staker("a", 5)]);
    let res = distribute(&mut state, 57600, &snap, &mut minter);
    assert_eq!(
        res,
        Err(DistributionError::MintFailure {
            staker: "a".to_string(),
            asset: Asset::AssetB,
            cause: MintError { reason: "mint capacity reached".to_string() },
        })
    );
    assert_eq!(minter.mints, vec![(Asset::AssetA, "a".to_string(), 5)]);
    assert_eq!(state, DistributionState::new());
}

#[test]
fn refused_a_issues_no_b() {
    let mut state = DistributionState::new();
    let mut minter = MintRecorder::with_capacity(0);
    let snap = snapshot(10, vec![staker("a", 5)]);
    let res = distribute(&mut state, 57600, &snap, &mut minter);
    assert_eq!(
        res,
        Err(DistributionError::MintFailure {
            staker: "a".to_string(),
            asset: Asset::AssetA,
            cause: MintError { reason: "mint capacity reached".to_string() },
        })
    );
    assert!(minter.mints.is_empty());
    assert_eq!(state, DistributionState::new());
}
