//! One all-or-nothing distribution cycle: the height gate, the stake and cap
//! checks, the per-staker rewards, the mints and the commit of the counters.

use vstd::prelude::*;

use crate::minting::{MintError, Minter, first_refused};
use crate::msg::{ExecuteMsg, InstantiateMsg};
use crate::ratio::{checked_multiply_ratio, ratio_of};
use crate::snapshot::{StakerSnapshot, StakingSnapshot};
use crate::state::{Asset, CAP_A, CAP_B, Config, DISTRIBUTION_INTERVAL, DistributionState};

verus! {

/// Why a distribution cycle did not commit.
#[derive(Clone, Debug, PartialEq, Eq)]
pub enum DistributionError {
    IntervalNotElapsed,
    NoStakeToDistribute,
    CapExceeded { asset: Asset },
    MintFailure { staker: String, asset: Asset, cause: MintError },
}

/// What a committed cycle reports.
#[derive(Clone, Copy, Debug, PartialEq, Eq, Structural)]
pub struct DistributionReceipt {
    pub height: u64,
    pub pool_a: u128,
    pub pool_b: u128,
    pub stakers_paid: usize,
}

/// The rewards of one staker in one cycle.
#[derive(Clone, Debug, PartialEq, Eq)]
pub struct StakerReward {
    pub staker: String,
    pub amount_a: u128,
    pub amount_b: u128,
}

/// The reward pool of each asset for one cycle: the total stake itself.
pub open spec fn pool_of(total_staked: u128) -> u128 {
    total_staked
}

/// `current_height` is at least one interval past the last distribution.
pub open spec fn interval_elapsed(last: u64, current_height: u64) -> bool {
    current_height as int >= last as int + DISTRIBUTION_INTERVAL as int
}

/// The first gate that refuses a cycle, in the order the engine checks them,
/// or `None` where every gate lets it through.
pub open spec fn gate_error(s: DistributionState, current_height: u64, total_staked: u128) -> Option<
    DistributionError,
> {
    if !interval_elapsed(s.last_distribution_height, current_height) {
        Some(DistributionError::IntervalNotElapsed)
    } else if total_staked == 0 {
        Some(DistributionError::NoStakeToDistribute)
    } else if s.total_distributed_a + pool_of(total_staked) > CAP_A {
        Some(DistributionError::CapExceeded { asset: Asset::AssetA })
    } else if s.total_distributed_b + pool_of(total_staked) > CAP_B {
        Some(DistributionError::CapExceeded { asset: Asset::AssetB })
    } else {
        None
    }
}

/// The counters after a committed cycle.
pub open spec fn committed(s: DistributionState, current_height: u64, total_staked: u128) -> DistributionState {
    DistributionState {
        total_distributed_a: (s.total_distributed_a + pool_of(total_staked)) as u128,
        total_distributed_b: (s.total_distributed_b + pool_of(total_staked)) as u128,
        last_distribution_height: current_height,
    }
}

/// The counters after one cycle: committed where the gates let it through and
/// every mint succeeded, unchanged otherwise.
pub open spec fn next_state(
    s: DistributionState,
    current_height: u64,
    total_staked: u128,
    minted_all: bool,
) -> DistributionState {
    if gate_error(s, current_height, total_staked) is None && minted_all {
        committed(s, current_height, total_staked)
    } else {
        s
    }
}

/// The amount of either asset owed to `balance` when the pool is the total
/// stake.
pub open spec fn reward_amount(balance: u128, total_staked: u128) -> u128 {
    ratio_of(balance, pool_of(total_staked), total_staked) as u128
}

/// The mints of one cycle, in the order the engine issues them: for each
/// staker in snapshot order, its reward of asset A and then of asset B.
pub open spec fn planned_mints(stakers: Seq<StakerSnapshot>, total_staked: u128) -> Seq<
    (Asset, Seq<char>, u128),
>
    decreases stakers.len(),
{
    if stakers.len() == 0 {
        Seq::empty()
    } else {
        let s = stakers.last();
        let amount = reward_amount(s.balance, total_staked);
        planned_mints(stakers.drop_last(), total_staked).push((Asset::AssetA, s.staker@, amount)).push(
            (Asset::AssetB, s.staker@, amount),
        )
    }
}

/// The plan has two mints per staker; the plan of the first `i` stakers is
/// the first `2 * i` mints of the whole plan, and staker `i`'s two mints
/// stand at `2 * i` and `2 * i + 1`.
pub proof fn lemma_planned_mints_prefix(stakers: Seq<StakerSnapshot>, total_staked: u128, i: int)
    requires
        0 <= i <= stakers.len(),
    ensures
        planned_mints(stakers, total_staked).len() == 2 * stakers.len(),
        planned_mints(stakers.take(i), total_staked) == planned_mints(stakers, total_staked).take(2 * i),
        i < stakers.len() ==> planned_mints(stakers, total_staked)[2 * i] == (
            Asset::AssetA,
            stakers[i].staker@,
            reward_amount(stakers[i].balance, total_staked),
        ),
        i < stakers.len() ==> planned_mints(stakers, total_staked)[2 * i + 1] == (
            Asset::AssetB,
            stakers[i].staker@,
            reward_amount(stakers[i].balance, total_staked),
        ),
    decreases stakers.len(),
{
    let p = planned_mints(stakers, total_staked);
    if stakers.len() == 0 {
        assert(stakers.take(i) == stakers);
        assert(p.take(0) =~= p);
    } else {
        let rest = stakers.drop_last();
        let q = planned_mints(rest, total_staked);
        if i == stakers.len() {
            lemma_planned_mints_prefix(rest, total_staked, 0);
            assert(stakers.take(i) == stakers);
            assert(p.take(2 * i) =~= p);
        } else {
            lemma_planned_mints_prefix(rest, total_staked, i);
            assert(rest.take(i) == stakers.take(i));
            assert(p.take(2 * i) =~= q.take(2 * i));
        }
    }
}

/// Adding the plan of staker `i` to the plan of the stakers before it.
proof fn lemma_planned_mints_step(stakers: Seq<StakerSnapshot>, total_staked: u128, i: int)
    requires
        0 <= i < stakers.len(),
    ensures
        planned_mints(stakers.take(i + 1), total_staked) == planned_mints(stakers.take(i), total_staked).push(
            (Asset::AssetA, stakers[i].staker@, reward_amount(stakers[i].balance, total_staked)),
        ).push((Asset::AssetB, stakers[i].staker@, reward_amount(stakers[i].balance, total_staked))),
{
    assert(stakers.take(i + 1).drop_last() == stakers.take(i));
}

/// Checks that at least one distribution interval has passed since the last
/// committed cycle.
pub fn check_interval(state: &DistributionState, current_height: u64) -> (r: Result<(), DistributionError>)
    ensures
        r is Ok <==> interval_elapsed(state.last_distribution_height, current_height),
        r is Err ==> r == Err::<(), DistributionError>(DistributionError::IntervalNotElapsed),
{
    if current_height < state.last_distribution_height || current_height
        - state.last_distribution_height < DISTRIBUTION_INTERVAL {
        Err(DistributionError::IntervalNotElapsed)
    } else {
        Ok(())
    }
}

/// Evaluates the gates of a cycle, before any side effect.
pub fn check_distribution(state: &DistributionState, current_height: u64, total_staked: u128) -> (r:
    Result<(), DistributionError>)
    ensures
        r == match gate_error(*state, current_height, total_staked) {
            Some(e) => Err(e),
            None => Ok(()),
        },
{
    if check_interval(state, current_height).is_err() {
        return Err(DistributionError::IntervalNotElapsed);
    }
    if total_staked == 0 {
        return Err(DistributionError::NoStakeToDistribute);
    }
    if state.total_distributed_a > CAP_A || total_staked > CAP_A - state.total_distributed_a {
        return Err(DistributionError::CapExceeded { asset: Asset::AssetA });
    }
    if state.total_distributed_b > CAP_B || total_staked > CAP_B - state.total_distributed_b {
        return Err(DistributionError::CapExceeded { asset: Asset::AssetB });
    }
    Ok(())
}

/// The share of `pool` owed to `balance` out of `total_staked`, rounded
/// down and computed without intermediate overflow. `None` where the total is
/// zero or the share does not fit in 128 bits.
pub fn reward_share(balance: u128, pool: u128, total_staked: u128) -> (r: Option<u128>)
    ensures
        r is Some <==> total_staked > 0 && ratio_of(balance, pool, total_staked) <= u128::MAX,
        r matches Some(v) ==> v as int == ratio_of(balance, pool, total_staked),
{
    checked_multiply_ratio(balance, pool, total_staked)
}

/// A share of a pool no larger than the total always fits.
pub proof fn lemma_share_fits(balance: u128, pool: u128, total_staked: u128)
    requires
        total_staked > 0,
        pool <= total_staked,
    ensures
        0 <= ratio_of(balance, pool, total_staked) <= balance,
{
    assert(0 <= balance as int * pool as int) by (nonlinear_arith);
    vstd::arithmetic::div_mod::lemma_div_pos_is_pos(balance as int * pool as int, total_staked as int);
    assert(balance as int * pool as int <= total_staked as int * balance as int) by (nonlinear_arith)
        requires
            pool <= total_staked,
    ;
    vstd::arithmetic::div_mod::lemma_div_multiples_vanish(balance as int, total_staked as int);
    vstd::arithmetic::div_mod::lemma_div_is_ordered(
        balance as int * pool as int,
        total_staked as int * balance as int,
        total_staked as int,
    );
}

/// The share of a pool no larger than the total.
fn share_within(balance: u128, pool: u128, total_staked: u128) -> (r: u128)
    requires
        total_staked > 0,
        pool <= total_staked,
    ensures
        r as int == ratio_of(balance, pool, total_staked),
{
    proof {
        lemma_share_fits(balance, pool, total_staked);
    }
    match reward_share(balance, pool, total_staked) {
        Some(v) => v,
        None => {
            proof {
                assert(false);
            }
            0
        },
    }
}

/// Each staker's reward of both assets, in snapshot order:
/// `floor(balance * pool / total_staked)` with the pool equal to the total.
pub fn staker_rewards(snapshot: &StakingSnapshot) -> (r: Vec<StakerReward>)
    requires
        snapshot.total_staked > 0,
    ensures
        r@.len() == snapshot.stakers@.len(),
        forall|i: int|
            #![trigger r@[i]]
            0 <= i < r@.len() ==> {
                &&& r@[i].staker@ == snapshot.stakers@[i].staker@
                &&& r@[i].amount_a as int == ratio_of(
                    snapshot.stakers@[i].balance,
                    pool_of(snapshot.total_staked),
                    snapshot.total_staked,
                )
                &&& r@[i].amount_b as int == ratio_of(
                    snapshot.stakers@[i].balance,
                    pool_of(snapshot.total_staked),
                    snapshot.total_staked,
                )
            },
{
    let total = snapshot.total_staked;
    let pool_a = total;
    let pool_b = total;
    let mut r: Vec<StakerReward> = Vec::new();
    let mut i: usize = 0;
    while i < snapshot.stakers.len()
        invariant
            i <= snapshot.stakers@.len(),
            total == snapshot.total_staked,
            total > 0,
            pool_a == total,
            pool_b == total,
            r@.len() == i,
            forall|j: int|
                #![trigger r@[j]]
                0 <= j < i ==> {
                    &&& r@[j].staker@ == snapshot.stakers@[j].staker@
                    &&& r@[j].amount_a as int == ratio_of(snapshot.stakers@[j].balance, total, total)
                    &&& r@[j].amount_b as int == ratio_of(snapshot.stakers@[j].balance, total, total)
                },
        decreases snapshot.stakers@.len() - i,
    {
        let entry: &StakerSnapshot = &snapshot.stakers[i];
        let amount_a = share_within(entry.balance, pool_a, total);
        let amount_b = share_within(entry.balance, pool_b, total);
        r.push(StakerReward { staker: entry.staker.clone(), amount_a, amount_b });
        i = i + 1;
    }
    r
}

/// Runs one distribution cycle at `current_height` over `snapshot`.
///
/// The gates are checked first, and a refused cycle neither mints nor
/// changes a counter. Then each staker, in snapshot order, is minted its
/// reward of asset A and then of asset B. A refused mint ends the cycle with
/// `MintFailure`: mints already made stay, and the counters are left as they
/// were. Once every mint succeeded, both counters grow by their pool and the
/// height is recorded.
pub fn distribute<M: Minter>(
    state: &mut DistributionState,
    current_height: u64,
    snapshot: &StakingSnapshot,
    minter: &mut M,
) -> (r: Result<DistributionReceipt, DistributionError>)
    ensures
        *final(state) == next_state(*old(state), current_height, snapshot.total_staked, r is Ok),
        r is Ok ==> gate_error(*old(state), current_height, snapshot.total_staked) is None,
        gate_error(*old(state), current_height, snapshot.total_staked) matches Some(e) ==> r == Err::<
            DistributionReceipt,
            DistributionError,
        >(e) && *final(state) == *old(state) && *final(minter) == *old(minter),
        final(state).last_distribution_height != old(state).last_distribution_height ==> r is Ok,
        r matches Ok(receipt) ==> receipt == (DistributionReceipt {
            height: current_height,
            pool_a: pool_of(snapshot.total_staked),
            pool_b: pool_of(snapshot.total_staked),
            stakers_paid: snapshot.stakers@.len() as usize,
        }),
        r matches Err(e) ==> e is MintFailure || gate_error(
            *old(state),
            current_height,
            snapshot.total_staked,
        ) == Some(e),
        r is Ok ==> final(state).wf(),
        gate_error(*old(state), current_height, snapshot.total_staked) is None
            && snapshot.stakers@.len() == 0 ==> r is Ok,
        r is Ok ==> final(minter).minted() == old(minter).minted() + planned_mints(
            snapshot.stakers@,
            snapshot.total_staked,
        ),
        gate_error(*old(state), current_height, snapshot.total_staked) is None ==> {
            let plan = planned_mints(snapshot.stakers@, snapshot.total_staked);
            let base = old(minter).minted();
            match first_refused(*old(minter), base, plan, 0) {
                None => r is Ok && final(minter).minted() == base + plan,
                Some(k) => 0 <= k < plan.len() && final(minter).minted() == base + plan.take(k) && (
                r matches Err(DistributionError::MintFailure { staker, asset, cause })
                    && staker@ == plan[k].1 && asset == plan[k].0 && cause.reason@ == old(
                    minter,
                ).refusal(base + plan.take(k), plan[k])),
            }
        },
{
    match check_distribution(state, current_height, snapshot.total_staked) {
        Err(e) => {
            return Err(e);
        },
        Ok(()) => {},
    }
    let total = snapshot.total_staked;
    let rewards = staker_rewards(snapshot);
    let ghost m0 = *minter;
    let ghost base = minter.minted();
    let ghost plan = planned_mints(snapshot.stakers@, total);
    proof {
        lemma_planned_mints_prefix(snapshot.stakers@, total, 0);
        assert(plan.take(0) =~= Seq::<(Asset, Seq<char>, u128)>::empty());
        assert(base + plan.take(0) =~= base);
    }
    let mut i: usize = 0;
    while i < rewards.len()
        invariant
            i <= rewards@.len(),
            rewards@.len() == snapshot.stakers@.len(),
            *state == *old(state),
            total == snapshot.total_staked,
            gate_error(*old(state), current_height, total) is None,
            forall|j: int|
                #![trigger rewards@[j]]
                0 <= j < rewards@.len() ==> {
                    &&& rewards@[j].staker@ == snapshot.stakers@[j].staker@
                    &&& rewards@[j].amount_a == reward_amount(snapshot.stakers@[j].balance, total)
                    &&& rewards@[j].amount_b == reward_amount(snapshot.stakers@[j].balance, total)
                },
            minter.minted() == old(minter).minted() + planned_mints(
                snapshot.stakers@.take(i as int),
                total,
            ),
            m0 == *old(minter),
            base == old(minter).minted(),
            plan == planned_mints(snapshot.stakers@, total),
            plan.len() == 2 * snapshot.stakers@.len(),
            minter.minted() == base + plan.take(2 * i),
            first_refused(m0, base, plan, 0) == first_refused(m0, base, plan, 2 * i),
            forall|log: Seq<(Asset, Seq<char>, u128)>, e: (Asset, Seq<char>, u128)|
                #[trigger] minter.admits(log, e) == m0.admits(log, e),
            forall|log: Seq<(Asset, Seq<char>, u128)>, e: (Asset, Seq<char>, u128)|
                #[trigger] minter.refusal(log, e) == m0.refusal(log, e),
        decreases rewards@.len() - i,
    {
        let reward: &StakerReward = &rewards[i];
        let ghost log = minter.minted();
        proof {
            let stakers = snapshot.stakers@;
            lemma_planned_mints_step(stakers, total, i as int);
            lemma_planned_mints_prefix(stakers, total, i as int);
            lemma_planned_mints_prefix(stakers, total, i as int + 1);
            let plan = planned_mints(stakers, total);
            assert(plan.take(2 * i + 1) =~= plan.take(2 * i).push(plan[2 * i]));
            assert(log + plan.take(2 * i).push(plan[2 * i]) =~= (log + plan.take(2 * i)).push(
                plan[2 * i],
            ));
            assert(plan[2 * i] == (Asset::AssetA, reward.staker@, reward.amount_a));
            assert(plan[2 * i + 1] == (Asset::AssetB, reward.staker@, reward.amount_b));
        }
        match minter.mint(Asset::AssetA, &reward.staker, reward.amount_a) {
            Err(cause) => {
                assert(first_refused(m0, base, plan, 2 * i) == Some(2 * i as int));
                return Err(
                    DistributionError::MintFailure {
                        staker: reward.staker.clone(),
                        asset: Asset::AssetA,
                        cause,
                    },
                );
            },
            Ok(()) => {},
        }
        assert(first_refused(m0, base, plan, 2 * i) == first_refused(m0, base, plan, 2 * i + 1));
        assert(minter.minted() == base + plan.take(2 * i + 1));
        match minter.mint(Asset::AssetB, &reward.staker, reward.amount_b) {
            Err(cause) => {
                assert(first_refused(m0, base, plan, 2 * i + 1) == Some(2 * i as int + 1));
                return Err(
                    DistributionError::MintFailure {
                        staker: reward.staker.clone(),
                        asset: Asset::AssetB,
                        cause,
                    },
                );
            },
            Ok(()) => {},
        }
        proof {
            let stakers = snapshot.stakers@;
            let plan = planned_mints(stakers, total);
            let p = planned_mints(stakers.take(i as int), total);
            assert(log + p.push(plan[2 * i]).push(plan[2 * i + 1]) =~= (log + p).push(plan[2 * i]).push(
                plan[2 * i + 1],
            ));
            assert(first_refused(m0, base, plan, 2 * i + 1) == first_refused(m0, base, plan, 2 * i + 2));
            lemma_planned_mints_prefix(stakers, total, i as int + 1);
        }
        i = i + 1;
    }
    proof {
        assert(snapshot.stakers@.take(i as int) == snapshot.stakers@);
        assert(plan.take(2 * i) =~= plan);
        assert(first_refused(m0, base, plan, 2 * i) is None);
    }
    state.total_distributed_a = state.total_distributed_a + total;
    state.total_distributed_b = state.total_distributed_b + total;
    state.last_distribution_height = current_height;
    Ok(DistributionReceipt { height: current_height, pool_a: total, pool_b: total, stakers_paid: rewards.len() })
}

/// Dispatches an execute message; a distribution request runs one cycle.
pub fn execute<M: Minter>(
    state: &mut DistributionState,
    current_height: u64,
    snapshot: &StakingSnapshot,
    minter: &mut M,
    msg: ExecuteMsg,
) -> (r: Result<DistributionReceipt, DistributionError>)
    ensures
        *final(state) == next_state(*old(state), current_height, snapshot.total_staked, r is Ok),
        r is Ok ==> gate_error(*old(state), current_height, snapshot.total_staked) is None,
        gate_error(*old(state), current_height, snapshot.total_staked) matches Some(e) ==> r == Err::<
            DistributionReceipt,
            DistributionError,
        >(e) && *final(state) == *old(state) && *final(minter) == *old(minter),
        final(state).last_distribution_height != old(state).last_distribution_height ==> r is Ok,
        r matches Ok(receipt) ==> receipt == (DistributionReceipt {
            height: current_height,
            pool_a: pool_of(snapshot.total_staked),
            pool_b: pool_of(snapshot.total_staked),
            stakers_paid: snapshot.stakers@.len() as usize,
        }),
        r matches Err(e) ==> e is MintFailure || gate_error(
            *old(state),
            current_height,
            snapshot.total_staked,
        ) == Some(e),
        r is Ok ==> final(state).wf(),
        gate_error(*old(state), current_height, snapshot.total_staked) is None
            && snapshot.stakers@.len() == 0 ==> r is Ok,
        r is Ok ==> final(minter).minted() == old(minter).minted() + planned_mints(
            snapshot.stakers@,
            snapshot.total_staked,
        ),
        gate_error(*old(state), current_height, snapshot.total_staked) is None ==> {
            let plan = planned_mints(snapshot.stakers@, snapshot.total_staked);
            let base = old(minter).minted();
            match first_refused(*old(minter), base, plan, 0) {
                None => r is Ok && final(minter).minted() == base + plan,
                Some(k) => 0 <= k < plan.len() && final(minter).minted() == base + plan.take(k) && (
                r matches Err(DistributionError::MintFailure { staker, asset, cause })
                    && staker@ == plan[k].1 && asset == plan[k].0 && cause.reason@ == old(
                    minter,
                ).refusal(base + plan.take(k), plan[k])),
            }
        },
{
    match msg {
        ExecuteMsg::DistributeTokens {  } => distribute(state, current_height, snapshot, minter),
    }
}

/// Sets the engine up: records the collaborators' addresses and starts every
/// counter at zero.
pub fn instantiate(msg: InstantiateMsg) -> (r: (Config, DistributionState))
    ensures
        r.0.asset_a@ == msg.liquid_prysm_address@,
        r.0.asset_b@ == msg.liquid_btc_address@,
        r.0.staking_source@ == msg.staking_contract_address@,
        r.1 == DistributionState::initial(),
        r.1.wf(),
{
    let config = Config {
        asset_a: msg.liquid_prysm_address,
        asset_b: msg.liquid_btc_address,
        staking_source: msg.staking_contract_address,
    };
    (config, DistributionState::new())
}

} // verus!
