//! Properties of the engine over single cycles and over whole histories of
//! cycles.

use vstd::prelude::*;

use crate::engine::{
    gate_error, lemma_share_fits, next_state, planned_mints, pool_of, reward_amount,
};
use crate::ratio::ratio_of;
use crate::snapshot::{StakerSnapshot, StakingSnapshot, balances_sum};
use crate::state::{Asset, DISTRIBUTION_INTERVAL, DistributionState};

verus! {

/// One attempted cycle as the counters see it: the height it ran at, the
/// total stake reported, and whether every mint it issued succeeded.
pub struct CycleEvent {
    pub height: u64,
    pub total_staked: u128,
    pub minted_all: bool,
}

/// The counters after the cycles of `events`, in order, starting from `s`.
pub open spec fn run(s: DistributionState, events: Seq<CycleEvent>) -> DistributionState
    decreases events.len(),
{
    if events.len() == 0 {
        s
    } else {
        let e = events.last();
        next_state(run(s, events.drop_last()), e.height, e.total_staked, e.minted_all)
    }
}

/// Cycle `k` of `events` committed.
pub open spec fn committed_at(s: DistributionState, events: Seq<CycleEvent>, k: int) -> bool {
    let e = events[k];
    &&& gate_error(run(s, events.take(k)), e.height, e.total_staked) is None
    &&& e.minted_all
}

/// The sum of the floored shares of `pool` over `stakers`.
pub open spec fn rewards_sum(stakers: Seq<StakerSnapshot>, pool: u128, total: u128) -> int
    decreases stakers.len(),
{
    if stakers.len() == 0 {
        0
    } else {
        rewards_sum(stakers.drop_last(), pool, total) + ratio_of(stakers.last().balance, pool, total)
    }
}

/// Cap invariant: from counters within their caps, any sequence of cycles,
/// committed or refused, leaves both counters within their caps.
pub proof fn lemma_caps_hold(s: DistributionState, events: Seq<CycleEvent>)
    requires
        s.wf(),
    ensures
        run(s, events).wf(),
    decreases events.len(),
{
    if events.len() > 0 {
        lemma_caps_hold(s, events.drop_last());
    }
}

/// After cycle `i` commits, the recorded height never falls below its height.
proof fn lemma_height_stays_past(s: DistributionState, events: Seq<CycleEvent>, i: int, k: int)
    requires
        0 <= i < k <= events.len(),
        committed_at(s, events, i),
    ensures
        run(s, events.take(k)).last_distribution_height >= events[i].height,
    decreases k - i,
{
    let pre = events.take(k - 1);
    assert(events.take(k).drop_last() == pre);
    if k == i + 1 {
    } else {
        lemma_height_stays_past(s, events, i, k - 1);
    }
}

/// Interval monotonicity: of two committed cycles of one history, the later
/// one ran at least one distribution interval after the earlier one.
pub proof fn lemma_interval_between_commits(
    s: DistributionState,
    events: Seq<CycleEvent>,
    i: int,
    j: int,
)
    requires
        0 <= i < j < events.len(),
        committed_at(s, events, i),
        committed_at(s, events, j),
    ensures
        events[j].height >= events[i].height + DISTRIBUTION_INTERVAL,
{
    lemma_height_stays_past(s, events, i, j);
}

/// Proportionality: where the balances add up to no more than the total
/// stake, the floored shares of a pool add up to no more than the pool.
pub proof fn lemma_rewards_within_pool(stakers: Seq<StakerSnapshot>, pool: u128, total: u128)
    requires
        total > 0,
        balances_sum(stakers) <= total,
    ensures
        rewards_sum(stakers, pool, total) <= pool,
{
    lemma_rewards_sum_scaled(stakers, pool, total);
    let r = rewards_sum(stakers, pool, total);
    let b = balances_sum(stakers);
    assert(b * pool <= total * pool) by (nonlinear_arith)
        requires
            b <= total,
            pool >= 0,
    ;
    assert(r <= pool) by (nonlinear_arith)
        requires
            r * total <= total * pool,
            total > 0,
    ;
}

/// The shares, scaled back by the total, never exceed the balances times the
/// pool.
proof fn lemma_rewards_sum_scaled(stakers: Seq<StakerSnapshot>, pool: u128, total: u128)
    requires
        total > 0,
    ensures
        rewards_sum(stakers, pool, total) * total <= balances_sum(stakers) * pool,
    decreases stakers.len(),
{
    if stakers.len() > 0 {
        let rest = stakers.drop_last();
        lemma_rewards_sum_scaled(rest, pool, total);
        let x = stakers.last().balance as int * pool as int;
        let q = x / (total as int);
        vstd::arithmetic::div_mod::lemma_fundamental_div_mod(x, total as int);
        vstd::arithmetic::div_mod::lemma_mod_pos_bound(x, total as int);
        let r0 = rewards_sum(rest, pool, total);
        let b0 = balances_sum(rest);
        let bl = stakers.last().balance as int;
        assert((r0 + q) * total <= (b0 + bl) * pool) by (nonlinear_arith)
            requires
                r0 * total <= b0 * pool,
                q * total <= x,
                x == bl * pool,
        ;
    }
}

/// The total amount of `asset` in a sequence of mints.
pub open spec fn minted_sum(mints: Seq<(Asset, Seq<char>, u128)>, asset: Asset) -> int
    decreases mints.len(),
{
    if mints.len() == 0 {
        0
    } else {
        minted_sum(mints.drop_last(), asset) + if mints.last().0 == asset {
            mints.last().2 as int
        } else {
            0
        }
    }
}

/// The planned mints of each asset add up to the floored shares of the pool.
proof fn lemma_planned_sum(stakers: Seq<StakerSnapshot>, total: u128)
    requires
        total > 0,
    ensures
        minted_sum(planned_mints(stakers, total), Asset::AssetA) == rewards_sum(stakers, total, total),
        minted_sum(planned_mints(stakers, total), Asset::AssetB) == rewards_sum(stakers, total, total),
    decreases stakers.len(),
{
    if stakers.len() > 0 {
        let rest = stakers.drop_last();
        let s = stakers.last();
        lemma_planned_sum(rest, total);
        lemma_share_fits(s.balance, total, total);
        let q = planned_mints(rest, total);
        let amount = reward_amount(s.balance, total);
        let qa = q.push((Asset::AssetA, s.staker@, amount));
        let p = qa.push((Asset::AssetB, s.staker@, amount));
        assert(p.drop_last() == qa);
        assert(qa.drop_last() == q);
        assert(planned_mints(stakers, total) == p);
        assert(amount as int == ratio_of(s.balance, total, total));
        assert(minted_sum(qa, Asset::AssetA) == minted_sum(q, Asset::AssetA) + amount);
        assert(minted_sum(p, Asset::AssetA) == minted_sum(qa, Asset::AssetA));
        assert(minted_sum(qa, Asset::AssetB) == minted_sum(q, Asset::AssetB));
        assert(minted_sum(p, Asset::AssetB) == minted_sum(qa, Asset::AssetB) + amount);
    }
}

/// Proportionality of the mints: for a consistent snapshot with a positive
/// total, the amounts a cycle mints of each asset add up to no more than that
/// asset's pool.
pub proof fn lemma_minted_within_pool(snapshot: StakingSnapshot)
    requires
        snapshot.total_staked > 0,
        snapshot.wf(),
    ensures
        minted_sum(planned_mints(snapshot.stakers@, snapshot.total_staked), Asset::AssetA) <= pool_of(
            snapshot.total_staked,
        ),
        minted_sum(planned_mints(snapshot.stakers@, snapshot.total_staked), Asset::AssetB) <= pool_of(
            snapshot.total_staked,
        ),
{
    let t = snapshot.total_staked;
    lemma_planned_sum(snapshot.stakers@, t);
    lemma_rewards_within_pool(snapshot.stakers@, t, t);
}

} // verus!
