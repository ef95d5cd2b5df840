//! What the staking source reports for one distribution: the total stake and
//! each staker's balance, in its order.

use vstd::prelude::*;

verus! {

/// One staker and its staked balance.
#[derive(Clone, Debug, PartialEq, Eq)]
pub struct StakerSnapshot {
    pub staker: String,
    pub balance: u128,
}

/// The sum of the balances of `s`.
pub open spec fn balances_sum(s: Seq<StakerSnapshot>) -> int
    decreases s.len(),
{
    if s.len() == 0 {
        0
    } else {
        balances_sum(s.drop_last()) + s.last().balance
    }
}

/// A consistent answer of the staking source: its reported total and the
/// stakers with their balances, in the source's order.
#[derive(Clone, Debug, PartialEq, Eq)]
pub struct StakingSnapshot {
    pub total_staked: u128,
    pub stakers: Vec<StakerSnapshot>,
}

impl StakingSnapshot {
    /// The balances add up to no more than the reported total.
    pub open spec fn wf(&self) -> bool {
        balances_sum(self.stakers@) <= self.total_staked
    }
}

/// A sum over a prefix never exceeds the sum over the whole sequence.
pub proof fn lemma_balances_sum_prefix(s: Seq<StakerSnapshot>, i: int)
    requires
        0 <= i <= s.len(),
    ensures
        balances_sum(s.take(i)) <= balances_sum(s),
    decreases s.len(),
{
    if i < s.len() {
        assert(s.drop_last().take(i) == s.take(i));
        lemma_balances_sum_prefix(s.drop_last(), i);
    } else {
        assert(s.take(i) == s);
    }
}

/// Builds the snapshot of one distribution from the staking source's answer.
/// It is refused (`None`) where the balances add up to more than the total.
pub fn query_stakers(total_staked: u128, stakers: Vec<StakerSnapshot>) -> (r: Option<
    StakingSnapshot,
>)
    ensures
        r is Some <==> balances_sum(stakers@) <= total_staked,
        r matches Some(snap) ==> snap.total_staked == total_staked && snap.stakers@ == stakers@
            && snap.wf(),
{
    let mut sum: u128 = 0;
    let mut i: usize = 0;
    while i < stakers.len()
        invariant
            i <= stakers@.len(),
            sum as int == balances_sum(stakers@.take(i as int)),
            sum <= total_staked,
        decreases stakers@.len() - i,
    {
        assert(stakers@.take(i as int + 1).drop_last() == stakers@.take(i as int));
        if stakers[i].balance > total_staked - sum {
            proof {
                lemma_balances_sum_prefix(stakers@, i as int + 1);
            }
            return None;
        }
        sum = sum + stakers[i].balance;
        i = i + 1;
    }
    assert(stakers@.take(i as int) == stakers@);
    Some(StakingSnapshot { total_staked, stakers })
}

} // verus!
