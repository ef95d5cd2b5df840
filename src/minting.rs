//! The minting capability the engine drives, and a recorder that implements
//! it by keeping every mint in order.

use vstd::prelude::*;

use crate::state::Asset;

verus! {

/// Why a minting collaborator refused a mint.
#[derive(Clone, Debug, PartialEq, Eq)]
pub struct MintError {
    pub reason: String,
}

/// The capability to mint an amount of one asset to a recipient. The engine
/// calls it once per staker and asset; `MintRecorder` implements it.
///
/// A minter has a fixed policy: whether it accepts a mint, and with what
/// reason it refuses one, depends on the mints it has accepted before.
pub trait Minter {
    /// The mints made through this capability so far, in order.
    spec fn minted(&self) -> Seq<(Asset, Seq<char>, u128)>;

    /// The policy: after the mints of `log`, the mint `e` is accepted.
    spec fn admits(&self, log: Seq<(Asset, Seq<char>, u128)>, e: (Asset, Seq<char>, u128)) -> bool;

    /// The policy: after the mints of `log`, the reason a refused `e` gives.
    spec fn refusal(&self, log: Seq<(Asset, Seq<char>, u128)>, e: (Asset, Seq<char>, u128)) -> Seq<
        char,
    >;

    /// A mint is accepted exactly where the policy admits it after the mints
    /// made so far; an accepted one is appended to `minted`, a refused one
    /// changes nothing. The policy itself never changes.
    fn mint(&mut self, asset: Asset, recipient: &String, amount: u128) -> (r: Result<(), MintError>)
        ensures
            r is Ok <==> old(self).admits(old(self).minted(), (asset, recipient@, amount)),
            r is Ok ==> final(self).minted() == old(self).minted().push((asset, recipient@, amount)),
            r is Err ==> final(self).minted() == old(self).minted(),
            r matches Err(e) ==> e.reason@ == old(self).refusal(
                old(self).minted(),
                (asset, recipient@, amount),
            ),
            forall|log: Seq<(Asset, Seq<char>, u128)>, e: (Asset, Seq<char>, u128)|
                #[trigger] final(self).admits(log, e) == old(self).admits(log, e),
            forall|log: Seq<(Asset, Seq<char>, u128)>, e: (Asset, Seq<char>, u128)|
                #[trigger] final(self).refusal(log, e) == old(self).refusal(log, e),
    ;
}

/// Where a minter with `m`'s policy, having made the mints of `base`, first
/// refuses a mint of `plan` from position `j` on, the others being accepted
/// in order; `None` where it accepts them all.
pub open spec fn first_refused<M: Minter>(
    m: M,
    base: Seq<(Asset, Seq<char>, u128)>,
    plan: Seq<(Asset, Seq<char>, u128)>,
    j: int,
) -> Option<int>
    decreases plan.len() - j,
{
    if j < 0 || j >= plan.len() {
        None
    } else if !m.admits(base + plan.take(j), plan[j]) {
        Some(j)
    } else {
        first_refused(m, base, plan, j + 1)
    }
}

/// A mint as the log sees it.
pub open spec fn mint_entry(m: (Asset, String, u128)) -> (Asset, Seq<char>, u128) {
    (m.0, m.1@, m.2)
}

/// A minter that records every mint it accepts, in order, for a host that
/// turns the mints into messages once the cycle is decided. With a capacity
/// it accepts that many mints and refuses every one after.
#[derive(Clone, Debug, PartialEq, Eq)]
pub struct MintRecorder {
    pub mints: Vec<(Asset, String, u128)>,
    pub capacity: Option<usize>,
}

impl MintRecorder {
    /// A recorder with no mint yet and no capacity limit.
    pub fn new() -> (r: MintRecorder)
        ensures
            r.mints@.len() == 0,
            r.capacity is None,
            r.minted() == Seq::<(Asset, Seq<char>, u128)>::empty(),
    {
        let r = MintRecorder { mints: Vec::new(), capacity: None };
        assert(r.minted() =~= Seq::<(Asset, Seq<char>, u128)>::empty());
        r
    }

    /// A recorder with no mint yet that accepts at most `capacity` mints.
    pub fn with_capacity(capacity: usize) -> (r: MintRecorder)
        ensures
            r.mints@.len() == 0,
            r.capacity == Some(capacity),
            r.minted() == Seq::<(Asset, Seq<char>, u128)>::empty(),
    {
        let r = MintRecorder { mints: Vec::new(), capacity: Some(capacity) };
        assert(r.minted() =~= Seq::<(Asset, Seq<char>, u128)>::empty());
        r
    }

    /// The next mint is accepted: no capacity, or room left under it.
    pub open spec fn has_room(&self) -> bool {
        match self.capacity {
            Some(c) => self.mints@.len() < c,
            None => true,
        }
    }

    /// The reason a mint beyond the capacity is refused with.
    pub open spec fn full_reason() -> Seq<char> {
        "mint capacity reached"@
    }

    /// Records one mint where there is room; refuses it otherwise.
    pub fn record(&mut self, asset: Asset, recipient: &String, amount: u128) -> (r: Result<(), MintError>)
        ensures
            r is Ok <==> old(self).has_room(),
            final(self).capacity == old(self).capacity,
            r matches Err(e) ==> e.reason@ == MintRecorder::full_reason(),
            r is Ok ==> final(self).minted() == old(self).minted().push((asset, recipient@, amount)),
            r is Err ==> *final(self) == *old(self),
    {
        match self.capacity {
            Some(c) => {
                if self.mints.len() >= c {
                    return Err(MintError { reason: String::from_str("mint capacity reached") });
                }
            },
            None => {},
        }
        let ghost before = self.minted();
        self.mints.push((asset, recipient.clone(), amount));
        assert(self.minted() =~= before.push((asset, recipient@, amount)));
        Ok(())
    }
}

impl Minter for MintRecorder {
    open spec fn minted(&self) -> Seq<(Asset, Seq<char>, u128)> {
        self.mints@.map_values(|m: (Asset, String, u128)| mint_entry(m))
    }

    open spec fn admits(&self, log: Seq<(Asset, Seq<char>, u128)>, e: (Asset, Seq<char>, u128)) -> bool {
        match self.capacity {
            Some(c) => log.len() < c,
            None => true,
        }
    }

    open spec fn refusal(&self, log: Seq<(Asset, Seq<char>, u128)>, e: (Asset, Seq<char>, u128)) -> Seq<
        char,
    > {
        MintRecorder::full_reason()
    }

    fn mint(&mut self, asset: Asset, recipient: &String, amount: u128) -> (r: Result<(), MintError>) {
        self.record(asset, recipient, amount)
    }
}

} // verus!
