use vstd::prelude::*;

pub mod backends;
pub mod fixed_tier_stub;
pub mod l2;
pub mod l4;
pub mod l5;
pub mod test;
pub mod tier_trait;

pub use tier_trait::{CacheTier, TierHealth};

use crate::time::system_now;
use tier_trait::FULL_HEALTH_SCORE;

verus! {

/// The six logical tiers, hottest (`L0`) to origin (`L5`).
#[derive(Debug, Clone, Copy, PartialEq, Eq, Structural, PartialOrd, Ord, Hash)]
pub enum TierId {
    L0,
    L1,
    L2,
    L3,
    L4,
    L5,
}

/// The position of a tier in the hierarchy, 0 for `L0` up to 5 for `L5`.
pub open spec fn tier_index(t: TierId) -> nat {
    match t {
        TierId::L0 => 0,
        TierId::L1 => 1,
        TierId::L2 => 2,
        TierId::L3 => 3,
        TierId::L4 => 4,
        TierId::L5 => 5,
    }
}

/// The tier at a position, if the position names one.
pub open spec fn tier_at(idx: int) -> Option<TierId> {
    if idx == 0 {
        Some(TierId::L0)
    } else if idx == 1 {
        Some(TierId::L1)
    } else if idx == 2 {
        Some(TierId::L2)
    } else if idx == 3 {
        Some(TierId::L3)
    } else if idx == 4 {
        Some(TierId::L4)
    } else if idx == 5 {
        Some(TierId::L5)
    } else {
        None
    }
}

/// The number of tiers.
pub const TIER_COUNT: usize = 6;

impl TierId {
    pub fn as_usize(&self) -> (i: usize)
        ensures
            i == tier_index(*self),
    {
        match self {
            TierId::L0 => 0,
            TierId::L1 => 1,
            TierId::L2 => 2,
            TierId::L3 => 3,
            TierId::L4 => 4,
            TierId::L5 => 5,
        }
    }

    pub fn from_usize(idx: usize) -> (t: Option<Self>)
        ensures
            t == tier_at(idx as int),
    {
        match idx {
            0 => Some(TierId::L0),
            1 => Some(TierId::L1),
            2 => Some(TierId::L2),
            3 => Some(TierId::L3),
            4 => Some(TierId::L4),
            5 => Some(TierId::L5),
            _ => None,
        }
    }

    /// The tier's display name, `"L0"` to `"L5"`.
    pub fn label(&self) -> (s: &'static str)
        ensures
            s@ == tier_label(*self)@,
    {
        match self {
            TierId::L0 => "L0",
            TierId::L1 => "L1",
            TierId::L2 => "L2",
            TierId::L3 => "L3",
            TierId::L4 => "L4",
            TierId::L5 => "L5",
        }
    }
}

/// The display name of a tier.
pub open spec fn tier_label(t: TierId) -> &'static str {
    match t {
        TierId::L0 => "L0",
        TierId::L1 => "L1",
        TierId::L2 => "L2",
        TierId::L3 => "L3",
        TierId::L4 => "L4",
        TierId::L5 => "L5",
    }
}

/// The tiers in hierarchy order, hottest first.
pub open spec fn all_tiers() -> Seq<TierId> {
    seq![TierId::L0, TierId::L1, TierId::L2, TierId::L3, TierId::L4, TierId::L5]
}

/// The fixed set of tiers and the circuit-breaker health of each.
#[derive(Debug)]
pub struct TierRegistry {
    tiers: Vec<TierId>,
    health: Vec<TierHealth>,
}

impl TierRegistry {
    pub closed spec fn wf(&self) -> bool {
        &&& self.tiers@ == all_tiers()
        &&& self.health@.len() == TIER_COUNT
    }

    /// The health recorded for tier `t`.
    pub closed spec fn health_of(&self, t: TierId) -> TierHealth {
        self.health@[tier_index(t) as int]
    }

    /// Only tier `t`'s health may differ between `a` and `b`.
    pub open spec fn same_except(a: TierRegistry, b: TierRegistry, t: TierId) -> bool {
        &&& b.wf()
        &&& forall|u: TierId| u != t ==> #[trigger] b.health_of(u) == a.health_of(u)
    }

    /// Every tier starts with default health.
    pub fn new() -> (r: Self)
        ensures
            r.wf(),
            forall|t: TierId|
                #[trigger] r.health_of(t).consecutive_failures == 0 && r.health_of(t).last_failure_timestamp is None
                    && r.health_of(t).health_score == 0,
    {
        let tiers: Vec<TierId> = vec![TierId::L0, TierId::L1, TierId::L2, TierId::L3, TierId::L4, TierId::L5];
        let mut health: Vec<TierHealth> = Vec::new();
        let mut i: usize = 0;
        while i < TIER_COUNT
            invariant
                i <= TIER_COUNT,
                health@.len() == i,
                forall|k: int|
                    0 <= k < i ==> #[trigger] health@[k].consecutive_failures == 0
                        && health@[k].last_failure_timestamp is None && health@[k].health_score == 0,
            decreases TIER_COUNT - i,
        {
            health.push(TierHealth::default());
            i = i + 1;
        }
        let r = TierRegistry { tiers, health };
        proof {
            assert(r.tiers@ =~= all_tiers());
            assert forall|t: TierId|
                #[trigger] r.health_of(t).consecutive_failures == 0 && r.health_of(t).last_failure_timestamp is None
                    && r.health_of(t).health_score == 0 by {
                assert(tier_index(t) < 6);
            }
        }
        r
    }

    /// The tiers, hottest first.
    pub fn all(&self) -> (s: &[TierId])
        requires
            self.wf(),
        ensures
            s@ == all_tiers(),
    {
        self.tiers.as_slice()
    }

    pub fn len(&self) -> (n: usize)
        requires
            self.wf(),
        ensures
            n == TIER_COUNT,
    {
        self.tiers.len()
    }

    pub fn is_empty(&self) -> (b: bool)
        requires
            self.wf(),
        ensures
            !b,
    {
        self.tiers.len() == 0
    }

    pub fn tier_health(&self, tier: TierId) -> (h: TierHealth)
        requires
            self.wf(),
        ensures
            h == self.health_of(tier),
    {
        self.health[tier.as_usize()]
    }

    /// `b` is `a` after a failed call against `t` was recorded: the failure
    /// streak grows by one, the failure time is kept and the score drops a
    /// tenth, not below zero; no other tier changes.
    pub open spec fn fail_post(a: TierRegistry, b: TierRegistry, t: TierId) -> bool {
        &&& Self::same_except(a, b, t)
        &&& b.health_of(t).consecutive_failures == a.health_of(t).consecutive_failures + 1
        &&& b.health_of(t).last_failure_timestamp is Some
        &&& b.health_of(t).health_score == (if a.health_of(t).health_score >= 1 {
            a.health_of(t).health_score - 1
        } else {
            0
        })
    }

    /// `b` is `a` after `t` recovered: no failure streak, no failure time,
    /// full score; no other tier changes.
    pub open spec fn recover_post(a: TierRegistry, b: TierRegistry, t: TierId) -> bool {
        &&& Self::same_except(a, b, t)
        &&& b.health_of(t).consecutive_failures == 0
        &&& b.health_of(t).last_failure_timestamp is None
        &&& b.health_of(t).health_score == FULL_HEALTH_SCORE
    }

    /// Records a failed call against `tier`: see `fail_post`.
    pub fn fail(&mut self, tier: TierId)
        requires
            old(self).wf(),
            old(self).health_of(tier).consecutive_failures < u64::MAX,
        ensures
            Self::fail_post(*old(self), *final(self), tier),
    {
        let i = tier.as_usize();
        let mut h = self.health[i];
        h.record_failure(system_now());
        self.health.set(i, h);
        proof {
            assert forall|u: TierId| u != tier implies #[trigger] self.health_of(u) == old(self).health_of(u) by {
                assert(tier_index(u) != tier_index(tier));
            }
        }
    }

    /// Resets `tier` to full health after a successful call: see
    /// `recover_post`.
    pub fn recover(&mut self, tier: TierId)
        requires
            old(self).wf(),
        ensures
            Self::recover_post(*old(self), *final(self), tier),
    {
        let i = tier.as_usize();
        let h = TierHealth {
            consecutive_failures: 0,
            last_failure_timestamp: None,
            health_score: FULL_HEALTH_SCORE,
        };
        self.health.set(i, h);
        proof {
            assert forall|u: TierId| u != tier implies #[trigger] self.health_of(u) == old(self).health_of(u) by {
                assert(tier_index(u) != tier_index(tier));
            }
        }
    }

    /// No tier's failure streak is at the largest count, so one more failure
    /// can be counted against any tier.
    pub open spec fn counters_fit(&self) -> bool {
        forall|t: TierId| #[trigger] self.health_of(t).consecutive_failures < u64::MAX
    }

    /// Whether one more failure can be counted against every tier.
    pub fn failure_counters_fit(&self) -> (b: bool)
        requires
            self.wf(),
        ensures
            b == self.counters_fit(),
    {
        let mut i: usize = 0;
        while i < TIER_COUNT
            invariant
                self.wf(),
                i <= TIER_COUNT,
                forall|t: TierId| #[trigger] tier_index(t) < i ==> self.health_of(t).consecutive_failures < u64::MAX,
            decreases TIER_COUNT - i,
        {
            if self.health[i].consecutive_failures == u64::MAX {
                proof {
                    let t = tier_at(i as int)->0;
                    assert(tier_index(t) == i);
                    assert(self.health_of(t).consecutive_failures == u64::MAX);
                }
                return false;
            }
            proof {
                assert forall|t: TierId| #[trigger] tier_index(t) < i + 1 implies self.health_of(t).consecutive_failures < u64::MAX by {
                    if tier_index(t) == i {
                        assert(self.health_of(t) == self.health@[i as int]);
                    }
                }
            }
            i = i + 1;
        }
        proof {
            assert forall|t: TierId| #[trigger] self.health_of(t).consecutive_failures < u64::MAX by {
                assert(tier_index(t) < TIER_COUNT);
            }
        }
        true
    }

    pub fn is_circuit_open(&self, tier: TierId) -> (b: bool)
        requires
            self.wf(),
        ensures
            b == self.health_of(tier).circuit_open(),
    {
        self.health[tier.as_usize()].is_circuit_open()
    }

    /// The first tier, hottest first, other than `exclude` whose circuit is
    /// closed.
    pub fn try_fallback_tier(&self, exclude: TierId) -> (r: Option<TierId>)
        requires
            self.wf(),
        ensures
            match r {
                Some(t) => {
                    &&& t != exclude
                    &&& !self.health_of(t).circuit_open()
                    &&& forall|u: TierId|
                        #[trigger] tier_index(u) < tier_index(t) && u != exclude ==> self.health_of(u).circuit_open()
                },
                None => forall|u: TierId| u != exclude ==> #[trigger] self.health_of(u).circuit_open(),
            },
    {
        let mut i: usize = 0;
        while i < self.tiers.len()
            invariant
                self.wf(),
                i <= TIER_COUNT,
                forall|u: TierId|
                    #[trigger] tier_index(u) < i && u != exclude ==> self.health_of(u).circuit_open(),
            decreases TIER_COUNT - i,
        {
            let tier = self.tiers[i];
            proof {
                assert(tier == all_tiers()[i as int]);
                assert(tier_index(tier) == i);
            }
            if tier != exclude && !self.is_circuit_open(tier) {
                return Some(tier);
            }
            i = i + 1;
        }
        None
    }
}

impl Default for TierRegistry {
    fn default() -> (r: Self)
        ensures
            r.wf(),
            forall|t: TierId|
                #[trigger] r.health_of(t).consecutive_failures == 0 && r.health_of(t).last_failure_timestamp is None
                    && r.health_of(t).health_score == 0,
    {
        Self::new()
    }
}

/// The circuit breaker: starting from a tier with no failure streak, the
/// circuit stays closed through four consecutive recorded failures and opens
/// at the fifth.
pub proof fn lemma_five_failures_open_circuit(rs: Seq<TierRegistry>, t: TierId)
    requires
        rs.len() == 6,
        rs[0].health_of(t).consecutive_failures == 0,
        forall|i: int| 0 <= i < 5 ==> TierRegistry::fail_post(#[trigger] rs[i], rs[i + 1], t),
    ensures
        forall|i: int| 0 <= i < 5 ==> !(#[trigger] rs[i].health_of(t).circuit_open()),
        rs[5].health_of(t).circuit_open(),
{
    let r0 = rs[0];
    let r1 = rs[1];
    let r2 = rs[2];
    let r3 = rs[3];
    let r4 = rs[4];
    assert(r1.health_of(t).consecutive_failures == 1);
    assert(r2.health_of(t).consecutive_failures == 2);
    assert(r3.health_of(t).consecutive_failures == 3);
    assert(r4.health_of(t).consecutive_failures == 4);
    assert(rs[5].health_of(t).consecutive_failures == 5);
}

/// A recovered tier's circuit is closed, whatever its streak was.
pub proof fn lemma_recover_closes_circuit(a: TierRegistry, b: TierRegistry, t: TierId)
    requires
        TierRegistry::recover_post(a, b, t),
    ensures
        !b.health_of(t).circuit_open(),
{
}

/// A tier's position and the tier at that position name each other.
pub proof fn lemma_tier_index_roundtrip(t: TierId)
    ensures
        tier_at(tier_index(t) as int) == Some(t),
        tier_index(t) < TIER_COUNT,
{
}

} // verus!
