use vstd::prelude::*;

use crate::error::CacheError;
use crate::key::KeyRef;
use crate::tier::fixed_tier_stub::{removal_leaves, write_leaves, FixedTierStub};
use crate::tier::tier_trait::{CacheTier, TierHealth, CIRCUIT_OPEN_FAILURES, FULL_HEALTH_SCORE};
use crate::tier::TierId;
use crate::time::system_now;

verus! {

/// A tier for tests: an in-memory store that can be switched unhealthy, in
/// which state every operation fails as unavailable and is counted.
#[derive(Debug)]
pub struct TestTier<V> {
    healthy: bool,
    inner: FixedTierStub<V>,
    tier_id: TierId,
    failure_count: u64,
}

/// The failure count after one more failure, wrapping as an atomic counter does.
pub open spec fn next_count(n: u64) -> u64 {
    if n == u64::MAX {
        0
    } else {
        (n + 1) as u64
    }
}

impl<V> TestTier<V> {
    pub closed spec fn store(&self) -> FixedTierStub<V> {
        self.inner
    }

    pub closed spec fn healthy_spec(&self) -> bool {
        self.healthy
    }

    pub closed spec fn failures(&self) -> u64 {
        self.failure_count
    }

    pub closed spec fn id_spec(&self) -> TierId {
        self.tier_id
    }

    pub fn new(tier_id: TierId) -> (t: Self)
        ensures
            t.store().wf(),
            t.store().slots_view().len() == 1024,
            t.store().free_view().len() == 1024,
            t.healthy_spec(),
            t.failures() == 0,
            t.id_spec() == tier_id,
    {
        TestTier { healthy: true, inner: FixedTierStub::with_capacity(1024), tier_id, failure_count: 0 }
    }

    pub fn set_healthy(&mut self, healthy: bool)
        ensures
            final(self).healthy_spec() == healthy,
            final(self).store() == old(self).store(),
            final(self).failures() == old(self).failures(),
            final(self).id_spec() == old(self).id_spec(),
    {
        self.healthy = healthy;
    }

    /// A call on the unhealthy tier: refused, with the store, the switch and
    /// the identity as they were and one more failure counted.
    pub open spec fn refused_call(old: Self, new: Self) -> bool {
        &&& new.store() == old.store()
        &&& new.healthy_spec() == old.healthy_spec()
        &&& new.id_spec() == old.id_spec()
        &&& new.failures() == next_count(old.failures())
    }

    /// An unhealthy tier refuses call after call without touching its store,
    /// and its failure count (the streak `health` reports) grows by one per
    /// call: four refused calls count four failures.
    pub proof fn lemma_refusals_count(t0: Self, t1: Self, t2: Self, t3: Self, t4: Self)
        requires
            !t0.healthy_spec(),
            Self::refused_call(t0, t1),
            Self::refused_call(t1, t2),
            Self::refused_call(t2, t3),
            Self::refused_call(t3, t4),
            t0.failures() + 4 <= u64::MAX,
        ensures
            t4.store() == t0.store(),
            !t4.healthy_spec(),
            t4.failures() == t0.failures() + 4,
    {
    }

    /// Counts a failure and reports the tier unavailable.
    fn unavailable<T>(&mut self) -> (r: Result<T, CacheError>)
        ensures
            r == Err::<T, CacheError>(CacheError::TierUnavailable),
            final(self).failures() == next_count(old(self).failures()),
            final(self).store() == old(self).store(),
            final(self).healthy_spec() == old(self).healthy_spec(),
            final(self).id_spec() == old(self).id_spec(),
    {
        self.failure_count = self.failure_count.wrapping_add(1);
        Err(CacheError::TierUnavailable)
    }
}

impl<V: Clone> CacheTier<V> for TestTier<V> {
    open spec fn tier_inv(&self) -> bool {
        self.store().wf()
    }

    open spec fn holds_at(&self, key: Seq<u8>, now: u64) -> Option<V> {
        if self.healthy_spec() {
            self.store().value_of(key, now)
        } else {
            None
        }
    }

    open spec fn set_leaves(
        &self,
        key: Seq<u8>,
        value: V,
        ttl: Option<std::time::Duration>,
        r: Result<(), CacheError>,
        after: spec_fn(Seq<u8>, u64) -> Option<V>,
    ) -> bool {
        write_leaves(key, value, ttl, r, after)
    }

    open spec fn remove_leaves(&self, key: Seq<u8>, r: Result<(), CacheError>, after: spec_fn(Seq<u8>, u64) -> Option<V>) -> bool {
        self.healthy_spec() ==> removal_leaves(key, |k: Seq<u8>, t: u64| self.holds_at(k, t), after)
    }

    open spec fn get_answer(&self, key: Seq<u8>, r: Result<Option<V>, CacheError>) -> bool {
        if self.healthy_spec() {
            self.store().get_answers(key, r)
        } else {
            r == Err::<Option<V>, CacheError>(CacheError::TierUnavailable)
        }
    }

    open spec fn set_answer(&self, key: Seq<u8>, value: V, ttl: Option<std::time::Duration>, r: Result<(), CacheError>) -> bool {
        if self.healthy_spec() {
            self.store().set_answers(key, value, ttl, r)
        } else {
            r == Err::<(), CacheError>(CacheError::TierUnavailable)
        }
    }

    open spec fn remove_answer(&self, key: Seq<u8>, r: Result<(), CacheError>) -> bool {
        if self.healthy_spec() {
            self.store().remove_answers(key, r)
        } else {
            r == Err::<(), CacheError>(CacheError::TierUnavailable)
        }
    }

    open spec fn contains_answer(&self, key: Seq<u8>, r: Result<bool, CacheError>) -> bool {
        if self.healthy_spec() {
            self.store().contains_answers(key, r)
        } else {
            r == Err::<bool, CacheError>(CacheError::TierUnavailable)
        }
    }

    fn name(&self) -> (n: String)
        ensures
            n@ == ("test-"@ + crate::tier::tier_label(self.id_spec())@),
    {
        let n = match self.tier_id {
            TierId::L0 => "test-L0".to_string(),
            TierId::L1 => "test-L1".to_string(),
            TierId::L2 => "test-L2".to_string(),
            TierId::L3 => "test-L3".to_string(),
            TierId::L4 => "test-L4".to_string(),
            TierId::L5 => "test-L5".to_string(),
        };
        proof {
            reveal_strlit("test-");
            reveal_strlit("test-L0");
            reveal_strlit("test-L1");
            reveal_strlit("test-L2");
            reveal_strlit("test-L3");
            reveal_strlit("test-L4");
            reveal_strlit("test-L5");
            reveal_strlit("L0");
            reveal_strlit("L1");
            reveal_strlit("L2");
            reveal_strlit("L3");
            reveal_strlit("L4");
            reveal_strlit("L5");
            assert(n@ =~= ("test-"@ + crate::tier::tier_label(self.id_spec())@));
        }
        n
    }

    fn get(&mut self, key: &KeyRef<'_>) -> (r: Result<Option<V>, CacheError>)
        ensures
            final(self).healthy_spec() == old(self).healthy_spec(),
            final(self).id_spec() == old(self).id_spec(),
            final(self).store() == old(self).store(),
            old(self).healthy_spec() ==> final(self).failures() == old(self).failures()
                && exists|now: u64| old(self).store().get_post(key@, now, r),
            !old(self).healthy_spec() ==> Self::refused_call(*old(self), *final(self)),
            !old(self).healthy_spec() ==> final(self).failures() == next_count(old(self).failures())
                && r == Err::<Option<V>, CacheError>(CacheError::TierUnavailable),
    {
        if !self.healthy {
            return self.unavailable();
        }
        self.inner.get(key)
    }

    fn set(&mut self, key: &KeyRef<'_>, value: V, ttl: Option<std::time::Duration>) -> (r: Result<(), CacheError>)
        ensures
            final(self).healthy_spec() == old(self).healthy_spec(),
            final(self).id_spec() == old(self).id_spec(),
            old(self).healthy_spec() ==> final(self).failures() == old(self).failures()
                && exists|now: u64|
                FixedTierStub::set_post(old(self).store(), final(self).store(), key@, value, ttl, now, r),
            !old(self).healthy_spec() ==> Self::refused_call(*old(self), *final(self)),
            !old(self).healthy_spec() ==> final(self).failures() == next_count(old(self).failures())
                && final(self).store() == old(self).store()
                && r == Err::<(), CacheError>(CacheError::TierUnavailable),
    {
        if !self.healthy {
            return self.unavailable();
        }
        let r = self.inner.set(key, value, ttl);
        proof {
            let now = choose|now: u64| FixedTierStub::set_post(old(self).inner, self.inner, key@, value, ttl, now, r);
            assert(FixedTierStub::set_post(old(self).store(), self.store(), key@, value, ttl, now, r));
            if r is Ok {
                assert forall|t: u64| !crate::tier::fixed_tier_stub::ttl_elapsed(ttl, now, t) implies #[trigger] self.holds_at(key@, t) == Some(value) by {
                    assert(self.store().value_of(key@, t) == Some(value));
                }
                assert(crate::tier::fixed_tier_stub::holds_since(key@, value, ttl, now, |k: Seq<u8>, t: u64| self.holds_at(k, t)));
            }
        }
        r
    }

    fn remove(&mut self, key: &KeyRef<'_>) -> (r: Result<(), CacheError>)
        ensures
            final(self).healthy_spec() == old(self).healthy_spec(),
            final(self).id_spec() == old(self).id_spec(),
            old(self).healthy_spec() ==> final(self).failures() == old(self).failures()
                && exists|now: u64| FixedTierStub::remove_post(old(self).store(), final(self).store(), key@, now, r),
            !old(self).healthy_spec() ==> Self::refused_call(*old(self), *final(self)),
            !old(self).healthy_spec() ==> final(self).failures() == next_count(old(self).failures())
                && final(self).store() == old(self).store()
                && r == Err::<(), CacheError>(CacheError::TierUnavailable),
    {
        if !self.healthy {
            return self.unavailable();
        }
        let r = self.inner.remove(key);
        proof {
            let now = choose|now: u64| FixedTierStub::remove_post(old(self).inner, self.inner, key@, now, r);
            assert(FixedTierStub::remove_post(old(self).store(), self.store(), key@, now, r));
            assert forall|t: u64| t >= now implies #[trigger] self.holds_at(key@, t) is None by {
                assert(self.store().value_of(key@, t) is None);
            }
            assert(crate::tier::fixed_tier_stub::gone_since(key@, now, |k: Seq<u8>, t: u64| self.holds_at(k, t)));
            assert forall|k: Seq<u8>, t: u64| crate::key::bytes_hash(k) != crate::key::bytes_hash(key@) implies #[trigger] self.holds_at(k, t) == old(self).holds_at(k, t) by {
                assert(self.store().value_of(k, t) == old(self).store().value_of(k, t));
            }
        }
        r
    }

    fn contains(&mut self, key: &KeyRef<'_>) -> (r: Result<bool, CacheError>)
        ensures
            final(self).healthy_spec() == old(self).healthy_spec(),
            final(self).id_spec() == old(self).id_spec(),
            final(self).store() == old(self).store(),
            old(self).healthy_spec() ==> final(self).failures() == old(self).failures() && exists|now: u64|
                r == Ok::<bool, CacheError>(
                    crate::tier::fixed_tier_stub::lookup_index(
                        old(self).store().slots_view(),
                        crate::key::bytes_hash(key@),
                        now,
                    ) is Some,
                ),
            !old(self).healthy_spec() ==> Self::refused_call(*old(self), *final(self)),
            !old(self).healthy_spec() ==> final(self).failures() == next_count(old(self).failures())
                && r == Err::<bool, CacheError>(CacheError::TierUnavailable),
    {
        if !self.healthy {
            return self.unavailable();
        }
        self.inner.contains(key)
    }

    /// The failures counted so far are the failure streak; five or more open
    /// the circuit and zero the score, fewer lower it by a tenth each.
    fn health(&self) -> (h: TierHealth)
        ensures
            h.consecutive_failures == self.failures(),
            h.last_failure_timestamp is Some <==> self.failures() > 0,
            h.health_score == (if self.failures() >= CIRCUIT_OPEN_FAILURES {
                0
            } else {
                FULL_HEALTH_SCORE - self.failures()
            }),
    {
        let failures = self.failure_count;
        TierHealth {
            consecutive_failures: failures,
            last_failure_timestamp: if failures > 0 {
                Some(system_now())
            } else {
                None
            },
            health_score: if failures >= CIRCUIT_OPEN_FAILURES {
                0
            } else {
                FULL_HEALTH_SCORE - failures as u8
            },
        }
    }

    fn tier_id(&self) -> (t: TierId)
        ensures
            t == self.id_spec(),
    {
        self.tier_id
    }
}

} // verus!
