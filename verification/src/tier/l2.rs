use vstd::prelude::*;

use crate::error::CacheError;
use crate::key::KeyRef;
use crate::tier::fixed_tier_stub::{removal_leaves, write_leaves, FixedTierStub};
use crate::tier::tier_trait::{CacheTier, TierHealth};
use crate::tier::TierId;

verus! {

/// The L2 local tier: a fixed-capacity in-memory store.
#[derive(Debug)]
pub struct L2Stub<V> {
    inner: FixedTierStub<V>,
}

impl<V> L2Stub<V> {
    /// The store behind the tier.
    pub closed spec fn store(&self) -> FixedTierStub<V> {
        self.inner
    }

    pub fn new() -> (t: Self)
        ensures
            t.store().wf(),
            t.store().slots_view() == Seq::new(
                crate::tier::fixed_tier_stub::DEFAULT_CAPACITY as nat,
                |i: int| None::<crate::tier::fixed_tier_stub::Slot>,
            ),
            t.store().free_view().len() == crate::tier::fixed_tier_stub::DEFAULT_CAPACITY,
    {
        L2Stub { inner: FixedTierStub::new() }
    }
}

impl<V: Clone> CacheTier<V> for L2Stub<V> {
    open spec fn tier_inv(&self) -> bool {
        self.store().wf()
    }

    open spec fn holds_at(&self, key: Seq<u8>, now: u64) -> Option<V> {
        self.store().value_of(key, now)
    }

    open spec fn get_answer(&self, key: Seq<u8>, r: Result<Option<V>, CacheError>) -> bool {
        self.store().get_answers(key, r)
    }

    open spec fn set_leaves(
        &self,
        key: Seq<u8>,
        value: V,
        ttl: Option<std::time::Duration>,
        r: Result<(), CacheError>,
        after: spec_fn(Seq<u8>, u64) -> Option<V>,
    ) -> bool {
        write_leaves(key, value, ttl, r, after)
    }

    open spec fn remove_leaves(&self, key: Seq<u8>, r: Result<(), CacheError>, after: spec_fn(Seq<u8>, u64) -> Option<V>) -> bool {
        removal_leaves(key, |k: Seq<u8>, t: u64| self.holds_at(k, t), after)
    }

    open spec fn set_answer(&self, key: Seq<u8>, value: V, ttl: Option<std::time::Duration>, r: Result<(), CacheError>) -> bool {
        self.store().set_answers(key, value, ttl, r)
    }

    open spec fn remove_answer(&self, key: Seq<u8>, r: Result<(), CacheError>) -> bool {
        self.store().remove_answers(key, r)
    }

    open spec fn contains_answer(&self, key: Seq<u8>, r: Result<bool, CacheError>) -> bool {
        self.store().contains_answers(key, r)
    }

    fn name(&self) -> (n: String)
        ensures
            n@ == "L2-local"@,
    {
        "L2-local".to_string()
    }

    fn get(&mut self, key: &KeyRef<'_>) -> (r: Result<Option<V>, CacheError>)
        ensures
            final(self).store() == old(self).store(),
            exists|now: u64| old(self).store().get_post(key@, now, r),
    {
        self.inner.get(key)
    }

    fn set(&mut self, key: &KeyRef<'_>, value: V, ttl: Option<std::time::Duration>) -> (r: Result<(), CacheError>)
        ensures
            exists|now: u64|
                FixedTierStub::set_post(old(self).store(), final(self).store(), key@, value, ttl, now, r),
    {
        let r = self.inner.set(key, value, ttl);
        proof {
            let now = choose|now: u64| FixedTierStub::set_post(old(self).inner, self.inner, key@, value, ttl, now, r);
            assert(FixedTierStub::set_post(old(self).store(), self.store(), key@, value, ttl, now, r));
            if r is Ok {
                assert forall|t: u64| !crate::tier::fixed_tier_stub::ttl_elapsed(ttl, now, t) implies #[trigger] self.holds_at(key@, t) == Some(value) by {
                    assert(self.store().value_of(key@, t) == Some(value));
                }
                assert(crate::tier::fixed_tier_stub::holds_since(key@, value, ttl, now, |k: Seq<u8>, t: u64| self.holds_at(k, t)));
            }
        }
        r
    }

    fn remove(&mut self, key: &KeyRef<'_>) -> (r: Result<(), CacheError>)
        ensures
            exists|now: u64| FixedTierStub::remove_post(old(self).store(), final(self).store(), key@, now, r),
    {
        let r = self.inner.remove(key);
        proof {
            let now = choose|now: u64| FixedTierStub::remove_post(old(self).inner, self.inner, key@, now, r);
            assert(FixedTierStub::remove_post(old(self).store(), self.store(), key@, now, r));
            assert forall|t: u64| t >= now implies #[trigger] self.holds_at(key@, t) is None by {
                assert(self.store().value_of(key@, t) is None);
            }
            assert(crate::tier::fixed_tier_stub::gone_since(key@, now, |k: Seq<u8>, t: u64| self.holds_at(k, t)));
            assert forall|k: Seq<u8>, t: u64| crate::key::bytes_hash(k) != crate::key::bytes_hash(key@) implies #[trigger] self.holds_at(k, t) == old(self).holds_at(k, t) by {
                assert(self.store().value_of(k, t) == old(self).store().value_of(k, t));
            }
        }
        r
    }

    fn contains(&mut self, key: &KeyRef<'_>) -> (r: Result<bool, CacheError>)
        ensures
            final(self).store() == old(self).store(),
            exists|now: u64|
                r == Ok::<bool, CacheError>(
                    crate::tier::fixed_tier_stub::lookup_index(
                        old(self).store().slots_view(),
                        crate::key::bytes_hash(key@),
                        now,
                    ) is Some,
                ),
    {
        self.inner.contains(key)
    }

    fn health(&self) -> (h: TierHealth)
        ensures
            h.consecutive_failures == 0,
            h.last_failure_timestamp is None,
            h.health_score == 0,
    {
        TierHealth::default()
    }

    fn tier_id(&self) -> (t: TierId)
        ensures
            t == TierId::L2,
    {
        TierId::L2
    }
}

} // verus!
