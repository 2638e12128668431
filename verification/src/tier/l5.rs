use vstd::prelude::*;

use crate::error::CacheError;
use crate::key::KeyRef;
use crate::pool::MemoryPool;
use crate::tier::tier_trait::{CacheTier, TierHealth, CIRCUIT_OPEN_FAILURES};
use crate::tier::TierId;
use crate::time::system_now;

verus! {

/// The L5 origin tier without a backend: it reserves its capacity but
/// refuses every operation as unavailable, and reports an open circuit.
#[derive(Debug)]
pub struct L5Stub<V> {
    _pool: MemoryPool<V>,
    _slots: Vec<Option<(u64, usize)>>,
}

impl<V> L5Stub<V> {
    pub fn new() -> (t: Self)
        ensures
            t.capacity_spec() == 1024,
    {
        match Self::with_capacity(1024) {
            Ok(t) => t,
            Err(_) => vstd::pervasive::unreached(),
        }
    }

    /// The capacity reserved for the tier.
    pub closed spec fn capacity_spec(&self) -> nat {
        self._slots@.len()
    }

    /// A stub that reserves `capacity` slots; a zero capacity is refused.
    pub fn with_capacity(capacity: usize) -> (r: Result<Self, CacheError>)
        ensures
            capacity == 0 <==> r is Err,
            r matches Err(e) ==> e == CacheError::ConfigurationError,
            r matches Ok(t) ==> t.capacity_spec() == capacity,
    {
        let pool = MemoryPool::new(capacity)?;
        Ok(L5Stub { _pool: pool, _slots: vec![None; capacity] })
    }
}

impl<V> CacheTier<V> for L5Stub<V> {
    open spec fn tier_inv(&self) -> bool {
        true
    }

    open spec fn get_answer(&self, key: Seq<u8>, r: Result<Option<V>, CacheError>) -> bool {
        r == Err::<Option<V>, CacheError>(CacheError::TierUnavailable)
    }

    open spec fn set_answer(&self, key: Seq<u8>, value: V, ttl: Option<std::time::Duration>, r: Result<(), CacheError>) -> bool {
        r == Err::<(), CacheError>(CacheError::TierUnavailable)
    }

    open spec fn remove_answer(&self, key: Seq<u8>, r: Result<(), CacheError>) -> bool {
        r == Err::<(), CacheError>(CacheError::TierUnavailable)
    }

    open spec fn contains_answer(&self, key: Seq<u8>, r: Result<bool, CacheError>) -> bool {
        r == Err::<bool, CacheError>(CacheError::TierUnavailable)
    }

    fn name(&self) -> (n: String)
        ensures
            n@ == "L5-X"@,
    {
        "L5-X".to_string()
    }

    fn get(&mut self, key: &KeyRef<'_>) -> (r: Result<Option<V>, CacheError>)
        ensures
            r == Err::<Option<V>, CacheError>(CacheError::TierUnavailable),
    {
        Err(CacheError::TierUnavailable)
    }

    fn set(&mut self, key: &KeyRef<'_>, value: V, ttl: Option<std::time::Duration>) -> (r: Result<(), CacheError>)
        ensures
            r == Err::<(), CacheError>(CacheError::TierUnavailable),
    {
        Err(CacheError::TierUnavailable)
    }

    fn remove(&mut self, key: &KeyRef<'_>) -> (r: Result<(), CacheError>)
        ensures
            r == Err::<(), CacheError>(CacheError::TierUnavailable),
    {
        Err(CacheError::TierUnavailable)
    }

    fn contains(&mut self, key: &KeyRef<'_>) -> (r: Result<bool, CacheError>)
        ensures
            r == Err::<bool, CacheError>(CacheError::TierUnavailable),
    {
        Err(CacheError::TierUnavailable)
    }

    fn health(&self) -> (h: TierHealth)
        ensures
            h.consecutive_failures == CIRCUIT_OPEN_FAILURES,
            h.last_failure_timestamp is Some,
            h.health_score == 0,
    {
        TierHealth {
            consecutive_failures: CIRCUIT_OPEN_FAILURES,
            last_failure_timestamp: Some(system_now()),
            health_score: 0,
        }
    }

    fn tier_id(&self) -> (t: TierId)
        ensures
            t == TierId::L5,
    {
        TierId::L5
    }
}

} // verus!
