use vstd::prelude::*;

use crate::error::CacheError;
use crate::key::KeyRef;
use crate::tier::TierId;

verus! {

/// Number of consecutive failures at which a tier's circuit opens.
pub const CIRCUIT_OPEN_FAILURES: u64 = 5;

/// The full health score, in tenths.
pub const FULL_HEALTH_SCORE: u8 = 10;

/// Health of a tier as seen by the circuit breaker. The score is kept in
/// tenths: 10 is fully healthy, 0 is unusable.
#[derive(Debug, Clone, Copy)]
pub struct TierHealth {
    pub consecutive_failures: u64,
    pub last_failure_timestamp: Option<std::time::SystemTime>,
    pub health_score: u8,
}

impl TierHealth {
    /// The circuit is open once five consecutive failures are recorded.
    pub open spec fn circuit_open(&self) -> bool {
        self.consecutive_failures >= CIRCUIT_OPEN_FAILURES
    }

    pub fn healthy(&self) -> (r: bool)
        ensures
            r == (self.consecutive_failures == 0),
    {
        self.consecutive_failures == 0
    }

    pub fn is_circuit_open(&self) -> (r: bool)
        ensures
            r == self.circuit_open(),
    {
        self.consecutive_failures >= CIRCUIT_OPEN_FAILURES
    }

    /// A successful call clears the failure streak and restores the full score.
    pub fn record_success(&mut self)
        ensures
            final(self).consecutive_failures == 0,
            final(self).health_score == FULL_HEALTH_SCORE,
            final(self).last_failure_timestamp == old(self).last_failure_timestamp,
    {
        self.consecutive_failures = 0;
        self.health_score = FULL_HEALTH_SCORE;
    }

    /// A failed call lengthens the failure streak, remembers when it failed and
    /// lowers the score by one tenth, not below zero.
    pub fn record_failure(&mut self, at: std::time::SystemTime)
        requires
            old(self).consecutive_failures < u64::MAX,
        ensures
            final(self).consecutive_failures == old(self).consecutive_failures + 1,
            final(self).last_failure_timestamp == Some(at),
            final(self).health_score == (if old(self).health_score >= 1 {
                old(self).health_score - 1
            } else {
                0
            }),
    {
        self.consecutive_failures = self.consecutive_failures + 1;
        self.last_failure_timestamp = Some(at);
        self.health_score = if self.health_score >= 1 {
            self.health_score - 1
        } else {
            0
        };
    }
}

/// The health of a tier nothing has been recorded against.
pub open spec fn default_health() -> TierHealth {
    TierHealth { consecutive_failures: 0, last_failure_timestamp: None, health_score: 0 }
}

impl Default for TierHealth {
    fn default() -> (h: Self)
        ensures
            h == default_health(),
    {
        TierHealth { consecutive_failures: 0, last_failure_timestamp: None, health_score: 0 }
    }
}

/// A store of values for one tier. Implementations store and retrieve values
/// only; they never decide routing. `tier_inv` is the implementation's own
/// well-formedness, which every operation keeps; a store with nothing to keep
/// leaves it `true`.
///
/// The `*_answer` relations say what a call may answer, from the store as it
/// is before the call and the call's arguments (the key by its bytes); the
/// `*_leaves` relations say what a read of the store finds after a write,
/// given as `holds_at` of the store after the call. A store whose behavior is
/// not stated leaves these relations `true`; the stores of this library state
/// theirs.
pub trait CacheTier<V> {
    open spec fn tier_inv(&self) -> bool {
        true
    }

    /// What a read of the key with bytes `key` finds at clock reading `now`.
    open spec fn holds_at(&self, key: Seq<u8>, now: u64) -> Option<V> {
        None
    }

    /// What `get` of the key with bytes `key` may answer.
    open spec fn get_answer(&self, key: Seq<u8>, r: Result<Option<V>, CacheError>) -> bool {
        true
    }

    /// What `set` of `value` under `key` with `ttl` may answer.
    open spec fn set_answer(&self, key: Seq<u8>, value: V, ttl: Option<std::time::Duration>, r: Result<(), CacheError>) -> bool {
        true
    }

    /// What a read finds after `set` of `value` under `key` with `ttl`
    /// answered `r`, `after` being `holds_at` of the store after the call.
    open spec fn set_leaves(
        &self,
        key: Seq<u8>,
        value: V,
        ttl: Option<std::time::Duration>,
        r: Result<(), CacheError>,
        after: spec_fn(Seq<u8>, u64) -> Option<V>,
    ) -> bool {
        true
    }

    /// What a read finds after `remove` of `key` answered `r`, `after` being
    /// `holds_at` of the store after the call.
    open spec fn remove_leaves(&self, key: Seq<u8>, r: Result<(), CacheError>, after: spec_fn(Seq<u8>, u64) -> Option<V>) -> bool {
        true
    }

    /// What `remove` of `key` may answer.
    open spec fn remove_answer(&self, key: Seq<u8>, r: Result<(), CacheError>) -> bool {
        true
    }

    /// What `contains` of `key` may answer.
    open spec fn contains_answer(&self, key: Seq<u8>, r: Result<bool, CacheError>) -> bool {
        true
    }

    fn name(&self) -> String;

    fn get(&mut self, key: &KeyRef<'_>) -> (r: Result<Option<V>, CacheError>)
        requires
            old(self).tier_inv(),
        ensures
            final(self).tier_inv(),
            old(self).get_answer(key@, r),
    ;

    fn set(&mut self, key: &KeyRef<'_>, value: V, ttl: Option<std::time::Duration>) -> (r: Result<(), CacheError>)
        requires
            old(self).tier_inv(),
        ensures
            final(self).tier_inv(),
            old(self).set_answer(key@, value, ttl, r),
            old(self).set_leaves(key@, value, ttl, r, |k: Seq<u8>, t: u64| final(self).holds_at(k, t)),
    ;

    fn remove(&mut self, key: &KeyRef<'_>) -> (r: Result<(), CacheError>)
        requires
            old(self).tier_inv(),
        ensures
            final(self).tier_inv(),
            old(self).remove_answer(key@, r),
            old(self).remove_leaves(key@, r, |k: Seq<u8>, t: u64| final(self).holds_at(k, t)),
    ;

    fn contains(&mut self, key: &KeyRef<'_>) -> (r: Result<bool, CacheError>)
        requires
            old(self).tier_inv(),
        ensures
            final(self).tier_inv(),
            old(self).contains_answer(key@, r),
    ;

    fn health(&self) -> TierHealth;

    fn tier_id(&self) -> TierId;
}

} // verus!
