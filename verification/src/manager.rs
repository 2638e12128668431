//! The decisions behind every cache operation: authentication and
//! authorization, which path a read takes for a control-plane snapshot, how a
//! failed population is retried, where promotion and demotion move an entry,
//! and how tier outcomes feed the circuit breaker. The operations themselves
//! wait on populations and on tier I/O; they take these decisions at each step.
use vstd::prelude::*;

pub mod cache_manager;

use crate::control::cachelito::{ControlSnapshot, SnapshotView};
use crate::entry::{EntryState, Generation};
use crate::error::CacheError;
use crate::identity::CacheContext;
use crate::policy::{absent_state, snapshot_state, CacheOperation, CachePolicy, CacheRequest, CacheState, FailMode, PolicyDecision};
use crate::tier::{tier_at, tier_index, TierHealth, TierId, TierRegistry};
use crate::tier::tier_trait::FULL_HEALTH_SCORE;

verus! {

/// Longest encoded key the operations accept.
pub const MAX_KEY_SIZE: usize = 256;

/// Attempts at populating an entry before the failure is final.
pub const MAX_POPULATE_ATTEMPTS: u32 = 3;

/// Pause before the first retry of a population; doubled for each later one.
pub const RETRY_BASE_BACKOFF_MS: u64 = 50;

/// How long a waiter waits for a population by default.
pub const DEFAULT_WAIT_TIMEOUT_SECS: u64 = 5;

/// Authentication gate: unauthenticated callers are rejected before any
/// policy runs or any state is touched.
pub fn check_auth(ctx: &CacheContext) -> (r: Result<(), CacheError>)
    ensures
        r is Ok <==> ctx.identity_spec().authenticated(),
        r matches Err(e) ==> e == CacheError::Unauthenticated,
{
    if !ctx.is_authenticated() {
        return Err(CacheError::Unauthenticated);
    }
    Ok(())
}

/// Authorization gate: the policy's decision must authorize the request.
pub fn authorize(decision: &PolicyDecision) -> (r: Result<(), CacheError>)
    ensures
        r is Ok <==> decision.authorized,
        r matches Err(e) ==> e == CacheError::Unauthorized,
{
    if decision.authorized {
        Ok(())
    } else {
        Err(CacheError::Unauthorized)
    }
}

/// Failures worth another population attempt.
pub open spec fn retryable(err: CacheError) -> bool {
    err is TierUnavailable || err is Timeout || err is PopulationFailed
}

pub fn is_retryable(err: CacheError) -> (b: bool)
    ensures
        b == retryable(err),
{
    match err {
        CacheError::TierUnavailable | CacheError::Timeout | CacheError::PopulationFailed => true,
        _ => false,
    }
}

/// `req` is the request an operation shows its policy for `op` on `key` in
/// context `ctx`: a clone of the key, the context's TTL, nothing else.
pub open spec fn request_of<K: Clone, V>(req: CacheRequest<K, V>, op: CacheOperation, key: K, ctx: CacheContext) -> bool {
    &&& req.operation == op
    &&& cloned::<K>(key, req.key)
    &&& req.value is None
    &&& req.ttl == ctx.ttl_spec()
    &&& req.entry_size == 0
    &&& req.cost == 0
    &&& req.latency_budget is None
}

/// `d` is what `policy` decides for `op` on `key` in context `ctx`, against
/// the key state `state`.
pub open spec fn decided<K: Clone, V, P: CachePolicy<K, V>>(
    policy: P,
    op: CacheOperation,
    key: K,
    ctx: CacheContext,
    state: CacheState,
    d: PolicyDecision,
) -> bool {
    exists|req: CacheRequest<K, V>| #[trigger] request_of(req, op, key, ctx) && d == policy.decides(req, state, ctx.identity_spec())
}

/// The request a policy sees for operation `op` on `key` in context `ctx`.
pub fn request_for<K: Clone, V>(op: CacheOperation, key: &K, ctx: &CacheContext) -> (r: CacheRequest<K, V>)
    ensures
        request_of(r, op, *key, *ctx),
{
    let mut request = CacheRequest::new(op, key.clone());
    if let Some(ttl) = ctx.ttl() {
        request = request.with_ttl(ttl);
    }
    request
}

/// The policy's decision for `op` on `key`, against a key state nothing is
/// known of.
pub fn resolve<K: Clone, V, P: CachePolicy<K, V>>(policy: &P, op: CacheOperation, key: &K, ctx: &CacheContext) -> (d:
    PolicyDecision)
    ensures
        decided::<K, V, P>(*policy, op, *key, *ctx, absent_state(), d),
{
    let request: CacheRequest<K, V> = request_for(op, key, ctx);
    let state = CacheState::new();
    let d = policy.select(&request, &state, ctx.identity());
    assert(request_of(request, op, *key, *ctx));
    d
}

/// The policy's decision for `op` on `key`, against the state a control-plane
/// snapshot reports and the health of the snapshot's tier.
pub fn resolve_with_snapshot<K: Clone, V, P: CachePolicy<K, V>>(
    policy: &P,
    op: CacheOperation,
    key: &K,
    ctx: &CacheContext,
    snapshot: &ControlSnapshot,
    health: TierHealth,
) -> (d: PolicyDecision)
    ensures
        decided::<K, V, P>(*policy, op, *key, *ctx, snapshot_state(snapshot.summary(), health), d),
{
    let request: CacheRequest<K, V> = request_for(op, key, ctx);
    let state = CacheState::from_snapshot(snapshot, health);
    let d = policy.select(&request, &state, ctx.identity());
    assert(request_of(request, op, *key, *ctx));
    d
}

/// Which path a read (`get`) takes for the snapshot of the key's entry.
#[derive(Debug, Clone, Copy, PartialEq, Eq, Structural)]
pub enum ReadStep {
    /// The entry is ready: read it from this tier.
    Serve(TierId),
    /// The entry is ready but its TTL elapsed: mark it stale and miss.
    Expire,
    /// Another caller is populating the entry: wait, then read this tier.
    Wait(TierId),
    /// Nothing to read.
    Miss,
}

pub open spec fn read_step_spec(s: SnapshotView) -> ReadStep {
    if s.state is Ready && !s.expired {
        ReadStep::Serve(s.tier)
    } else if s.state is Ready {
        ReadStep::Expire
    } else if s.state is InFlight && !s.population_owner {
        ReadStep::Wait(s.tier)
    } else {
        ReadStep::Miss
    }
}

pub fn read_step(snapshot: &ControlSnapshot) -> (r: ReadStep)
    ensures
        r == read_step_spec(snapshot.summary()),
{
    match snapshot.state {
        EntryState::Ready => {
            if !snapshot.expired {
                ReadStep::Serve(snapshot.tier)
            } else {
                ReadStep::Expire
            }
        },
        EntryState::InFlight => {
            if !snapshot.population_owner {
                ReadStep::Wait(snapshot.tier)
            } else {
                ReadStep::Miss
            }
        },
        _ => ReadStep::Miss,
    }
}

/// A read-through (`get_or_fetch`) first serves a ready, unexpired entry
/// from its tier.
pub fn serve_ready(snapshot: &ControlSnapshot) -> (r: Option<TierId>)
    ensures
        r == (if snapshot.state is Ready && !snapshot.expired {
            Some(snapshot.tier)
        } else {
            None
        }),
{
    if snapshot.state == EntryState::Ready && !snapshot.expired {
        Some(snapshot.tier)
    } else {
        None
    }
}

/// A ready entry whose TTL elapsed is marked stale and acquired again, so
/// that the caller can claim its population.
pub fn needs_reclaim(snapshot: &ControlSnapshot) -> (b: bool)
    ensures
        b == (snapshot.state is Ready && snapshot.expired),
{
    snapshot.state == EntryState::Ready && snapshot.expired
}

/// A caller waits when another caller owns a population in flight;
/// otherwise it populates the entry itself.
pub fn must_wait(snapshot: &ControlSnapshot) -> (b: bool)
    ensures
        b == (snapshot.state is InFlight && !snapshot.population_owner),
{
    snapshot.state == EntryState::InFlight && !snapshot.population_owner
}

/// Stale-while-revalidate: a refresh returns the new value, or the value
/// that was cached when the refresh failed.
pub fn refresh_result<V>(outcome: Result<V, CacheError>, current: Option<V>) -> (r: Option<V>)
    ensures
        r == (match outcome {
            Ok(v) => Some(v),
            Err(_) => current,
        }),
{
    match outcome {
        Ok(v) => Some(v),
        Err(_) => current,
    }
}

/// What follows a population attempt that failed.
#[derive(Debug, Clone, Copy, PartialEq, Eq, Structural)]
pub enum AttemptStep {
    /// Sleep this many milliseconds, then try again.
    Retry(u64),
    /// The population was overtaken by a newer generation: report it stale.
    Stale,
    /// Give up: record the failure, then serve from any healthy tier.
    FailOpen(CacheError),
    /// Give up: record the failure and report it.
    FailClosed(CacheError),
}

pub open spec fn after_failed_attempt_spec(attempt: u32, err: CacheError, backoff_ms: u64, fail_mode: FailMode) -> AttemptStep {
    if attempt < MAX_POPULATE_ATTEMPTS && retryable(err) {
        AttemptStep::Retry(backoff_ms)
    } else if err is StaleGeneration {
        AttemptStep::Stale
    } else if fail_mode is Open {
        AttemptStep::FailOpen(err)
    } else {
        AttemptStep::FailClosed(err)
    }
}

/// The step after attempt number `attempt` (counting from 1) failed with
/// `err`, the current backoff being `backoff_ms`.
pub fn after_failed_attempt(attempt: u32, err: CacheError, backoff_ms: u64, fail_mode: FailMode) -> (s: AttemptStep)
    ensures
        s == after_failed_attempt_spec(attempt, err, backoff_ms, fail_mode),
{
    if attempt < MAX_POPULATE_ATTEMPTS && is_retryable(err) {
        return AttemptStep::Retry(backoff_ms);
    }
    if err == CacheError::StaleGeneration {
        return AttemptStep::Stale;
    }
    if fail_mode == FailMode::Open {
        AttemptStep::FailOpen(err)
    } else {
        AttemptStep::FailClosed(err)
    }
}

/// The backoff after one more retry: doubled, saturating.
pub fn next_backoff(backoff_ms: u64) -> (b: u64)
    ensures
        b == (if 2 * backoff_ms > u64::MAX {
            u64::MAX as int
        } else {
            2 * backoff_ms
        }),
{
    if backoff_ms > u64::MAX / 2 {
        u64::MAX
    } else {
        backoff_ms * 2
    }
}

/// The generation a direct write publishes: one past the generation its
/// snapshot reported.
pub fn write_generation(snapshot: &ControlSnapshot) -> (g: Generation)
    requires
        snapshot.generation.0 < u64::MAX,
    ensures
        g.0 == snapshot.generation.0 + 1,
{
    Generation::new(snapshot.generation.0 + 1)
}

/// Where `promote` moves a ready entry: one tier hotter; an entry on L0 stays.
/// An entry that is not ready is a miss.
pub fn promote_target(snapshot: &ControlSnapshot) -> (r: Result<Option<TierId>, CacheError>)
    ensures
        r == (if !(snapshot.state is Ready) {
            Err(CacheError::Miss)
        } else if tier_index(snapshot.tier) == 0 {
            Ok(None)
        } else {
            Ok(tier_at(tier_index(snapshot.tier) - 1))
        }),
{
    if snapshot.state != EntryState::Ready {
        return Err(CacheError::Miss);
    }
    let current_idx = snapshot.tier.as_usize();
    if current_idx == 0 {
        return Ok(None);
    }
    match TierId::from_usize(current_idx - 1) {
        Some(t) => Ok(Some(t)),
        None => Err(CacheError::ConfigurationError),
    }
}

/// Where `demote` moves a ready entry: one tier colder; an entry on L5 stays.
/// An entry that is not ready is a miss.
pub fn demote_target(snapshot: &ControlSnapshot) -> (r: Result<Option<TierId>, CacheError>)
    ensures
        r == (if !(snapshot.state is Ready) {
            Err(CacheError::Miss)
        } else if tier_index(snapshot.tier) == 5 {
            Ok(None)
        } else {
            Ok(tier_at(tier_index(snapshot.tier) + 1int))
        }),
{
    if snapshot.state != EntryState::Ready {
        return Err(CacheError::Miss);
    }
    let current_idx = snapshot.tier.as_usize();
    if current_idx == TierId::L5.as_usize() {
        return Ok(None);
    }
    match TierId::from_usize(current_idx + 1) {
        Some(t) => Ok(Some(t)),
        None => Err(CacheError::ConfigurationError),
    }
}

/// The position of the store that serves `tier` among `n_tiers` configured
/// stores; a tier without a store is served by the first.
pub fn tier_slot(tier: TierId, n_tiers: usize) -> (i: usize)
    ensures
        i == (if tier_index(tier) < n_tiers {
            tier_index(tier) as int
        } else {
            0
        }),
{
    let idx = tier.as_usize();
    if idx >= n_tiers {
        return 0;
    }
    idx
}

/// What a call against a tier tells the circuit breaker: whether it failed,
/// and how.
pub open spec fn outcome_of<X>(result: Result<X, CacheError>) -> Result<(), CacheError> {
    match result {
        Ok(_) => Ok(()),
        Err(e) => Err(e),
    }
}

/// The circuit breaker went from `a` to `b` by recording `result` against
/// `tier`: a success resets the tier, an unavailable tier counts a failure,
/// any other error leaves its health alone; no other tier changes.
pub open spec fn outcome_recorded(a: TierRegistry, b: TierRegistry, tier: TierId, result: Result<(), CacheError>) -> bool {
    &&& TierRegistry::same_except(a, b, tier)
    &&& match result {
        Ok(()) => b.health_of(tier).consecutive_failures == 0 && b.health_of(tier).last_failure_timestamp is None
            && b.health_of(tier).health_score == FULL_HEALTH_SCORE,
        Err(CacheError::TierUnavailable) => b.health_of(tier).consecutive_failures == a.health_of(
            tier,
        ).consecutive_failures + 1,
        Err(_) => b.health_of(tier) == a.health_of(tier),
    }
}

/// Feeds the outcome of a call against `tier` to the circuit breaker.
pub fn record_outcome(registry: &mut TierRegistry, tier: TierId, result: Result<(), CacheError>)
    requires
        old(registry).wf(),
        old(registry).counters_fit(),
    ensures
        outcome_recorded(*old(registry), *final(registry), tier, result),
{
    match result {
        Ok(()) => registry.recover(tier),
        Err(CacheError::TierUnavailable) => registry.fail(tier),
        Err(_) => {},
    }
}

/// Feeds the outcome of a read against `tier` to the circuit breaker; the
/// value read does not matter.
pub fn record_read<X>(registry: &mut TierRegistry, tier: TierId, result: &Result<X, CacheError>)
    requires
        old(registry).wf(),
        old(registry).counters_fit(),
    ensures
        outcome_recorded(*old(registry), *final(registry), tier, outcome_of(*result)),
{
    match result {
        Ok(_) => registry.recover(tier),
        Err(CacheError::TierUnavailable) => registry.fail(tier),
        Err(_) => {},
    }
}

/// A population makes at most `MAX_POPULATE_ATTEMPTS` attempts: from the
/// last one on, a failure is final.
pub proof fn lemma_retry_bounded(attempt: u32, err: CacheError, backoff_ms: u64, fail_mode: FailMode)
    requires
        attempt >= MAX_POPULATE_ATTEMPTS,
    ensures
        !(after_failed_attempt_spec(attempt, err, backoff_ms, fail_mode) is Retry),
{
}

/// Promotion and demotion undo each other: an entry promoted off a tier below
/// L0 and then demoted returns to that tier, and the other way round.
pub proof fn lemma_promote_demote_inverse(t: TierId)
    ensures
        tier_index(t) > 0 ==> (tier_at(tier_index(t) - 1) matches Some(u) && tier_at(tier_index(u) + 1int) == Some(t)),
        tier_index(t) < 5 ==> (tier_at(tier_index(t) + 1int) matches Some(u) && tier_at(tier_index(u) - 1) == Some(t)),
{
}

} // verus!
