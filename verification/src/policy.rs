//! The policy engine: given a request, the state of its key and the caller,
//! a policy decides whether the request is authorized, which tier serves it,
//! how its population is coordinated and how failures are handled.
use vstd::prelude::*;

use crate::control::cachelito::{ControlSnapshot, SnapshotView};
use crate::entry::{EntryState, Generation};
use crate::identity::IdentityContext;
use crate::tier::{tier_index, TierHealth, TierId};

pub mod precedence;

verus! {

#[derive(Debug, Clone, Copy, PartialEq, Eq, Structural)]
pub enum CacheOperation {
    Get,
    Put,
    Remove,
    Invalidate,
    Refresh,
    Exists,
    Promote,
    Demote,
}

#[derive(Debug, Clone, Copy, PartialEq, Eq, Structural)]
pub enum PopulationStrategy {
    SingleFlight,
    AllowDuplicate,
}

#[derive(Debug, Clone, Copy, PartialEq, Eq, Structural)]
pub enum FailMode {
    Open,
    Closed,
}

/// What a caller asks of the cache, as the policy sees it.
#[derive(Debug)]
pub struct CacheRequest<K, V> {
    pub operation: CacheOperation,
    pub key: K,
    pub value: Option<V>,
    pub ttl: Option<std::time::Duration>,
    /// Approximate size of the entry in bytes, if known (0 = unknown).
    pub entry_size: usize,
    /// Relative cost of (re)populating this entry; higher = more expensive.
    pub cost: u32,
    /// Maximum latency the caller will tolerate, if constrained.
    pub latency_budget: Option<std::time::Duration>,
}

impl<K, V> CacheRequest<K, V> {
    pub fn new(operation: CacheOperation, key: K) -> (r: Self)
        ensures
            r.operation == operation,
            r.key == key,
            r.value is None,
            r.ttl is None,
            r.entry_size == 0,
            r.cost == 0,
            r.latency_budget is None,
    {
        CacheRequest { operation, key, value: None, ttl: None, entry_size: 0, cost: 0, latency_budget: None }
    }

    pub fn with_value(self, value: V) -> (r: Self)
        ensures
            r == (CacheRequest { value: Some(value), ..self }),
    {
        let mut s = self;
        s.value = Some(value);
        s
    }

    pub fn with_ttl(self, ttl: std::time::Duration) -> (r: Self)
        ensures
            r == (CacheRequest { ttl: Some(ttl), ..self }),
    {
        let mut s = self;
        s.ttl = Some(ttl);
        s
    }

    pub fn with_entry_size(self, entry_size: usize) -> (r: Self)
        ensures
            r == (CacheRequest { entry_size, ..self }),
    {
        let mut s = self;
        s.entry_size = entry_size;
        s
    }

    pub fn with_cost(self, cost: u32) -> (r: Self)
        ensures
            r == (CacheRequest { cost, ..self }),
    {
        let mut s = self;
        s.cost = cost;
        s
    }

    pub fn with_latency_budget(self, budget: std::time::Duration) -> (r: Self)
        ensures
            r == (CacheRequest { latency_budget: Some(budget), ..self }),
    {
        let mut s = self;
        s.latency_budget = Some(budget);
        s
    }
}

/// The live state of a key and of the tier under evaluation.
#[derive(Debug)]
pub struct CacheState {
    pub entry_state: EntryState,
    pub generation: Generation,
    pub tier: TierId,
    pub tier_health: TierHealth,
    pub expiration: Option<std::time::Instant>,
}

impl Default for CacheState {
    fn default() -> (s: Self)
        ensures
            s == absent_state(),
    {
        Self::new()
    }
}

/// The state of a key nothing is known of.
pub open spec fn absent_state() -> CacheState {
    CacheState {
        entry_state: EntryState::Absent,
        generation: Generation(0),
        tier: TierId::L0,
        tier_health: crate::tier::tier_trait::default_health(),
        expiration: None,
    }
}

/// The state a control-plane snapshot reports, with `health` for its tier.
pub open spec fn snapshot_state(s: SnapshotView, health: TierHealth) -> CacheState {
    CacheState {
        entry_state: s.state,
        generation: Generation(s.generation),
        tier: s.tier,
        tier_health: health,
        expiration: None,
    }
}

impl CacheState {
    /// The state of a key nothing is known of.
    pub fn new() -> (s: Self)
        ensures
            s == absent_state(),
    {
        CacheState {
            entry_state: EntryState::Absent,
            generation: Generation::new(0),
            tier: TierId::L0,
            tier_health: TierHealth::default(),
            expiration: None,
        }
    }

    /// The state a control-plane snapshot reports, with the current health
    /// of the tier the policy is evaluating.
    pub fn from_snapshot(snapshot: &ControlSnapshot, tier_health: TierHealth) -> (s: Self)
        ensures
            s == snapshot_state(snapshot.summary(), tier_health),
    {
        CacheState {
            entry_state: snapshot.state,
            generation: snapshot.generation,
            tier: snapshot.tier,
            tier_health,
            expiration: None,
        }
    }
}

/// What a policy decided for one request.
#[derive(Debug)]
pub struct PolicyDecision {
    pub authorized: bool,
    pub tier: TierId,
    pub operation: CacheOperation,
    pub population: PopulationStrategy,
    pub fail_mode: FailMode,
}

impl PolicyDecision {
    /// Authorize, on `tier`, with single-flight population that fails open.
    pub fn allow(tier: TierId) -> (d: Self)
        ensures
            d == allow_decision(tier),
    {
        PolicyDecision {
            authorized: true,
            tier,
            operation: CacheOperation::Get,
            population: PopulationStrategy::SingleFlight,
            fail_mode: FailMode::Open,
        }
    }

    /// Refuse, failing closed.
    pub fn deny() -> (d: Self)
        ensures
            d == deny_decision(),
    {
        PolicyDecision {
            authorized: false,
            tier: TierId::L0,
            operation: CacheOperation::Get,
            population: PopulationStrategy::SingleFlight,
            fail_mode: FailMode::Closed,
        }
    }
}

pub open spec fn allow_decision(tier: TierId) -> PolicyDecision {
    PolicyDecision {
        authorized: true,
        tier,
        operation: CacheOperation::Get,
        population: PopulationStrategy::SingleFlight,
        fail_mode: FailMode::Open,
    }
}

pub open spec fn deny_decision() -> PolicyDecision {
    PolicyDecision {
        authorized: false,
        tier: TierId::L0,
        operation: CacheOperation::Get,
        population: PopulationStrategy::SingleFlight,
        fail_mode: FailMode::Closed,
    }
}

/// The tier an operation prefers before precedence overrides: reads stay on
/// the key's current tier, writes go to L1, everything else to L0.
pub open spec fn base_tier_spec(op: CacheOperation, current: TierId) -> TierId {
    match op {
        CacheOperation::Get => current,
        CacheOperation::Put => TierId::L1,
        _ => TierId::L0,
    }
}

/// Tier-health precedence: when the preferred tier is the key's tier and its
/// circuit is open, route to the origin tier L5; otherwise keep the tier.
pub open spec fn healthy_fallback_spec(start: TierId, state: CacheState) -> TierId {
    if !state.tier_health.circuit_open() || state.tier != start {
        start
    } else {
        TierId::L5
    }
}

/// What `DefaultPolicy` decides: always authorized, routed by operation and
/// tier health.
pub open spec fn default_decision(op: CacheOperation, state: CacheState) -> PolicyDecision {
    PolicyDecision {
        authorized: true,
        tier: healthy_fallback_spec(base_tier_spec(op, state.tier), state),
        operation: op,
        population: PopulationStrategy::SingleFlight,
        fail_mode: FailMode::Open,
    }
}

/// Operations that change the cache.
pub open spec fn is_mutating(op: CacheOperation) -> bool {
    !(op is Get || op is Exists)
}

/// What `StrictPolicy` decides: mutations by anonymous callers are denied,
/// everything else is decided as `DefaultPolicy` does.
pub open spec fn strict_decision(op: CacheOperation, state: CacheState, identity: IdentityContext) -> PolicyDecision {
    if is_mutating(op) && !identity.authenticated() {
        deny_decision()
    } else {
        default_decision(op, state)
    }
}

/// A permissive policy: authorizes every request and routes it
/// deterministically, away from a tier whose circuit is open.
#[derive(Debug, Clone)]
pub struct DefaultPolicy;

impl DefaultPolicy {
    fn base_tier(op: CacheOperation, current: TierId) -> (t: TierId)
        ensures
            t == base_tier_spec(op, current),
    {
        match op {
            CacheOperation::Get => current,
            CacheOperation::Put => TierId::L1,
            CacheOperation::Remove
            | CacheOperation::Invalidate
            | CacheOperation::Refresh
            | CacheOperation::Exists
            | CacheOperation::Promote
            | CacheOperation::Demote => TierId::L0,
        }
    }

    /// Steps the tier toward the origin, bounded by the tier count, when the
    /// key's tier is the preferred one and its circuit is open.
    pub fn healthy_fallback(start: TierId, state: &CacheState) -> (t: TierId)
        ensures
            t == healthy_fallback_spec(start, *state),
            !state.tier_health.circuit_open() || state.tier != start ==> t == start,
            state.tier_health.circuit_open() && state.tier == start ==> t == TierId::L5,
            state.tier_health.circuit_open() && state.tier == start && start != TierId::L5 ==> tier_index(t)
                > tier_index(start),
    {
        if !state.tier_health.is_circuit_open() || state.tier != start {
            return start;
        }
        let last = TierId::L5.as_usize();
        let mut idx = start.as_usize();
        let mut step: usize = 0;
        while step < last
            invariant
                last == 5,
                step <= last,
                idx <= 5,
                idx == tier_index(start) + step,
            ensures
                idx == 5,
            decreases last - step,
        {
            if idx >= last {
                break;
            }
            idx = idx + 1;
            step = step + 1;
        }
        match TierId::from_usize(idx) {
            Some(t) => t,
            None => TierId::L5,
        }
    }
}

/// A policy: the decision for a request given the key's state and the caller.
///
/// `decides` is what the policy decides, as a function of the request, the
/// key's state and the caller; `select` computes it.
pub trait CachePolicy<K, V>: Send + Sync {
    spec fn decides(&self, request: CacheRequest<K, V>, state: CacheState, identity: IdentityContext) -> PolicyDecision;

    fn select(&self, request: &CacheRequest<K, V>, state: &CacheState, identity: &IdentityContext) -> (d:
        PolicyDecision)
        ensures
            d == self.decides(*request, *state, *identity),
    ;
}

impl<K, V> CachePolicy<K, V> for DefaultPolicy {
    open spec fn decides(&self, request: CacheRequest<K, V>, state: CacheState, identity: IdentityContext) -> PolicyDecision {
        default_decision(request.operation, state)
    }

    fn select(&self, request: &CacheRequest<K, V>, state: &CacheState, identity: &IdentityContext) -> (d:
        PolicyDecision)
    {
        let mut decision = PolicyDecision::allow(Self::base_tier(request.operation, state.tier));
        decision.operation = request.operation;
        decision.tier = Self::healthy_fallback(decision.tier, state);
        decision
    }
}

/// A policy that enforces authentication-based authorization: reads (`Get`,
/// `Exists`) are allowed for any identity, mutating operations require an
/// authenticated identity.
#[derive(Debug, Clone)]
pub struct StrictPolicy;

impl<K, V> CachePolicy<K, V> for StrictPolicy {
    open spec fn decides(&self, request: CacheRequest<K, V>, state: CacheState, identity: IdentityContext) -> PolicyDecision {
        strict_decision(request.operation, state, identity)
    }

    fn select(&self, request: &CacheRequest<K, V>, state: &CacheState, identity: &IdentityContext) -> (d:
        PolicyDecision)
    {
        let mutating = match request.operation {
            CacheOperation::Put
            | CacheOperation::Remove
            | CacheOperation::Invalidate
            | CacheOperation::Refresh
            | CacheOperation::Promote
            | CacheOperation::Demote => true,
            _ => false,
        };
        if mutating && !identity.is_authenticated() {
            return PolicyDecision::deny();
        }
        DefaultPolicy.select(request, state, identity)
    }
}

/// `DefaultPolicy` authorizes every request, and sends writes to L1.
pub proof fn lemma_default_policy_permissive(op: CacheOperation, state: CacheState)
    ensures
        default_decision(op, state).authorized,
        default_decision(op, state).operation == op,
        op is Put && !(state.tier == TierId::L1 && state.tier_health.circuit_open()) ==> default_decision(
            op,
            state,
        ).tier == TierId::L1,
{
}

/// `StrictPolicy` differs from `DefaultPolicy` only by denying mutations of
/// anonymous callers; reads are decided identically for everyone.
pub proof fn lemma_strict_policy(op: CacheOperation, state: CacheState, identity: IdentityContext)
    ensures
        !is_mutating(op) ==> strict_decision(op, state, identity) == default_decision(op, state),
        identity.authenticated() ==> strict_decision(op, state, identity) == default_decision(op, state),
        is_mutating(op) && !identity.authenticated() ==> !strict_decision(op, state, identity).authorized,
{
}

} // verus!
