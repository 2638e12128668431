use thesix::{
    CacheOperation, CachePolicy, CacheRequest, CacheState, Cachelito, DefaultPolicy, IdentityContext, PolicyDecision,
    StrictPolicy, TierHealth, TierId,
};

#[derive(Debug, Clone)]
struct DenyPolicy;

impl<K, V> CachePolicy<K, V> for DenyPolicy {
    fn decides(&self, _request: CacheRequest<K, V>, _state: CacheState, _identity: IdentityContext) -> PolicyDecision {
        PolicyDecision::deny()
    }

    fn select(&self, _request: &CacheRequest<K, V>, _state: &CacheState, _identity: &IdentityContext) -> PolicyDecision {
        PolicyDecision::deny()
    }
}

#[test]
fn test_policy_selection() {
    let policy = DefaultPolicy;

    let request_set: CacheRequest<&str, &str> = CacheRequest::new(CacheOperation::Put, "key");
    let request_get: CacheRequest<&str, &str> = CacheRequest::new(CacheOperation::Get, "key");
    let state = CacheState::new();
    let identity = IdentityContext::anonymous();

    let set_decision = policy.select(&request_set, &state, &identity);
    assert_eq!(set_decision.tier, TierId::L1);
    assert!(set_decision.authorized);

    let get_decision = policy.select(&request_get, &state, &identity);
    assert!(get_decision.authorized);

    let authenticated = IdentityContext::new("principal".into(), vec!["role".into()], "tenant".into());
    let get_decision_auth = policy.select(&request_get, &state, &authenticated);
    assert!(get_decision_auth.authorized);
    assert_eq!(get_decision_auth.tier, TierId::L0);

    let deny: &dyn CachePolicy<&str, &str> = &DenyPolicy;
    assert!(!deny.select(&request_get, &state, &identity).authorized);
}

#[test]
fn strict_policy_denies_anonymous_mutations() {
    let state = CacheState::new();
    let anon = IdentityContext::anonymous();
    let alice = IdentityContext::new("alice".into(), vec![], "t".into());
    let put: CacheRequest<&str, &str> = CacheRequest::new(CacheOperation::Put, "k");
    let get: CacheRequest<&str, &str> = CacheRequest::new(CacheOperation::Get, "k");
    let exists: CacheRequest<&str, &str> = CacheRequest::new(CacheOperation::Exists, "k");
    assert!(!StrictPolicy.select(&put, &state, &anon).authorized);
    assert_eq!(StrictPolicy.select(&put, &state, &anon).tier, TierId::L0);
    assert!(StrictPolicy.select(&put, &state, &alice).authorized);
    assert_eq!(StrictPolicy.select(&put, &state, &alice).tier, TierId::L1);
    assert!(StrictPolicy.select(&get, &state, &anon).authorized);
    assert!(StrictPolicy.select(&exists, &state, &anon).authorized);
    for op in [
        CacheOperation::Remove,
        CacheOperation::Invalidate,
        CacheOperation::Refresh,
        CacheOperation::Promote,
        CacheOperation::Demote,
    ] {
        let r: CacheRequest<&str, &str> = CacheRequest::new(op, "k");
        assert!(!StrictPolicy.select(&r, &state, &anon).authorized);
        assert_eq!(DefaultPolicy.select(&r, &state, &anon).tier, TierId::L0);
    }
}

#[test]
fn default_policy_routes_around_open_circuit() {
    let mut c = Cachelito::new();
    c.set_tier(b"k", TierId::L2).unwrap();
    let snapshot = c.acquire(b"k", TierId::L0).unwrap();
    let mut sick = TierHealth::default();
    sick.consecutive_failures = 5;
    let get: CacheRequest<&str, &str> = CacheRequest::new(CacheOperation::Get, "k");
    let state = CacheState::from_snapshot(&snapshot, sick);
    assert_eq!(state.tier, TierId::L0);
    let mut ready = Cachelito::new();
    ready.set_tier(b"k", TierId::L2).unwrap();
    ready.set_state(b"k", thesix::EntryState::Ready).unwrap();
    let snapshot = ready.acquire(b"k", TierId::L0).unwrap();
    let state = CacheState::from_snapshot(&snapshot, sick);
    assert_eq!(state.tier, TierId::L2);
    assert_eq!(DefaultPolicy.select(&get, &state, &IdentityContext::anonymous()).tier, TierId::L5);
    let healthy = CacheState::from_snapshot(&snapshot, TierHealth::default());
    assert_eq!(DefaultPolicy.select(&get, &healthy, &IdentityContext::anonymous()).tier, TierId::L2);
}

#[test]
fn request_builders() {
    let r: CacheRequest<&str, u32> = CacheRequest::new(CacheOperation::Put, "k")
        .with_value(7)
        .with_ttl(std::time::Duration::from_secs(1))
        .with_entry_size(64)
        .with_cost(3)
        .with_latency_budget(std::time::Duration::from_millis(5));
    assert_eq!(r.value, Some(7));
    assert_eq!(r.ttl, Some(std::time::Duration::from_secs(1)));
    assert_eq!(r.entry_size, 64);
    assert_eq!(r.cost, 3);
    assert_eq!(r.latency_budget, Some(std::time::Duration::from_millis(5)));
    let d = PolicyDecision::allow(TierId::L3);
    assert!(d.authorized);
    assert_eq!(d.tier, TierId::L3);
    let s = CacheState::default();
    assert_eq!(s.tier, TierId::L0);
}

#[test]
fn healthy_fallback_moves_toward_the_origin() {
    let mut sick = TierHealth::default();
    sick.consecutive_failures = 5;
    let mut state = CacheState::default();
    state.tier = TierId::L2;
    state.tier_health = sick;
    assert_eq!(DefaultPolicy::healthy_fallback(TierId::L2, &state), TierId::L5);
    assert_eq!(DefaultPolicy::healthy_fallback(TierId::L1, &state), TierId::L1);
    state.tier = TierId::L5;
    assert_eq!(DefaultPolicy::healthy_fallback(TierId::L5, &state), TierId::L5);
    state.tier_health = TierHealth::default();
    state.tier = TierId::L2;
    assert_eq!(DefaultPolicy::healthy_fallback(TierId::L2, &state), TierId::L2);
}
