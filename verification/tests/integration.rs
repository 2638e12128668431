use thesix::manager::{after_failed_attempt, next_backoff, refresh_result, AttemptStep, RETRY_BASE_BACKOFF_MS};
use thesix::{
    CacheContext, CacheError, CacheManager, CachePolicy, CacheRequest, CacheState, Cachelito, DefaultPolicy, FailMode,
    EntryState, FetchStart, IdentityContext, MemoryPool, PolicyDecision, Population, ReadStart, StrictPolicy,
    TestTier, TierId, TierRegistry,
};

type Manager<P> = CacheManager<String, String, P, TestTier<String>>;

fn test_ctx() -> CacheContext {
    CacheContext::new(IdentityContext::new(
        "test-principal".to_string(),
        vec!["tester".to_string()],
        "test-tenant".to_string(),
    ))
}

fn anon_ctx() -> CacheContext {
    CacheContext::anonymous()
}

fn tiers() -> Vec<TestTier<String>> {
    vec![
        TestTier::new(TierId::L0),
        TestTier::new(TierId::L1),
        TestTier::new(TierId::L2),
        TestTier::new(TierId::L3),
        TestTier::new(TierId::L4),
        TestTier::new(TierId::L5),
    ]
}

fn make_manager<P: CachePolicy<String, String>>(policy: P) -> Manager<P> {
    let pool = MemoryPool::new(1024).expect("MemoryPool allocation failed");
    CacheManager::new(policy, Cachelito::new(), TierRegistry::new(), tiers(), pool)
}

/// A read: its first step, and the read of the snapshot's tier after a wait.
fn get<P: CachePolicy<String, String>>(m: &mut Manager<P>, key: &String, ctx: &CacheContext) -> Result<Option<String>, CacheError> {
    match m.get_start(key, ctx)? {
        ReadStart::Found(v) => Ok(v),
        ReadStart::Wait(s) => m.read_tier(key, s.tier),
    }
}

/// A population owned by this caller, every retry taken at once.
fn populate<P: CachePolicy<String, String>>(
    m: &mut Manager<P>,
    key: &String,
    population: &Population,
    ctx: &CacheContext,
    fetch: &dyn Fn() -> Result<String, CacheError>,
) -> Result<String, CacheError> {
    let mut backoff = RETRY_BASE_BACKOFF_MS;
    let mut attempt: u32 = 0;
    loop {
        attempt += 1;
        let outcome = match fetch() {
            Ok(v) => m.store_population(key, population, v, ctx),
            Err(e) => Err(e),
        };
        let err = match outcome {
            Ok(v) => return Ok(v),
            Err(e) => e,
        };
        match after_failed_attempt(attempt, err, backoff, population.decision.fail_mode) {
            AttemptStep::Retry(_) => backoff = next_backoff(backoff),
            AttemptStep::Stale => return Err(CacheError::StaleGeneration),
            AttemptStep::FailOpen(e) | AttemptStep::FailClosed(e) => {
                return m.population_failed(key, e, population.decision.fail_mode)
            },
        }
    }
}

fn get_or_fetch<P: CachePolicy<String, String>>(
    m: &mut Manager<P>,
    key: &String,
    ctx: &CacheContext,
    fetch: &dyn Fn() -> Result<String, CacheError>,
) -> Result<String, CacheError> {
    match m.fetch_start(key, ctx)? {
        FetchStart::Hit(v) => Ok(v),
        FetchStart::Wait(_) => m.read_after_wait(key),
        FetchStart::Populate(p) => populate(m, key, &p, ctx, fetch),
    }
}

fn refresh<P: CachePolicy<String, String>>(
    m: &mut Manager<P>,
    key: &String,
    ctx: &CacheContext,
    fetch: &dyn Fn() -> Result<String, CacheError>,
) -> Result<Option<String>, CacheError> {
    let (population, current) = m.refresh_start(key, ctx)?;
    let outcome = populate(m, key, &population, ctx, fetch);
    Ok(refresh_result(outcome, current))
}

#[test]
fn test_invalidation() {
    let mut manager = make_manager(DefaultPolicy);
    let key = "invalidate-key".to_string();
    manager.set(&key, "value".to_string(), &test_ctx()).unwrap();
    let result = get(&mut manager, &key, &test_ctx()).unwrap();
    assert_eq!(result, Some("value".to_string()));
    manager.invalidate(&key, &test_ctx()).unwrap();
    let result = get(&mut manager, &key, &test_ctx());
    assert!(matches!(result, Err(CacheError::Miss)));
}

#[test]
fn test_promotion() {
    let mut manager = make_manager(DefaultPolicy);
    let key = "promote-key".to_string();
    manager.set(&key, "value".to_string(), &test_ctx()).unwrap();
    let result = manager.promote(&key, &test_ctx());
    assert!(result.is_ok());
    let result = get(&mut manager, &key, &test_ctx()).unwrap();
    assert_eq!(result, Some("value".to_string()));
}

#[test]
fn test_demotion() {
    let mut manager = make_manager(DefaultPolicy);
    let key = "demote-key".to_string();
    manager.set(&key, "value".to_string(), &test_ctx()).unwrap();
    let result = manager.demote(&key, &test_ctx());
    assert!(result.is_ok());
    let result = get(&mut manager, &key, &test_ctx()).unwrap();
    assert_eq!(result, Some("value".to_string()));
}

#[test]
fn test_complete_six_tier_integration() {
    let mut manager = make_manager(DefaultPolicy);
    for i in 0..6 {
        let key = format!("integration-key-{}", i);
        manager.set(&key, format!("value-{}", i), &test_ctx()).unwrap();
        let result = get(&mut manager, &key, &test_ctx()).unwrap();
        assert_eq!(result, Some(format!("value-{}", i)));
    }
    manager.invalidate(&"integration-key-0".to_string(), &test_ctx()).unwrap();
    let result = get(&mut manager, &"integration-key-0".to_string(), &test_ctx());
    assert!(matches!(result, Err(CacheError::Miss)));
    let result = get_or_fetch(&mut manager, &"integration-key-7".to_string(), &test_ctx(), &|| {
        Ok("fetched-value".to_string())
    });
    assert_eq!(result.unwrap(), "fetched-value".to_string());
    manager.remove(&"integration-key-1".to_string(), &test_ctx()).unwrap();
    let result = get(&mut manager, &"integration-key-1".to_string(), &test_ctx());
    assert!(matches!(result, Err(CacheError::Miss)));
}

#[test]
fn test_exists() {
    let mut manager = make_manager(DefaultPolicy);
    let key = "exists-key".to_string();
    assert!(!manager.key_exists(&key, &test_ctx()).unwrap());
    manager.set(&key, "value".to_string(), &test_ctx()).unwrap();
    assert!(manager.key_exists(&key, &test_ctx()).unwrap());
    manager.invalidate(&key, &test_ctx()).unwrap();
    assert!(!manager.key_exists(&key, &test_ctx()).unwrap());
}

#[test]
fn test_refresh_populates_and_revalidates() {
    let mut manager = make_manager(DefaultPolicy);
    let key = "refresh-key".to_string();
    let v = refresh(&mut manager, &key, &test_ctx(), &|| Ok("v1".to_string())).unwrap();
    assert_eq!(v, Some("v1".to_string()));
    let v = refresh(&mut manager, &key, &test_ctx(), &|| Ok("v2".to_string())).unwrap();
    assert_eq!(v, Some("v2".to_string()));
}

#[test]
fn test_refresh_serves_stale_on_failure() {
    let mut manager = make_manager(DefaultPolicy);
    let key = "refresh-stale".to_string();
    manager.set(&key, "old".to_string(), &test_ctx()).unwrap();
    let v = refresh(&mut manager, &key, &test_ctx(), &|| Err(CacheError::PopulationFailed)).unwrap();
    assert_eq!(v, Some("old".to_string()));
}

#[test]
fn test_unauthenticated_rejected() {
    let mut manager = make_manager(DefaultPolicy);
    let key = "authn-key".to_string();
    let result = get(&mut manager, &key, &anon_ctx());
    assert!(matches!(result, Err(CacheError::Unauthenticated)));
    let result = manager.set(&key, "v".to_string(), &anon_ctx());
    assert!(matches!(result, Err(CacheError::Unauthenticated)));
    let result = manager.key_exists(&key, &anon_ctx());
    assert!(matches!(result, Err(CacheError::Unauthenticated)));
}

#[test]
fn test_strict_policy_denies_anonymous_writes() {
    let pool = MemoryPool::new(1024).expect("MemoryPool allocation failed");
    let mut manager: Manager<StrictPolicy> =
        CacheManager::new(StrictPolicy, Cachelito::new(), TierRegistry::new(), tiers(), pool);
    let key = "strict-key".to_string();
    manager.set(&key, "v".to_string(), &test_ctx()).unwrap();
    assert!(manager.key_exists(&key, &test_ctx()).unwrap());
}

#[test]
fn test_ttl_lazy_expiry() {
    let mut manager = make_manager(DefaultPolicy);
    let key = "ttl-key".to_string();
    let ctx = test_ctx().with_ttl(std::time::Duration::from_millis(50));
    manager.set(&key, "value".to_string(), &ctx).unwrap();
    assert!(manager.key_exists(&key, &test_ctx()).unwrap());
    let start = std::time::Instant::now();
    while start.elapsed() < std::time::Duration::from_millis(120) {}
    let result = get(&mut manager, &key, &test_ctx());
    assert!(matches!(result, Err(CacheError::Miss)));
    assert_eq!(manager.cachelito().generation_of(key.as_bytes()).map(|g| g.0), Some(2));
}

#[test]
fn test_basic_get_set() {
    let mut manager = make_manager(DefaultPolicy);
    let key = "test-key".to_string();
    manager.set(&key, "test-value".to_string(), &test_ctx()).unwrap();
    let result = get(&mut manager, &key, &test_ctx()).unwrap();
    assert_eq!(result, Some("test-value".to_string()));
}

#[test]
fn test_tier_traversal() {
    let mut manager = make_manager(DefaultPolicy);
    let key = "tier-key".to_string();
    manager.set(&key, "tier-value".to_string(), &test_ctx()).unwrap();
    let result = get(&mut manager, &key, &test_ctx()).unwrap();
    assert_eq!(result, Some("tier-value".to_string()));
    assert_eq!(manager.cachelito().state_of(b"tier-key"), Some(EntryState::Ready));
    assert!(matches!(manager.cachelito().tier_of(b"tier-key"), Some(TierId::L1)));
}

#[derive(Debug, Clone)]
struct DenyPolicy;

impl<K, V> CachePolicy<K, V> for DenyPolicy {
    fn decides(&self, _request: CacheRequest<K, V>, _state: CacheState, _identity: IdentityContext) -> PolicyDecision {
        PolicyDecision::deny()
    }

    fn select(&self, _request: &CacheRequest<K, V>, _state: &CacheState, _identity: &IdentityContext) -> PolicyDecision {
        PolicyDecision::deny()
    }
}

#[test]
fn test_policy_replacement() {
    let mut manager = make_manager(DefaultPolicy);
    let key = "policy-key".to_string();
    manager.set(&key, "value".to_string(), &test_ctx()).unwrap();
    let result = get(&mut manager, &key, &test_ctx()).unwrap();
    assert_eq!(result, Some("value".to_string()));

    let mut manager_deny = make_manager(DenyPolicy);
    let result = get(&mut manager_deny, &key, &test_ctx());
    assert!(matches!(result, Err(CacheError::Unauthorized)));
    let result = manager_deny.set(&key, "value".to_string(), &test_ctx());
    assert!(matches!(result, Err(CacheError::Unauthorized)));
}

#[test]
fn test_single_flight_population() {
    let mut manager = make_manager(DefaultPolicy);
    let key = "sf-key".to_string();
    let fetch_count = std::cell::Cell::new(0usize);
    let result = get_or_fetch(&mut manager, &key, &test_ctx(), &|| {
        fetch_count.set(fetch_count.get() + 1);
        Ok("fetched".to_string())
    });
    assert_eq!(result.unwrap(), "fetched".to_string());
    assert_eq!(fetch_count.get(), 1);
}

#[test]
fn manager_second_caller_waits_for_the_owner() {
    let mut manager = make_manager(DefaultPolicy);
    let key = "burst-key".to_string();
    let owner = match manager.fetch_start(&key, &test_ctx()).unwrap() {
        FetchStart::Populate(p) => p,
        _ => panic!("the first caller populates"),
    };
    let waiter = match manager.fetch_start(&key, &test_ctx()).unwrap() {
        FetchStart::Wait(s) => s,
        _ => panic!("the second caller waits"),
    };
    assert_eq!(waiter.generation, owner.generation);
    assert_eq!(manager.store_population(&key, &owner, "burst-value".to_string(), &test_ctx()).unwrap(), "burst-value");
    assert_eq!(manager.read_after_wait(&key).unwrap(), "burst-value");
}

#[test]
fn test_population_failure() {
    let mut manager = make_manager(DefaultPolicy);
    let key = "fail-key".to_string();
    let result = get_or_fetch(&mut manager, &key, &test_ctx(), &|| Err(CacheError::PopulationFailed));
    assert!(matches!(result, Err(CacheError::PopulationFailed)));
    assert!(matches!(
        manager.cachelito().state_of(b"fail-key"),
        Some(EntryState::InFlight) | Some(EntryState::Failed) | Some(EntryState::Absent)
    ));
}

#[test]
fn manager_population_rejected_after_invalidate() {
    let mut manager = make_manager(DefaultPolicy);
    let key = "stale-key".to_string();
    let owner = match manager.fetch_start(&key, &test_ctx()).unwrap() {
        FetchStart::Populate(p) => p,
        _ => panic!("the first caller populates"),
    };
    manager.invalidate(&key, &test_ctx()).unwrap();
    let r = manager.store_population(&key, &owner, "late".to_string(), &test_ctx());
    assert_eq!(r, Err(CacheError::StaleGeneration));
}

#[test]
fn test_tier_failure() {
    let mut l3 = TestTier::<String>::new(TierId::L3);
    let key_ref = thesix::KeyRef(b"tier-fail".as_slice());
    thesix::CacheTier::set(&mut l3, &key_ref, "value".to_string(), None).unwrap();
    l3.set_healthy(false);
    let mut all = tiers();
    all[3] = l3;
    let mut cachelito = Cachelito::new();
    cachelito.acquire(key_ref.0, TierId::L0).unwrap();
    cachelito.set_tier(key_ref.0, TierId::L3).unwrap();
    cachelito.set_state(key_ref.0, EntryState::Ready).unwrap();
    let pool = MemoryPool::new(1024).expect("MemoryPool allocation failed");
    let mut manager: Manager<DefaultPolicy> = CacheManager::new(DefaultPolicy, cachelito, TierRegistry::new(), all, pool);
    let key = "tier-fail".to_string();
    let result = get(&mut manager, &key, &test_ctx());
    assert!(result.is_err());
    assert_eq!(manager.tier_registry().tier_health(TierId::L3).consecutive_failures, 1);
}

#[test]
fn test_tier_recovery() {
    let mut l3 = TestTier::<String>::new(TierId::L3);
    l3.set_healthy(true);
    let mut all = tiers();
    all[3] = l3;
    let pool = MemoryPool::new(1024).expect("MemoryPool allocation failed");
    let mut manager: Manager<DefaultPolicy> =
        CacheManager::new(DefaultPolicy, Cachelito::new(), TierRegistry::new(), all, pool);
    let result = get_or_fetch(&mut manager, &"tier-recover".to_string(), &test_ctx(), &|| Ok("recovered".to_string()));
    assert_eq!(result.unwrap(), "recovered".to_string());
    assert!(thesix::CacheTier::health(manager.tier(&TierId::L3)).healthy());
}

#[test]
fn manager_promote_then_demote_restores_tier() {
    let mut manager = make_manager(DefaultPolicy);
    let key = "round-trip".to_string();
    manager.set(&key, "v".to_string(), &test_ctx()).unwrap();
    assert_eq!(manager.cachelito().tier_of(key.as_bytes()), Some(TierId::L1));
    manager.promote(&key, &test_ctx()).unwrap();
    assert_eq!(manager.cachelito().tier_of(key.as_bytes()), Some(TierId::L0));
    manager.demote(&key, &test_ctx()).unwrap();
    assert_eq!(manager.cachelito().tier_of(key.as_bytes()), Some(TierId::L1));
    assert_eq!(manager.cachelito().state_of(key.as_bytes()), Some(EntryState::Ready));
    manager.promote(&key, &test_ctx()).unwrap();
    manager.promote(&key, &test_ctx()).unwrap();
    assert_eq!(manager.cachelito().tier_of(key.as_bytes()), Some(TierId::L0));
}

#[test]
fn manager_rejects_long_keys() {
    let mut manager = make_manager(DefaultPolicy);
    let key = "k".repeat(300);
    assert_eq!(manager.set(&key, "v".to_string(), &test_ctx()), Err(CacheError::ConfigurationError));
    assert!(matches!(manager.get_start(&key, &test_ctx()), Err(CacheError::ConfigurationError)));
    assert_eq!(manager.invalidate(&key, &test_ctx()), Err(CacheError::ConfigurationError));
    assert!(manager.has_write_room(&key) && manager.has_claim_room(&key) && manager.has_reclaim_room(&key));
    assert!(manager.try_set(&key, "v".to_string(), &test_ctx()).is_some());
}

#[test]
fn manager_read_miss_does_not_block_populate() {
    let mut manager = make_manager(DefaultPolicy);
    let key = "k".to_string();
    assert!(matches!(get(&mut manager, &key, &test_ctx()), Err(CacheError::Miss)));
    assert_eq!(manager.cachelito().state_of(key.as_bytes()), None);
    let fetch_count = std::cell::Cell::new(0usize);
    let result = get_or_fetch(&mut manager, &key, &test_ctx(), &|| {
        fetch_count.set(fetch_count.get() + 1);
        Ok("v".to_string())
    });
    assert_eq!(result, Ok("v".to_string()));
    assert_eq!(fetch_count.get(), 1);
}

#[test]
fn manager_refused_set_touches_no_state() {
    let mut manager = make_manager(DenyPolicy);
    let key = "refused".to_string();
    assert_eq!(manager.set(&key, "v".to_string(), &test_ctx()), Err(CacheError::Unauthorized));
    assert_eq!(manager.cachelito().state_of(key.as_bytes()), None);
    assert_eq!(manager.set(&key, "v".to_string(), &anon_ctx()), Err(CacheError::Unauthenticated));
    assert_eq!(manager.cachelito().state_of(key.as_bytes()), None);
    let mut control = Cachelito::new();
    let snapshot = control.acquire(key.as_bytes(), TierId::L0).unwrap();
    assert!(snapshot.population_owner);
    assert_eq!(snapshot.generation.0, 1);
}

#[test]
fn manager_waiter_receives_the_owner_error() {
    let mut manager = make_manager(DefaultPolicy);
    let key = "owner-fails".to_string();
    assert!(matches!(manager.fetch_start(&key, &test_ctx()).unwrap(), FetchStart::Populate(_)));
    assert!(matches!(manager.fetch_start(&key, &test_ctx()).unwrap(), FetchStart::Wait(_)));
    assert_eq!(
        manager.population_failed(&key, CacheError::PopulationFailed, FailMode::Closed),
        Err(CacheError::PopulationFailed)
    );
    assert_eq!(manager.read_after_wait(&key), Err(CacheError::PopulationFailed));
}

#[test]
fn manager_exists_after_set_and_invalidate() {
    let mut manager = make_manager(DefaultPolicy);
    let key = "exists-key".to_string();
    assert_eq!(manager.key_exists(&key, &test_ctx()), Ok(false));
    assert_eq!(manager.cachelito().state_of(key.as_bytes()), None);
    manager.set(&key, "value".to_string(), &test_ctx()).unwrap();
    assert_eq!(manager.key_exists(&key, &test_ctx()), Ok(true));
    manager.invalidate(&key, &test_ctx()).unwrap();
    assert_eq!(manager.key_exists(&key, &test_ctx()), Ok(false));
}

#[test]
fn manager_fail_open_serves_from_a_healthy_tier() {
    let mut manager = make_manager(DefaultPolicy);
    let key = "fallback-key".to_string();
    manager.set(&key, "kept".to_string(), &test_ctx()).unwrap();
    assert_eq!(
        manager.population_failed(&key, CacheError::PopulationFailed, FailMode::Open),
        Ok("kept".to_string())
    );
    let other = "nowhere".to_string();
    assert_eq!(
        manager.population_failed(&other, CacheError::PopulationFailed, FailMode::Open),
        Err(CacheError::PopulationFailed)
    );
}

#[test]
fn manager_promote_keeps_the_value_readable() {
    let mut manager = make_manager(DefaultPolicy);
    let key = "carried".to_string();
    manager.set(&key, "payload".to_string(), &test_ctx()).unwrap();
    manager.promote(&key, &test_ctx()).unwrap();
    assert_eq!(manager.cachelito().tier_of(key.as_bytes()), Some(TierId::L0));
    assert_eq!(get(&mut manager, &key, &test_ctx()), Ok(Some("payload".to_string())));
    manager.demote(&key, &test_ctx()).unwrap();
    assert_eq!(get(&mut manager, &key, &test_ctx()), Ok(Some("payload".to_string())));
}
