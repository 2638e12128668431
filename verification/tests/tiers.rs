use std::time::Duration;

use thesix::tier::fixed_tier_stub::FixedTierStub;
use thesix::tier::tier_trait::{CIRCUIT_OPEN_FAILURES, FULL_HEALTH_SCORE};
use thesix::{CacheError, CacheTier, KeyRef, L2Stub, L4Stub, L5Stub, TestTier, TierHealth, TierId, TierRegistry};

#[test]
fn fixed_tier_stub_set_get_remove() {
    let mut stub: FixedTierStub<String> = FixedTierStub::with_capacity(8);
    let key = KeyRef(b"k1".as_slice());
    assert_eq!(stub.get(&key), Ok(None));
    assert_eq!(stub.contains(&key), Ok(false));
    stub.set(&key, "v1".to_string(), None).unwrap();
    assert_eq!(stub.get(&key), Ok(Some("v1".to_string())));
    stub.set(&key, "v2".to_string(), None).unwrap();
    assert_eq!(stub.get(&key), Ok(Some("v2".to_string())));
    assert_eq!(stub.contains(&key), Ok(true));
    stub.remove(&key).unwrap();
    assert_eq!(stub.get(&key), Ok(None));
    stub.remove(&key).unwrap();
}

#[test]
fn fixed_tier_stub_fills_up() {
    let mut stub: FixedTierStub<u32> = FixedTierStub::with_capacity(4);
    for i in 0..4u32 {
        let k = i.to_le_bytes();
        stub.set(&KeyRef(&k), i, None).unwrap();
    }
    let k = 9u32.to_le_bytes();
    assert_eq!(stub.set(&KeyRef(&k), 9, None), Err(CacheError::ConfigurationError));
    for i in 0..4u32 {
        let k = i.to_le_bytes();
        assert_eq!(stub.get(&KeyRef(&k)), Ok(Some(i)));
    }
}

#[test]
fn fixed_tier_stub_ttl_expires() {
    let mut stub: FixedTierStub<u32> = FixedTierStub::with_capacity(8);
    let key = KeyRef(b"ttl".as_slice());
    stub.set_at(&key, 7, Some(Duration::from_nanos(100)), 1_000).unwrap();
    assert_eq!(stub.get_at(&key, 1_099), Ok(Some(7)));
    assert_eq!(stub.get_at(&key, 1_100), Ok(None));
    assert_eq!(stub.contains_at(&key, 1_100), Ok(false));
}

#[test]
fn test_tier_health_and_failures() {
    let mut t: TestTier<String> = TestTier::new(TierId::L3);
    assert_eq!(t.name(), "test-L3");
    assert_eq!(t.tier_id(), TierId::L3);
    let key = KeyRef(b"k".as_slice());
    t.set(&key, "v".to_string(), None).unwrap();
    assert_eq!(t.get(&key), Ok(Some("v".to_string())));
    t.set_healthy(false);
    assert_eq!(t.get(&key), Err(CacheError::TierUnavailable));
    assert_eq!(t.contains(&key), Err(CacheError::TierUnavailable));
    let h = t.health();
    assert_eq!(h.consecutive_failures, 2);
    assert_eq!(h.health_score, 8);
    assert!(!h.healthy());
    t.set_healthy(true);
    assert_eq!(t.get(&key), Ok(Some("v".to_string())));
}

#[test]
fn unbacked_stubs_are_unavailable() {
    let mut l4: L4Stub<String> = L4Stub::new();
    let key = KeyRef(b"k".as_slice());
    assert_eq!(l4.get(&key), Err(CacheError::TierUnavailable));
    assert_eq!(l4.set(&key, "v".to_string(), None), Err(CacheError::TierUnavailable));
    assert!(l4.health().is_circuit_open());
    let mut l5: L5Stub<String> = L5Stub::new();
    assert_eq!(l5.contains(&key), Err(CacheError::TierUnavailable));
    assert_eq!(l5.name(), "L5-X");
    assert!(L5Stub::<String>::with_capacity(0).is_err());
    let mut l2: L2Stub<String> = L2Stub::new();
    l2.set(&key, "v".to_string(), None).unwrap();
    assert_eq!(l2.get(&key), Ok(Some("v".to_string())));
    assert_eq!(l2.tier_id(), TierId::L2);
}

#[test]
fn circuit_opens_after_five_failures() {
    let mut r = TierRegistry::new();
    assert_eq!(r.len(), 6);
    assert!(!r.is_empty());
    for _ in 0..(CIRCUIT_OPEN_FAILURES - 1) {
        r.fail(TierId::L2);
        assert!(!r.is_circuit_open(TierId::L2));
    }
    r.fail(TierId::L2);
    assert!(r.is_circuit_open(TierId::L2));
    assert!(!r.is_circuit_open(TierId::L3));
    assert_eq!(r.try_fallback_tier(TierId::L0), Some(TierId::L1));
    r.recover(TierId::L2);
    assert!(!r.is_circuit_open(TierId::L2));
    assert_eq!(r.tier_health(TierId::L2).health_score, FULL_HEALTH_SCORE);
    assert!(r.failure_counters_fit());
}

#[test]
fn fallback_skips_open_circuits() {
    let mut r = TierRegistry::new();
    for t in [TierId::L0, TierId::L1, TierId::L2] {
        for _ in 0..5 {
            r.fail(t);
        }
    }
    assert_eq!(r.try_fallback_tier(TierId::L3), Some(TierId::L4));
    for t in [TierId::L3, TierId::L4, TierId::L5] {
        for _ in 0..5 {
            r.fail(t);
        }
    }
    assert_eq!(r.try_fallback_tier(TierId::L3), None);
    assert_eq!(r.all(), &[TierId::L0, TierId::L1, TierId::L2, TierId::L3, TierId::L4, TierId::L5]);
}

#[test]
fn tier_ids_and_labels() {
    for (i, t) in [TierId::L0, TierId::L1, TierId::L2, TierId::L3, TierId::L4, TierId::L5].iter().enumerate() {
        assert_eq!(t.as_usize(), i);
        assert_eq!(TierId::from_usize(i), Some(*t));
        assert_eq!(t.label(), format!("L{}", i));
    }
    assert_eq!(TierId::from_usize(6), None);
}

#[test]
fn tier_health_records() {
    let mut h = TierHealth::default();
    assert!(h.healthy());
    h.record_failure(std::time::SystemTime::now());
    assert_eq!(h.consecutive_failures, 1);
    assert_eq!(h.health_score, 0);
    h.record_success();
    assert_eq!(h.health_score, FULL_HEALTH_SCORE);
    assert!(h.healthy());
}

#[test]
fn fixed_tier_stub_set_after_remove_reuses_the_pool_slot() {
    let mut s: FixedTierStub<u32> = FixedTierStub::with_capacity(1);
    let a = KeyRef(b"a".as_slice());
    let b = KeyRef(b"b".as_slice());
    assert_eq!(s.set(&a, 1, None), Ok(()));
    assert_eq!(s.set(&b, 2, None), Err(CacheError::ConfigurationError));
    assert_eq!(s.get(&a), Ok(Some(1)));
    assert_eq!(s.get(&b), Ok(None));
    s.remove(&a).unwrap();
    assert_eq!(s.set(&b, 2, None), Ok(()));
    assert_eq!(s.get(&b), Ok(Some(2)));
    assert_eq!(s.get(&a), Ok(None));
}

#[test]
fn fixed_tier_stub_removal_hides_no_other_key() {
    // With two slots, many of these pairs share a home slot; a removal must
    // never hide the key stored past it.
    for i in 0..32u32 {
        let mut s: FixedTierStub<u32> = FixedTierStub::with_capacity(2);
        let ka = format!("a{}", i);
        let kb = format!("b{}", i);
        let a = KeyRef(ka.as_bytes());
        let b = KeyRef(kb.as_bytes());
        s.set(&a, 1, None).unwrap();
        s.set(&b, 2, None).unwrap();
        s.remove(&a).unwrap();
        assert_eq!(s.get(&a), Ok(None));
        assert_eq!(s.get(&b), Ok(Some(2)));
        assert_eq!(s.contains(&b), Ok(true));
        s.set(&b, 3, None).unwrap();
        assert_eq!(s.get(&b), Ok(Some(3)));
        s.remove(&b).unwrap();
        assert_eq!(s.get(&b), Ok(None));
        assert_eq!(s.contains(&b), Ok(false));
    }
}
