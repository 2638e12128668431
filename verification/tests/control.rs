use std::convert::TryFrom;
use std::time::Duration;

use thesix::control::cachelito::{ControlEntry, EntryStateAtomic};
use thesix::{CacheError, Cachelito, EntryState, Generation, TierId};

#[test]
fn test_stale_generation_rejection() {
    let mut cachelito = Cachelito::new();
    let key_bytes = b"stale-key".to_vec();
    cachelito.set_generation(&key_bytes, Generation::new(1)).unwrap();
    cachelito.set_state(&key_bytes, EntryState::InFlight).unwrap();
    cachelito.set_generation(&key_bytes, Generation::new(2)).unwrap();
    let result = cachelito.publish(&key_bytes, Generation::new(1), TierId::L1, None);
    assert!(matches!(result, Err(CacheError::StaleGeneration)));
}

#[test]
fn test_owner_cancellation() {
    let mut cachelito = Cachelito::new();
    let key_bytes = b"cancel-key".to_vec();
    cachelito.set_generation(&key_bytes, Generation::new(1)).unwrap();
    cachelito.set_state(&key_bytes, EntryState::InFlight).unwrap();
    cachelito.fail(&key_bytes).unwrap();
    let snapshot = cachelito.acquire(&key_bytes, TierId::L0).unwrap();
    assert!(snapshot.population_owner || matches!(snapshot.state, EntryState::Failed));
    assert!(snapshot.population_owner);
    assert_eq!(snapshot.generation, Generation::new(2));
}

#[test]
fn cachelito_single_flight() {
    let mut c = Cachelito::new();
    let first = c.acquire(b"sf", TierId::L2).unwrap();
    assert!(first.population_owner);
    assert_eq!(first.state, EntryState::InFlight);
    assert_eq!(first.generation, Generation::new(1));
    assert_eq!(first.tier, TierId::L2);
    let second = c.acquire(b"sf", TierId::L0).unwrap();
    assert!(!second.population_owner);
    assert_eq!(second.state, EntryState::InFlight);
    assert_eq!(second.generation, Generation::new(1));
    assert_eq!(second.tier, TierId::L2);
}

#[test]
fn cachelito_owner_publish_then_ready() {
    let mut c = Cachelito::new();
    let owner = c.acquire(b"k", TierId::L1).unwrap();
    c.publish(b"k", owner.generation, TierId::L1, Some(Duration::from_secs(60))).unwrap();
    let s = c.acquire(b"k", TierId::L0).unwrap();
    assert_eq!(s.state, EntryState::Ready);
    assert_eq!(s.tier, TierId::L1);
    assert!(!s.expired);
    assert_eq!(s.ttl, Some(Duration::from_secs(60)));
    assert_eq!(c.publish(b"untracked", Generation::new(0), TierId::L0, None), Err(CacheError::Miss));
}

#[test]
fn cachelito_invalidate_bumps_generation() {
    let mut c = Cachelito::new();
    let owner = c.acquire(b"k", TierId::L1).unwrap();
    c.invalidate(b"k").unwrap();
    assert_eq!(c.generation_of(b"k"), Some(Generation::new(2)));
    assert_eq!(c.state_of(b"k"), Some(EntryState::Absent));
    assert_eq!(c.publish(b"k", owner.generation, TierId::L1, None), Err(CacheError::StaleGeneration));
    c.release(b"missing").unwrap();
    assert_eq!(c.generation_of(b"missing"), None);
}

#[test]
fn cachelito_failure_reaches_waiters() {
    let mut c = Cachelito::new();
    c.acquire(b"k", TierId::L0).unwrap();
    c.fail_with_error(b"k", CacheError::Timeout).unwrap();
    assert_eq!(c.state_of(b"k"), Some(EntryState::Failed));
    let again = c.acquire(b"k", TierId::L0).unwrap();
    assert!(again.population_owner);
    assert_eq!(again.last_error, None);
    c.fail_with_error(b"k", CacheError::Miss).unwrap();
    let mut other = Cachelito::with_shards(0);
    assert_eq!(other.fail(b"nothing"), Err(CacheError::Miss));
    other.set_state(b"x", EntryState::Ready).unwrap();
    let s = other.acquire(b"x", TierId::L3).unwrap();
    assert_eq!(s.state, EntryState::Ready);
    assert!(!s.population_owner);
}

#[test]
fn cachelito_full_shard_refuses_new_keys() {
    let mut c = Cachelito::with_shards(1);
    let mut refused = 0;
    for i in 0..2000u32 {
        let key = i.to_le_bytes();
        match c.acquire(&key, TierId::L0) {
            Ok(_) => {},
            Err(e) => {
                assert_eq!(e, CacheError::ConfigurationError);
                refused += 1;
            },
        }
    }
    assert!(refused > 0);
    assert!(c.can_claim(&0u32.to_le_bytes()));
    assert!(c.try_acquire(&0u32.to_le_bytes(), TierId::L0).is_some());
}

#[test]
fn control_entry_fields() {
    let mut e = ControlEntry::new(42);
    assert_eq!(e.key_hash(), 42);
    assert_eq!(e.state(), EntryState::Absent);
    assert_eq!(e.generation(), Generation::new(0));
    assert_eq!(e.increment_generation(), Generation::new(1));
    e.set_ttl(Some(Duration::from_millis(3)));
    assert_eq!(e.ttl(), Some(Duration::from_millis(3)));
    e.set_population_timestamp(Some(1_000));
    assert!(!e.is_expired(3_000_999));
    assert!(e.is_expired(3_001_000));
    e.set_ttl(None);
    assert_eq!(e.ttl(), None);
    assert!(!e.is_expired(u64::MAX));
    e.set_last_error(Some(CacheError::Cancelled));
    assert_eq!(e.last_error(), Some(CacheError::Cancelled));
    e.set_last_error(Some(CacheError::Unauthorized));
    assert_eq!(e.last_error(), Some(CacheError::PopulationFailed));
    e.set_last_error(None);
    assert_eq!(e.last_error(), None);
}

#[test]
fn entry_state_codes_roundtrip() {
    for s in [EntryState::Absent, EntryState::Ready, EntryState::Stale, EntryState::InFlight, EntryState::Failed] {
        let a = EntryStateAtomic::from(s);
        assert_eq!(EntryState::from(EntryStateAtomic::try_from(a.code()).unwrap()), s);
    }
    assert!(EntryStateAtomic::try_from(5u8).is_err());
    assert_eq!(EntryStateAtomic::InFlight.code(), 3);
}

#[test]
fn control_entry_ttl_round_trip() {
    let mut e = ControlEntry::new(7);
    e.set_ttl(Some(Duration::from_millis(1500)));
    assert_eq!(e.ttl(), Some(Duration::from_millis(1500)));
    e.set_ttl(Some(Duration::ZERO));
    assert_eq!(e.ttl(), None);
    e.set_ttl(None);
    assert_eq!(e.ttl(), None);
}

#[test]
fn cachelito_publish_then_observe() {
    let mut c = Cachelito::new();
    let owner = c.acquire(b"k", TierId::L0).unwrap();
    c.publish(b"k", owner.generation, TierId::L2, Some(Duration::from_secs(3))).unwrap();
    let seen = c.observe(b"k");
    assert_eq!(seen.state, EntryState::Ready);
    assert_eq!(seen.tier, TierId::L2);
    assert_eq!(seen.generation, owner.generation);
    assert!(!seen.population_owner);
    assert_eq!(seen.last_error, None);
    assert_eq!(seen.ttl, Some(Duration::from_secs(3)));
    let untracked = c.observe(b"other");
    assert_eq!(untracked.state, EntryState::Absent);
    assert_eq!(c.state_of(b"other"), None);
}
