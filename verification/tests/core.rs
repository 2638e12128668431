use std::time::Duration;

use thesix::manager::{
    after_failed_attempt, authorize, check_auth, is_retryable, next_backoff, promote_target, demote_target,
    read_step, refresh_result, tier_slot, AttemptStep, ReadStep, MAX_POPULATE_ATTEMPTS, RETRY_BASE_BACKOFF_MS,
};
use thesix::manager::cache_manager::encode_key;
use thesix::{
    CacheContext, CacheEntry, CacheError, Cachelito, EntryState, FailMode, Generation, IdentityContext, Key,
    MemoryPool, PolicyDecision, TierId,
};

#[test]
fn memory_pool_allocates_and_frees() {
    assert_eq!(MemoryPool::<u32>::new(0).err(), Some(CacheError::ConfigurationError));
    let mut pool = MemoryPool::new(2).unwrap();
    assert_eq!(pool.capacity(), 2);
    let a = pool.allocate(10u32).unwrap();
    let b = pool.allocate(20u32).unwrap();
    assert_ne!(a, b);
    assert_eq!(pool.allocate(30), Err(CacheError::ConfigurationError));
    assert_eq!(pool.get(a), Some(&10));
    *pool.get_mut(b).unwrap() = 21;
    assert_eq!(pool.get(b), Some(&21));
    pool.deallocate(a).unwrap();
    assert_eq!(pool.get(a), None);
    assert_eq!(pool.deallocate(7), Err(CacheError::ConfigurationError));
    let c = pool.allocate(30).unwrap();
    assert_eq!(c, a);
    assert_eq!(pool.get(7), None);
}

#[test]
fn keys_encode_their_bytes() {
    let mut buf = [9u8; 8];
    assert_eq!("héllo".encode(&mut buf), Ok(6));
    assert_eq!(&buf[..6], "héllo".as_bytes());
    assert_eq!(buf[6], 9);
    assert_eq!("héllo".to_string().encoded_len(), 6);
    assert_eq!(vec![1u8, 2, 3].encode(&mut buf), Ok(3));
    let mut small = [0u8; 2];
    assert_eq!("abc".encode(&mut small), Err(CacheError::ConfigurationError));
    assert_eq!(small, [0, 0]);
    assert_eq!(encode_key(&"k".to_string()), Ok(b"k".to_vec()));
    let long = "x".repeat(257);
    assert_eq!(encode_key(&long), Err(CacheError::ConfigurationError));
    assert_eq!(encode_key(&"y".repeat(256)).map(|b| b.len()), Ok(256));
}

#[test]
fn identities_and_contexts() {
    let anon = IdentityContext::anonymous();
    assert!(!anon.is_authenticated());
    let alice = IdentityContext::new("alice".into(), vec!["reader".into()], "tenant-1".into());
    assert!(alice.is_authenticated());
    let ctx = CacheContext::new(alice).with_ttl(Duration::from_secs(60));
    assert!(ctx.is_authenticated());
    assert_eq!(ctx.ttl(), Some(Duration::from_secs(60)));
    assert_eq!(ctx.identity().principal, "alice");
    let d = CacheContext::default();
    assert!(!d.is_authenticated());
    assert_eq!(d.ttl(), None);
    assert_eq!(check_auth(&d), Err(CacheError::Unauthenticated));
    assert_eq!(check_auth(&ctx), Ok(()));
    let from: CacheContext = IdentityContext::new("bob".into(), vec![], "t".into()).into();
    assert!(from.is_authenticated());
}

#[test]
fn generations_and_entries() {
    assert!(Generation::new(1).is_stale(Generation::new(2)));
    assert!(!Generation::new(2).is_stale(Generation::new(2)));
    let e = CacheEntry::new("v", Generation::new(3), Some(Duration::from_secs(1)));
    assert_eq!(e.value, "v");
    assert_eq!(e.generation, Generation::new(3));
}

#[test]
fn population_retries_are_bounded() {
    assert_eq!(MAX_POPULATE_ATTEMPTS, 3);
    assert_eq!(after_failed_attempt(1, CacheError::Timeout, RETRY_BASE_BACKOFF_MS, FailMode::Open), AttemptStep::Retry(50));
    assert_eq!(after_failed_attempt(2, CacheError::TierUnavailable, 100, FailMode::Open), AttemptStep::Retry(100));
    assert_eq!(
        after_failed_attempt(3, CacheError::Timeout, 200, FailMode::Open),
        AttemptStep::FailOpen(CacheError::Timeout)
    );
    assert_eq!(
        after_failed_attempt(1, CacheError::Miss, 50, FailMode::Closed),
        AttemptStep::FailClosed(CacheError::Miss)
    );
    assert_eq!(after_failed_attempt(1, CacheError::StaleGeneration, 50, FailMode::Open), AttemptStep::Stale);
    assert_eq!(next_backoff(50), 100);
    assert_eq!(next_backoff(u64::MAX / 2 + 1), u64::MAX);
    assert!(is_retryable(CacheError::PopulationFailed));
    assert!(!is_retryable(CacheError::Unauthorized));
}

#[test]
fn manager_decisions() {
    assert_eq!(authorize(&PolicyDecision::allow(TierId::L2)), Ok(()));
    assert_eq!(authorize(&PolicyDecision::deny()), Err(CacheError::Unauthorized));
    assert_eq!(refresh_result(Ok(2), Some(1)), Some(2));
    assert_eq!(refresh_result(Err(CacheError::Timeout), Some(1)), Some(1));
    assert_eq!(tier_slot(TierId::L4, 6), 4);
    assert_eq!(tier_slot(TierId::L4, 3), 0);

    let mut c = Cachelito::new();
    let claimed = c.acquire(b"k", TierId::L0).unwrap();
    assert_eq!(read_step(&claimed), ReadStep::Miss);
    assert_eq!(promote_target(&claimed), Err(CacheError::Miss));
    let waiter = c.acquire(b"k", TierId::L0).unwrap();
    assert_eq!(read_step(&waiter), ReadStep::Wait(TierId::L0));
    c.publish(b"k", claimed.generation, TierId::L3, None).unwrap();
    let ready = c.acquire(b"k", TierId::L0).unwrap();
    assert_eq!(ready.state, EntryState::Ready);
    assert_eq!(read_step(&ready), ReadStep::Serve(TierId::L3));
    assert_eq!(promote_target(&ready), Ok(Some(TierId::L2)));
    assert_eq!(demote_target(&ready), Ok(Some(TierId::L4)));
    c.set_tier(b"k", TierId::L5).unwrap();
    let coldest = c.acquire(b"k", TierId::L0).unwrap();
    assert_eq!(demote_target(&coldest), Ok(None));
    c.set_tier(b"k", TierId::L0).unwrap();
    let hottest = c.acquire(b"k", TierId::L0).unwrap();
    assert_eq!(promote_target(&hottest), Ok(None));
}
