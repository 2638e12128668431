//! The cache manager: every cache operation, from the authentication gate
//! through the policy decision and the control plane to the tier stores.
//!
//! Each operation here runs to completion without waiting. The operations
//! that wait (for a population another caller owns, or for a value source)
//! are split at their waits: `get_start`, `fetch_start` and `refresh_start`
//! say what to wait for, and the steps after the wait (`read_tier`,
//! `read_after_wait`, `store_population`, `population_failed`) finish them.
use vstd::prelude::*;

use std::marker::PhantomData;

use crate::control::cachelito::{
    acquire_snapshot, acquire_view, claimable, error_code, fail_view, observe_snapshot, publish_view, reset_view,
    ttl_nanos_of, woken, Cachelito, ControlSnapshot, ControlView, SnapshotView,
};
use crate::entry::{EntryState, Generation};
use crate::error::CacheError;
use crate::identity::CacheContext;
use crate::key::{bytes_hash, Key, KeyRef};
use crate::manager::{
    authorize, check_auth, decided, demote_target, must_wait, needs_reclaim, outcome_of, outcome_recorded, promote_target,
    read_step, read_step_spec, record_outcome, record_read, resolve, resolve_with_snapshot, serve_ready, tier_slot,
    write_generation, ReadStep, DEFAULT_WAIT_TIMEOUT_SECS, MAX_KEY_SIZE,
};
use crate::policy::{absent_state, snapshot_state, CacheOperation, CachePolicy, FailMode, PolicyDecision};
use crate::pool::MemoryPool;
use crate::tier::fixed_tier_stub::{holds_since, lookup_index};
use crate::tier::test::TestTier;
use crate::tier::{tier_at, tier_index, CacheTier, TierId, TierRegistry, TIER_COUNT};
use crate::time::{duration_from_nanos, duration_nanos};

verus! {

/// The bytes `key` encodes to, or `ConfigurationError` when they exceed
/// `MAX_KEY_SIZE`.
pub fn encode_key<K: Key>(key: &K) -> (r: Result<Vec<u8>, CacheError>)
    ensures
        match r {
            Ok(b) => b@ == key.key_bytes() && b@.len() <= MAX_KEY_SIZE,
            Err(e) => e == CacheError::ConfigurationError && key.key_bytes().len() > MAX_KEY_SIZE,
        },
{
    let mut buf: Vec<u8> = vec![0u8; MAX_KEY_SIZE];
    let n = match key.encode(buf.as_mut_slice()) {
        Ok(n) => n,
        Err(e) => return Err(e),
    };
    buf.truncate(n);
    assert(buf@ =~= key.key_bytes());
    Ok(buf)
}

/// After the policy decided `d`: a refusal is `Unauthorized` and a key too
/// long to encode is `ConfigurationError`, both with `unchanged` holding;
/// otherwise `then` holds.
pub open spec fn gate_then<X>(d: PolicyDecision, key: Seq<u8>, r: Result<X, CacheError>, unchanged: bool, then: bool) -> bool {
    &&& !d.authorized ==> r == Err::<X, CacheError>(CacheError::Unauthorized) && unchanged
    &&& d.authorized && key.len() > MAX_KEY_SIZE ==> r == Err::<X, CacheError>(CacheError::ConfigurationError)
        && unchanged
    &&& d.authorized && key.len() <= MAX_KEY_SIZE ==> then
}

/// Acquiring key bytes `kb` for `tier` at clock reading `now` took the
/// control plane from `oc` to `nc` and reported `s`.
pub open spec fn acquired(oc: Cachelito, nc: Cachelito, kb: Seq<u8>, tier: TierId, now: u64, s: SnapshotView) -> bool {
    let h = bytes_hash(kb);
    let before = Cachelito::entry_or_fresh(oc@, h);
    &&& Cachelito::same_shape(oc, nc)
    &&& oc@.contains_key(h) || oc.has_room(h)
    &&& nc@ == oc@.insert(h, acquire_view(before, tier, now))
    &&& s == acquire_snapshot(before, tier, now)
}

/// Looking at the control entry of key bytes `kb` in `c` at clock reading
/// `now` reported `s`, claiming nothing.
pub open spec fn observed(c: Cachelito, kb: Seq<u8>, now: u64, s: SnapshotView) -> bool {
    s == observe_snapshot(Cachelito::entry_or_fresh(c@, bytes_hash(kb)), now)
}

/// What acquiring key bytes `kb` in `c` for `tier` at clock reading `now`
/// would report is `s`; nothing is claimed.
pub open spec fn previewed(c: Cachelito, kb: Seq<u8>, tier: TierId, now: u64, s: SnapshotView) -> bool {
    s == acquire_snapshot(Cachelito::entry_or_fresh(c@, bytes_hash(kb)), tier, now)
}

/// A read of key bytes `kb` from `store` answered `res`, and the read
/// reported `r`: the value found, or the store's error.
pub open spec fn read_from<V, T: CacheTier<V>>(store: T, kb: Seq<u8>, r: Result<ReadStart<V>, CacheError>) -> bool {
    exists|res: Result<Option<V>, CacheError>|
        #[trigger] store.get_answer(kb, res) && r == match res {
            Ok(v) => Ok::<ReadStart<V>, CacheError>(ReadStart::Found(v)),
            Err(e) => Err::<ReadStart<V>, CacheError>(e),
        }
}

/// What a store's answer `res` to a read makes of a read that must produce a
/// value: the value, a miss, or the store's error.
pub open spec fn value_or_miss<V>(res: Result<Option<V>, CacheError>) -> Result<V, CacheError> {
    match res {
        Ok(Some(v)) => Ok(v),
        Ok(None) => Err(CacheError::Miss),
        Err(e) => Err(e),
    }
}

/// What a store's answer `res` to the read of a ready entry makes of a
/// read-through: a hit, the population `p` when the store misses, or the
/// store's error.
pub open spec fn fetch_served<V>(res: Result<Option<V>, CacheError>, p: Population) -> Result<FetchStart<V>, CacheError> {
    match res {
        Ok(Some(v)) => Ok(FetchStart::Hit(v)),
        Ok(None) => Ok(FetchStart::Populate(p)),
        Err(e) => Err(e),
    }
}

/// Acquiring key bytes `kb` was refused: the key is untracked and the shard
/// that would track it is full. Nothing changed.
pub open spec fn acquire_refused(oc: Cachelito, nc: Cachelito, kb: Seq<u8>) -> bool {
    let h = bytes_hash(kb);
    &&& Cachelito::same_shape(oc, nc)
    &&& !oc@.contains_key(h)
    &&& !oc.has_room(h)
    &&& nc@ == oc@
}

/// Claiming the control entry of `kb`, should it be claimable, keeps its
/// generation in range.
pub open spec fn claim_room(c: Cachelito, kb: Seq<u8>) -> bool {
    c.claim_fits(bytes_hash(kb))
}

/// Claiming the control entry of `kb`, then writing it under the generation
/// after its snapshot's, keeps its generation in range.
pub open spec fn write_room(c: Cachelito, kb: Seq<u8>) -> bool {
    let v = Cachelito::entry_or_fresh(c@, bytes_hash(kb));
    if claimable(v.state) {
        v.generation + 2 <= u64::MAX
    } else {
        v.generation + 1 <= u64::MAX
    }
}

/// Claiming the control entry of `kb`, or claiming it again after marking a
/// ready entry stale, keeps its generation in range.
pub open spec fn reclaim_room(c: Cachelito, kb: Seq<u8>) -> bool {
    let v = Cachelito::entry_or_fresh(c@, bytes_hash(kb));
    claimable(v.state) || v.state is Ready ==> v.generation < u64::MAX
}

/// The control plane went from `c1` to `nc` by publishing a write of key
/// bytes `kb` under generation `g` on `tier` with `ttl`, at clock reading
/// `now`: the entry is ready there, under that generation.
pub open spec fn written(
    c1: Cachelito,
    nc: Cachelito,
    kb: Seq<u8>,
    g: u64,
    tier: TierId,
    ttl: Option<std::time::Duration>,
    now: u64,
) -> bool {
    let h = bytes_hash(kb);
    &&& Cachelito::same_shape(c1, nc)
    &&& c1@.contains_key(h)
    &&& nc@ == c1@.insert(h, publish_view(ControlView { generation: g, ..c1@[h] }, tier, ttl_nanos_of(ttl), now))
}

/// The position of the store that serves `tier` among `n` stores: its own,
/// or the first one when there are fewer stores than tiers.
pub open spec fn slot_for(n: nat, tier: TierId) -> int {
    if tier_index(tier) < n {
        tier_index(tier) as int
    } else {
        0
    }
}

/// `b` holds the stores of `a`, except perhaps a different one at `i`.
pub open spec fn stores_except<T>(a: Seq<T>, b: Seq<T>, i: int) -> bool {
    &&& b.len() == a.len()
    &&& forall|j: int| 0 <= j < a.len() && j != i ==> #[trigger] b[j] == a[j]
}

/// `b` holds the stores of `a`, except perhaps different ones at `i` and `j`.
pub open spec fn stores_except2<T>(a: Seq<T>, b: Seq<T>, i: int, j: int) -> bool {
    &&& b.len() == a.len()
    &&& forall|k: int| 0 <= k < a.len() && k != i && k != j ==> #[trigger] b[k] == a[k]
}

/// The control plane went from `c1` to `nc` by moving the entry of key bytes
/// `kb` to `tier`.
pub open spec fn retiered(c1: Cachelito, nc: Cachelito, kb: Seq<u8>, tier: TierId) -> bool {
    let h = bytes_hash(kb);
    &&& Cachelito::same_shape(c1, nc)
    &&& c1@.contains_key(h)
    &&& nc@ == c1@.insert(h, ControlView { tier, ..c1@[h] })
}

/// Where `promote` sends an entry the snapshot `s` reports: a miss unless it
/// is ready, nowhere from L0, else one tier hotter.
pub open spec fn promote_dest(s: SnapshotView) -> Result<Option<TierId>, CacheError> {
    if !(s.state is Ready) {
        Err(CacheError::Miss)
    } else if tier_index(s.tier) == 0 {
        Ok(None)
    } else {
        Ok(tier_at(tier_index(s.tier) - 1))
    }
}

/// Where `demote` sends an entry the snapshot `s` reports: a miss unless it
/// is ready, nowhere from L5, else one tier colder.
pub open spec fn demote_dest(s: SnapshotView) -> Result<Option<TierId>, CacheError> {
    if !(s.state is Ready) {
        Err(CacheError::Miss)
    } else if tier_index(s.tier) == 5 {
        Ok(None)
    } else {
        Ok(tier_at(tier_index(s.tier) + 1int))
    }
}

/// The operation `promote` (`up`) or `demote` shows its policy.
pub open spec fn move_op(up: bool) -> CacheOperation {
    if up {
        CacheOperation::Promote
    } else {
        CacheOperation::Demote
    }
}

/// Where `promote` (`up`) or `demote` sends the entry `s` reports.
pub open spec fn move_dest(up: bool, s: SnapshotView) -> Result<Option<TierId>, CacheError> {
    if up {
        promote_dest(s)
    } else {
        demote_dest(s)
    }
}

/// After an authorized key was encoded, the policy decided `d`: a refusal is
/// `Unauthorized` with `unchanged` holding; otherwise `then` holds.
pub open spec fn authorized_then<X>(d: PolicyDecision, r: Result<X, CacheError>, unchanged: bool, then: bool) -> bool {
    &&& !d.authorized ==> r == Err::<X, CacheError>(CacheError::Unauthorized) && unchanged
    &&& d.authorized ==> then
}

/// The control plane went from `c1` to `nc` by marking the entry of key bytes
/// `kb` stale.
pub open spec fn staled(c1: Cachelito, nc: Cachelito, kb: Seq<u8>) -> bool {
    let h = bytes_hash(kb);
    &&& Cachelito::same_shape(c1, nc)
    &&& c1@.contains_key(h)
    &&& nc@ == c1@.insert(h, woken(ControlView { state: EntryState::Stale, ..c1@[h] }))
}

/// Where a read (`get`) stands after its first step.
pub enum ReadStart<V> {
    /// The read is done: what the store of the entry's tier holds.
    Found(Option<V>),
    /// Another caller is populating the entry: wait on the snapshot's
    /// notification, then read the snapshot's tier (`read_tier`).
    Wait(ControlSnapshot),
}

/// A population this caller owns: the generation to publish under and the
/// policy's decision for it.
pub struct Population {
    pub generation: Generation,
    pub decision: PolicyDecision,
}

/// Where a read-through (`get_or_fetch`) stands after its first step.
pub enum FetchStart<V> {
    /// The entry was ready and its store held this value.
    Hit(V),
    /// Another caller is populating the entry: wait on the snapshot's
    /// notification, then finish with `read_after_wait`.
    Wait(ControlSnapshot),
    /// This caller populates the entry: fetch the value, then store it with
    /// `store_population`.
    Populate(Population),
}

/// The cache manager: the policy, the control plane, the circuit breaker and
/// one store per tier, hottest first. Every operation takes the manager by
/// `&mut`: callers that share it serialize its steps, and never hold it
/// across a wait.
pub struct CacheManager<K, V, P, T> {
    policy: P,
    cachelito: Cachelito,
    tier_registry: TierRegistry,
    tiers: Vec<T>,
    pool: MemoryPool<V>,
    wait_timeout: std::time::Duration,
    key: PhantomData<K>,
}

impl<K: Key, V: Clone, P: CachePolicy<K, V>, T: CacheTier<V>> CacheManager<K, V, P, T> {
    /// The control plane.
    pub closed spec fn control(&self) -> Cachelito {
        self.cachelito
    }

    /// The circuit breaker's record of each tier.
    pub closed spec fn registry(&self) -> TierRegistry {
        self.tier_registry
    }

    /// The tier stores, hottest first.
    pub closed spec fn stores(&self) -> Seq<T> {
        self.tiers@
    }

    /// The policy.
    pub closed spec fn policy_spec(&self) -> P {
        self.policy
    }

    /// How long a caller waits for a population another caller owns.
    pub closed spec fn wait_timeout_spec(&self) -> std::time::Duration {
        self.wait_timeout
    }

    /// The control plane and the circuit breaker are well formed, and so is
    /// every store.
    pub closed spec fn wf(&self) -> bool {
        &&& self.cachelito.wf()
        &&& self.tier_registry.wf()
        &&& forall|i: int| 0 <= i < self.tiers@.len() ==> #[trigger] self.tiers@[i].tier_inv()
    }

    /// The policy, the pool and the wait timeout never change.
    pub closed spec fn same_config(a: Self, b: Self) -> bool {
        &&& a.policy == b.policy
        &&& a.pool == b.pool
        &&& a.wait_timeout == b.wait_timeout
    }

    /// Only the control plane may differ between `a` and `b`.
    pub open spec fn only_control(a: Self, b: Self) -> bool {
        &&& Self::same_config(a, b)
        &&& b.stores() == a.stores()
        &&& b.registry() == a.registry()
    }

    /// The position of the store that serves `tier`: its own, or the first
    /// one when there are fewer stores than tiers.
    pub open spec fn slot_of(&self, tier: TierId) -> int {
        slot_for(self.stores().len(), tier)
    }

    pub fn new(policy: P, cachelito: Cachelito, tier_registry: TierRegistry, tiers: Vec<T>, pool: MemoryPool<V>) -> (m:
        Self)
        requires
            cachelito.wf(),
            tier_registry.wf(),
            forall|i: int| 0 <= i < tiers@.len() ==> #[trigger] tiers@[i].tier_inv(),
        ensures
            m.wf(),
            m.policy_spec() == policy,
            m.control() == cachelito,
            m.registry() == tier_registry,
            m.stores() == tiers@,
            duration_nanos(m.wait_timeout_spec()) == DEFAULT_WAIT_TIMEOUT_SECS * 1_000_000_000,
    {
        Self::with_timeout(
            policy,
            cachelito,
            tier_registry,
            tiers,
            pool,
            duration_from_nanos(DEFAULT_WAIT_TIMEOUT_SECS * 1_000_000_000),
        )
    }

    pub fn with_timeout(
        policy: P,
        cachelito: Cachelito,
        tier_registry: TierRegistry,
        tiers: Vec<T>,
        pool: MemoryPool<V>,
        wait_timeout: std::time::Duration,
    ) -> (m: Self)
        requires
            cachelito.wf(),
            tier_registry.wf(),
            forall|i: int| 0 <= i < tiers@.len() ==> #[trigger] tiers@[i].tier_inv(),
        ensures
            m.wf(),
            m.policy_spec() == policy,
            m.control() == cachelito,
            m.registry() == tier_registry,
            m.stores() == tiers@,
            m.wait_timeout_spec() == wait_timeout,
    {
        CacheManager { policy, cachelito, tier_registry, tiers, pool, wait_timeout, key: PhantomData }
    }

    pub fn cachelito(&self) -> (c: &Cachelito)
        ensures
            *c == self.control(),
    {
        &self.cachelito
    }

    pub fn tier_registry(&self) -> (r: &TierRegistry)
        ensures
            *r == self.registry(),
    {
        &self.tier_registry
    }

    /// The number of tier stores.
    pub fn tier_count(&self) -> (n: usize)
        ensures
            n == self.stores().len(),
    {
        self.tiers.len()
    }

    pub fn wait_timeout(&self) -> (d: std::time::Duration)
        ensures
            d == self.wait_timeout_spec(),
    {
        self.wait_timeout
    }

    fn slot(&self, tier: TierId) -> (i: usize)
        ensures
            i == self.slot_of(tier),
    {
        tier_slot(tier, self.tiers.len())
    }

    /// The store that serves `tier_id`.
    pub fn tier_for(&self, tier_id: &TierId) -> (t: &T)
        requires
            self.stores().len() > 0,
        ensures
            *t == self.stores()[self.slot_of(*tier_id)],
    {
        let i = self.slot(*tier_id);
        &self.tiers[i]
    }

    /// The store that serves `tier_id`.
    pub fn tier(&self, tier_id: &TierId) -> (t: &T)
        requires
            self.stores().len() > 0,
        ensures
            *t == self.stores()[self.slot_of(*tier_id)],
    {
        self.tier_for(tier_id)
    }

    /// The state and generation of the control entry of key bytes `kb`, a
    /// fresh one when the key is untracked.
    fn entry_of(&self, kb: &[u8]) -> (r: (EntryState, Generation))
        requires
            self.wf(),
        ensures
            r.0 == Cachelito::entry_or_fresh(self.control()@, bytes_hash(kb@)).state,
            r.1.0 == Cachelito::entry_or_fresh(self.control()@, bytes_hash(kb@)).generation,
    {
        match (self.cachelito.state_of(kb), self.cachelito.generation_of(kb)) {
            (Some(st), Some(g)) => (st, g),
            _ => (EntryState::Absent, Generation::new(0)),
        }
    }

    /// Whether claiming the control entry of `key` keeps its generation in
    /// range (see `claim_room`); a key too long to encode never reaches the
    /// control plane.
    pub fn has_claim_room(&self, key: &K) -> (b: bool)
        requires
            self.wf(),
        ensures
            b == (key.key_bytes().len() <= MAX_KEY_SIZE ==> claim_room(self.control(), key.key_bytes())),
    {
        let kb = match encode_key(key) {
            Ok(b) => b,
            Err(_) => return true,
        };
        let (st, g) = self.entry_of(kb.as_slice());
        let claims = st == EntryState::Absent || st == EntryState::Failed || st == EntryState::Stale;
        !claims || g.0 < u64::MAX
    }

    /// Whether a write of `key` keeps its generation in range (see
    /// `write_room`).
    pub fn has_write_room(&self, key: &K) -> (b: bool)
        requires
            self.wf(),
        ensures
            b == (key.key_bytes().len() <= MAX_KEY_SIZE ==> write_room(self.control(), key.key_bytes())),
    {
        let kb = match encode_key(key) {
            Ok(b) => b,
            Err(_) => return true,
        };
        let (st, g) = self.entry_of(kb.as_slice());
        let claims = st == EntryState::Absent || st == EntryState::Failed || st == EntryState::Stale;
        if claims {
            g.0 <= u64::MAX - 2
        } else {
            g.0 <= u64::MAX - 1
        }
    }

    /// Whether a read-through of `key` keeps its generation in range (see
    /// `reclaim_room`).
    pub fn has_reclaim_room(&self, key: &K) -> (b: bool)
        requires
            self.wf(),
        ensures
            b == (key.key_bytes().len() <= MAX_KEY_SIZE ==> reclaim_room(self.control(), key.key_bytes())),
    {
        let kb = match encode_key(key) {
            Ok(b) => b,
            Err(_) => return true,
        };
        let (st, g) = self.entry_of(kb.as_slice());
        let claims = st == EntryState::Absent || st == EntryState::Failed || st == EntryState::Stale;
        !(claims || st == EntryState::Ready) || g.0 < u64::MAX
    }

    /// Every store of `old` was asked to remove key bytes `kb`; `answers`
    /// holds what each answered.
    pub open spec fn removed_everywhere(old: Self, new: Self, kb: Seq<u8>, answers: Seq<Result<(), CacheError>>) -> bool {
        &&& answers.len() == old.stores().len()
        &&& forall|j: int|
            0 <= j < answers.len() ==> #[trigger] old.stores()[j].remove_answer(kb, answers[j])
                && old.stores()[j].remove_leaves(kb, answers[j], |k: Seq<u8>, t: u64| new.stores()[j].holds_at(k, t))
    }

    /// What `remove` returns and leaves.
    pub open spec fn remove_post(old: Self, new: Self, key: K, ctx: CacheContext, r: Result<(), CacheError>) -> bool {
        let kb = key.key_bytes();
        &&& new.wf()
        &&& Self::same_config(old, new)
        &&& new.registry() == old.registry()
        &&& new.stores().len() == old.stores().len()
        &&& r is Err ==> new.stores() == old.stores()
        &&& !ctx.identity_spec().authenticated() ==> r == Err::<(), CacheError>(CacheError::Unauthenticated)
            && new.control() == old.control()
        &&& ctx.identity_spec().authenticated() ==> exists|d: PolicyDecision|
            #[trigger] decided::<K, V, P>(old.policy_spec(), CacheOperation::Remove, key, ctx, absent_state(), d)
            && gate_then(
                d,
                kb,
                r,
                new.control() == old.control() && new.stores() == old.stores(),
                (exists|answers: Seq<Result<(), CacheError>>| #[trigger] Self::removed_everywhere(old, new, kb, answers))
                    && Cachelito::update_post(
                    old.control(),
                    new.control(),
                    bytes_hash(kb),
                    reset_view(Cachelito::entry_or_fresh(old.control()@, bytes_hash(kb))),
                    r,
                    Ok(()),
                ),
            )
    }

    /// Removes `key`: every store is asked to drop it, whatever each answers,
    /// and its control entry is released.
    pub fn remove(&mut self, key: &K, ctx: &CacheContext) -> (r: Result<(), CacheError>)
        requires
            old(self).wf(),
        ensures
            Self::remove_post(*old(self), *final(self), *key, *ctx, r),
    {
        if let Err(e) = check_auth(ctx) {
            return Err(e);
        }
        let decision = resolve(&self.policy, CacheOperation::Remove, key, ctx);
        assert(decided::<K, V, P>(old(self).policy_spec(), CacheOperation::Remove, *key, *ctx, absent_state(), decision));
        if let Err(e) = authorize(&decision) {
            return Err(e);
        }
        let kb = match encode_key(key) {
            Ok(b) => b,
            Err(e) => return Err(e),
        };
        let kr = KeyRef(kb.as_slice());
        let n = self.tiers.len();
        let mut i: usize = 0;
        let ghost mut answers: Seq<Result<(), CacheError>> = Seq::empty();
        while i < n
            invariant
                n == self.tiers@.len(),
                n == old(self).tiers@.len(),
                i <= n,
                self.cachelito == old(self).cachelito,
                self.tier_registry == old(self).tier_registry,
                Self::same_config(*old(self), *self),
                self.wf(),
                kr@ == key.key_bytes(),
                forall|j: int| i <= j < n ==> #[trigger] self.tiers@[j] == old(self).tiers@[j],
                answers.len() == i,
                forall|j: int|
                    0 <= j < i ==> #[trigger] old(self).tiers@[j].remove_answer(key.key_bytes(), answers[j])
                        && old(self).tiers@[j].remove_leaves(
                        key.key_bytes(),
                        answers[j],
                        |k: Seq<u8>, t: u64| self.tiers@[j].holds_at(k, t),
                    ),
            decreases n - i,
        {
            let ghost before = self.tiers@[i as int];
            let res = self.tiers[i].remove(&kr);
            proof {
                assert(before == old(self).tiers@[i as int]);
                assert(before.remove_answer(key.key_bytes(), res));
                let a0 = answers;
                answers = answers.push(res);
                assert forall|j: int|
                    0 <= j < i + 1 implies #[trigger] old(self).tiers@[j].remove_answer(key.key_bytes(), answers[j])
                        && old(self).tiers@[j].remove_leaves(
                        key.key_bytes(),
                        answers[j],
                        |k: Seq<u8>, t: u64| self.tiers@[j].holds_at(k, t),
                    ) by {
                    if j < i {
                        assert(answers[j] == a0[j]);
                    }
                }
            }
            i = i + 1;
        }
        proof {
            assert(Self::removed_everywhere(*old(self), *self, key.key_bytes(), answers));
        }
        let ghost removed = *self;
        let r = self.cachelito.release(kb.as_slice());
        proof {
            assert(self.stores() == removed.stores());
            assert(Self::removed_everywhere(*old(self), *self, key.key_bytes(), answers));
        }
        r
    }

    /// What `key_exists` does once the request passed its gates: look at the
    /// control entry, claiming nothing, then answer `false` for an entry that
    /// is not ready, or ask the store of the entry's tier.
    pub open spec fn key_exists_then(old: Self, new: Self, kb: Seq<u8>, r: Result<bool, CacheError>) -> bool {
        exists|now: u64, s: SnapshotView|
            #[trigger] observed(old.control(), kb, now, s) && new.control() == old.control() && (!(s.state is Ready)
                ==> (r matches Ok(false)) && new.stores() == old.stores()) && (s.state is Ready ==> stores_except(
                old.stores(),
                new.stores(),
                old.slot_of(s.tier),
            ) && old.stores()[old.slot_of(s.tier)].contains_answer(kb, r))
    }

    /// What `key_exists` returns and leaves.
    pub open spec fn key_exists_post(old: Self, new: Self, key: K, ctx: CacheContext, r: Result<bool, CacheError>) -> bool {
        let kb = key.key_bytes();
        &&& new.wf()
        &&& Self::same_config(old, new)
        &&& new.registry() == old.registry()
        &&& !ctx.identity_spec().authenticated() ==> r == Err::<bool, CacheError>(CacheError::Unauthenticated)
            && new.control() == old.control() && new.stores() == old.stores()
        &&& ctx.identity_spec().authenticated() ==> exists|d: PolicyDecision|
            #[trigger] decided::<K, V, P>(old.policy_spec(), CacheOperation::Exists, key, ctx, absent_state(), d)
            && gate_then(
                d,
                kb,
                r,
                new.control() == old.control() && new.stores() == old.stores(),
                Self::key_exists_then(old, new, kb, r),
            )
    }

    /// Whether `key` exists: its control entry must be ready, and then the
    /// store of its tier is asked.
    pub fn key_exists(&mut self, key: &K, ctx: &CacheContext) -> (r: Result<bool, CacheError>)
        requires
            old(self).wf(),
            old(self).stores().len() > 0,
        ensures
            Self::key_exists_post(*old(self), *final(self), *key, *ctx, r),
    {
        if let Err(e) = check_auth(ctx) {
            return Err(e);
        }
        let decision = resolve(&self.policy, CacheOperation::Exists, key, ctx);
        assert(decided::<K, V, P>(old(self).policy_spec(), CacheOperation::Exists, *key, *ctx, absent_state(), decision));
        if let Err(e) = authorize(&decision) {
            return Err(e);
        }
        let kb = match encode_key(key) {
            Ok(b) => b,
            Err(e) => return Err(e),
        };
        let snapshot = self.cachelito.observe(kb.as_slice());
        let ghost now = choose|now: u64| snapshot.summary() == observe_snapshot(Cachelito::entry_or_fresh(old(self).control()@, bytes_hash(kb@)), now);
        assert(observed(old(self).control(), kb@, now, snapshot.summary()));
        if snapshot.state != EntryState::Ready {
            return Ok(false);
        }
        let i = self.slot(snapshot.tier);
        let kr = KeyRef(kb.as_slice());
        let r = self.tiers[i].contains(&kr);
        proof {
            assert(stores_except(old(self).stores(), self.stores(), old(self).slot_of(snapshot.tier)));
        }
        r
    }

    /// What `set` does once the policy authorized it as `d` and the key's
    /// acquisition reported `s` and left the control plane as `c1`: the store
    /// of `d`'s tier is handed the key, the value and the context's TTL, the
    /// circuit breaker records its answer, and on success the entry is
    /// published on that tier under the generation after `s`'s.
    pub open spec fn set_written(
        old: Self,
        new: Self,
        kb: Seq<u8>,
        value: V,
        ctx: CacheContext,
        c1: Cachelito,
        s: SnapshotView,
        d: PolicyDecision,
        r: Result<(), CacheError>,
    ) -> bool {
        &&& stores_except(old.stores(), new.stores(), old.slot_of(d.tier))
        &&& exists|res: Result<(), CacheError>|
            #[trigger] outcome_recorded(old.registry(), new.registry(), d.tier, res) && old.stores()[old.slot_of(
                d.tier,
            )].set_answer(kb, value, ctx.ttl_spec(), res) && old.stores()[old.slot_of(d.tier)].set_leaves(
                kb,
                value,
                ctx.ttl_spec(),
                res,
                |k: Seq<u8>, t: u64| new.stores()[old.slot_of(d.tier)].holds_at(k, t),
            ) && (res is Err ==> r == res && new.control() == c1) && (res is Ok
                ==> r is Ok && exists|now2: u64|
                #[trigger] written(c1, new.control(), kb, (s.generation + 1) as u64, d.tier, ctx.ttl_spec(), now2))
    }

    /// What `set` does once the policy authorized it as `d`: acquire the
    /// control entry (a full shard refuses), then write (`set_written`).
    pub open spec fn set_then(
        old: Self,
        new: Self,
        kb: Seq<u8>,
        value: V,
        ctx: CacheContext,
        d: PolicyDecision,
        r: Result<(), CacheError>,
    ) -> bool {
        let oc = old.control();
        let nc = new.control();
        ||| acquire_refused(oc, nc, kb) && r == Err::<(), CacheError>(CacheError::ConfigurationError) && new.stores()
            == old.stores() && new.registry() == old.registry()
        ||| exists|now: u64, s: SnapshotView, c1: Cachelito|
            #[trigger] acquired(oc, c1, kb, TierId::L0, now, s) && Self::set_written(old, new, kb, value, ctx, c1, s, d, r)
    }

    /// What `set` returns and leaves. The policy decides on what acquiring
    /// the key's entry would report, before anything is claimed or written:
    /// a refusal leaves everything as it was.
    pub open spec fn set_post(old: Self, new: Self, key: K, value: V, ctx: CacheContext, r: Result<(), CacheError>) -> bool {
        let kb = key.key_bytes();
        let oc = old.control();
        let nc = new.control();
        let unchanged = nc == oc && new.stores() == old.stores() && new.registry() == old.registry();
        &&& new.wf()
        &&& Self::same_config(old, new)
        &&& !ctx.identity_spec().authenticated() ==> r == Err::<(), CacheError>(CacheError::Unauthenticated) && unchanged
        &&& ctx.identity_spec().authenticated() && kb.len() > MAX_KEY_SIZE ==> r == Err::<(), CacheError>(
            CacheError::ConfigurationError,
        ) && unchanged
        &&& ctx.identity_spec().authenticated() && kb.len() <= MAX_KEY_SIZE ==> exists|
            now0: u64,
            o: SnapshotView,
            d: PolicyDecision,
        |
            #![trigger previewed(oc, kb, TierId::L0, now0, o), decided::<K, V, P>(old.policy_spec(), CacheOperation::Put, key, ctx, snapshot_state(o, old.registry().health_of(o.tier)), d)]
            previewed(oc, kb, TierId::L0, now0, o) && decided::<K, V, P>(
                old.policy_spec(),
                CacheOperation::Put,
                key,
                ctx,
                snapshot_state(o, old.registry().health_of(o.tier)),
                d,
            ) && authorized_then(d, r, unchanged, Self::set_then(old, new, kb, value, ctx, d, r))
    }

    /// Writes `value` under `key`: the policy, shown what acquiring the key's
    /// entry would report, authorizes the write and picks the tier; then the
    /// entry is acquired, the store of that tier takes the value, the circuit
    /// breaker records how that went, and on success the control entry turns
    /// ready on that tier under the next generation.
    pub fn set(&mut self, key: &K, value: V, ctx: &CacheContext) -> (r: Result<(), CacheError>)
        requires
            old(self).wf(),
            old(self).stores().len() > 0,
            old(self).registry().counters_fit(),
            key.key_bytes().len() <= MAX_KEY_SIZE ==> write_room(old(self).control(), key.key_bytes()),
        ensures
            Self::set_post(*old(self), *final(self), *key, value, *ctx, r),
    {
        if let Err(e) = check_auth(ctx) {
            return Err(e);
        }
        let kb = match encode_key(key) {
            Ok(b) => b,
            Err(e) => return Err(e),
        };
        let seen = self.cachelito.preview(kb.as_slice(), TierId::L0);
        let ghost now0 = choose|now: u64| seen.summary() == acquire_snapshot(Cachelito::entry_or_fresh(old(self).control()@, bytes_hash(kb@)), TierId::L0, now);
        assert(previewed(old(self).control(), kb@, TierId::L0, now0, seen.summary()));
        let health = self.tier_registry.tier_health(seen.tier);
        let decision = resolve_with_snapshot(&self.policy, CacheOperation::Put, key, ctx, &seen, health);
        assert(decided::<K, V, P>(
            old(self).policy_spec(),
            CacheOperation::Put,
            *key,
            *ctx,
            snapshot_state(seen.summary(), old(self).registry().health_of(seen.tier)),
            decision,
        ));
        if let Err(e) = authorize(&decision) {
            return Err(e);
        }
        let snapshot = match self.cachelito.acquire(kb.as_slice(), TierId::L0) {
            Ok(s) => s,
            Err(e) => return Err(e),
        };
        let ghost now = choose|now: u64| Cachelito::acquire_post(old(self).cachelito, self.cachelito, kb@, TierId::L0, now, Ok(snapshot));
        let ghost c1 = self.cachelito;
        assert(acquired(old(self).control(), c1, kb@, TierId::L0, now, snapshot.summary()));
        let i = self.slot(decision.tier);
        let kr = KeyRef(kb.as_slice());
        let ghost store = self.tiers@[i as int];
        let set_result = self.tiers[i].set(&kr, value, ctx.ttl());
        assert(store.set_answer(kb@, value, ctx.ttl_spec(), set_result));
        let ghost written_store = self.tiers@[i as int];
        assert(store.set_leaves(kb@, value, ctx.ttl_spec(), set_result, |k: Seq<u8>, t: u64| written_store.holds_at(k, t)));
        record_outcome(&mut self.tier_registry, decision.tier, set_result);
        assert(outcome_recorded(old(self).registry(), self.registry(), decision.tier, set_result));
        assert(stores_except(old(self).stores(), self.stores(), old(self).slot_of(decision.tier)));
        if let Err(e) = set_result {
            return Err(e);
        }
        let generation = write_generation(&snapshot);
        match self.cachelito.set_generation(kb.as_slice(), generation) {
            Ok(()) => {},
            Err(e) => return Err(e),
        }
        let ttl = ctx.ttl();
        let ghost c2 = self.cachelito;
        let r = self.cachelito.publish(kb.as_slice(), generation, decision.tier, ttl);
        proof {
            let h = bytes_hash(kb@);
            let g = (snapshot.summary().generation + 1) as u64;
            assert(generation.0 == g);
            assert(c1@.contains_key(h));
            assert(c2@ == c1@.insert(h, ControlView { generation: g, ..c1@[h] }));
            assert(c2@[h].generation == g);
            let now2 = choose|now2: u64| Cachelito::publish_post(c2, self.cachelito, kb@, generation, decision.tier, ttl, now2, r);
            assert(r is Ok);
            assert(self.cachelito@ =~= c1@.insert(h, publish_view(ControlView { generation: g, ..c1@[h] }, decision.tier, ttl_nanos_of(ttl), now2)));
            assert(written(c1, self.control(), kb@, g, decision.tier, ctx.ttl_spec(), now2));
            assert(self.wf());
            assert(Self::same_config(*old(self), *self));
            let sv = snapshot.summary();
            assert(outcome_recorded(old(self).registry(), self.registry(), decision.tier, set_result));
            assert(written(c1, self.control(), key.key_bytes(), (sv.generation + 1) as u64, decision.tier, ctx.ttl_spec(), now2));
            assert(self.stores()[old(self).slot_of(decision.tier)] == written_store);
            assert((|k: Seq<u8>, t: u64| self.stores()[old(self).slot_of(decision.tier)].holds_at(k, t)) == (|k: Seq<u8>, t: u64| written_store.holds_at(k, t)));
            assert(Self::set_written(*old(self), *self, kb@, value, *ctx, c1, sv, decision, r));
        }
        r
    }

    /// `set`, where the control entry of `key` leaves room for its claim and
    /// write; otherwise nothing is done and `None` comes back.
    pub fn try_set(&mut self, key: &K, value: V, ctx: &CacheContext) -> (r: Option<Result<(), CacheError>>)
        requires
            old(self).wf(),
            old(self).stores().len() > 0,
            old(self).registry().counters_fit(),
        ensures
            r is None <==> (key.key_bytes().len() <= MAX_KEY_SIZE && !write_room(old(self).control(), key.key_bytes())),
            r is None ==> *final(self) == *old(self),
            r matches Some(res) ==> Self::set_post(*old(self), *final(self), *key, value, *ctx, res),
    {
        if !self.has_write_room(key) {
            return None;
        }
        Some(self.set(key, value, ctx))
    }

    /// What moving the entry of key bytes `kb`, which snapshot `s` reports,
    /// to `dest` does, the key's acquisition having left the control plane
    /// as `c1`: nothing for no destination, else see `entry_moved`.
    pub open spec fn moved(
        old: Self,
        new: Self,
        kb: Seq<u8>,
        c1: Cachelito,
        s: SnapshotView,
        dest: Result<Option<TierId>, CacheError>,
        ttl: Option<std::time::Duration>,
        r: Result<(), CacheError>,
    ) -> bool {
        let unchanged = new.control() == c1 && new.stores() == old.stores() && new.registry() == old.registry();
        match dest {
            Err(e) => r == Err::<(), CacheError>(e) && unchanged,
            Ok(None) => r == Ok::<(), CacheError>(()) && unchanged,
            Ok(Some(t)) => Self::entry_moved(old.stores(), old.registry(), new, kb, c1, s.tier, t, ttl, r),
        }
    }

    /// What `promote` (`up`) or `demote` does once the request passed its
    /// gates: acquire the key's control entry, then move the entry.
    pub open spec fn move_then(
        old: Self,
        new: Self,
        kb: Seq<u8>,
        up: bool,
        ttl: Option<std::time::Duration>,
        r: Result<(), CacheError>,
    ) -> bool {
        let oc = old.control();
        let nc = new.control();
        ||| acquire_refused(oc, nc, kb) && r == Err::<(), CacheError>(CacheError::ConfigurationError) && new.stores()
            == old.stores() && new.registry() == old.registry()
        ||| exists|now: u64, s: SnapshotView, c1: Cachelito|
            #[trigger] acquired(oc, c1, kb, TierId::L0, now, s) && Self::moved(old, new, kb, c1, s, move_dest(up, s), ttl, r)
    }

    /// What `promote` (`up`) or `demote` returns and leaves.
    pub open spec fn move_post(old: Self, new: Self, key: K, ctx: CacheContext, up: bool, r: Result<(), CacheError>) -> bool {
        let kb = key.key_bytes();
        let op = move_op(up);
        let unchanged = new.control() == old.control() && new.stores() == old.stores() && new.registry()
            == old.registry();
        &&& new.wf()
        &&& Self::same_config(old, new)
        &&& !ctx.identity_spec().authenticated() ==> r == Err::<(), CacheError>(CacheError::Unauthenticated) && unchanged
        &&& ctx.identity_spec().authenticated() ==> exists|d: PolicyDecision|
            #[trigger] decided::<K, V, P>(old.policy_spec(), op, key, ctx, absent_state(), d) && gate_then(
                d,
                kb,
                r,
                unchanged,
                Self::move_then(old, new, kb, up, ctx.ttl_spec(), r),
            )
    }

    /// What moving the entry of key bytes `kb` from `from` to `to`, with the
    /// control plane at `c`, returns and leaves: the store of `from` is read;
    /// a miss or a failed read ends it. Otherwise the value read is handed
    /// to the store of `to` with `ttl`, the circuit breaker records that
    /// write, and on success the entry's tier becomes `to`.
    pub open spec fn entry_moved(
        stores: Seq<T>,
        reg: TierRegistry,
        new: Self,
        kb: Seq<u8>,
        c: Cachelito,
        from: TierId,
        to: TierId,
        ttl: Option<std::time::Duration>,
        r: Result<(), CacheError>,
    ) -> bool {
        let i = slot_for(stores.len(), from);
        let j = slot_for(stores.len(), to);
        exists|got: Result<Option<V>, CacheError>|
            #[trigger] stores[i].get_answer(kb, got) && match got {
                Ok(Some(v)) => stores_except2(stores, new.stores(), i, j) && exists|res: Result<(), CacheError>|
                    #[trigger] outcome_recorded(reg, new.registry(), to, res) && (i != j ==> stores[j].set_answer(
                        kb,
                        v,
                        ttl,
                        res,
                    ) && stores[j].set_leaves(kb, v, ttl, res, |k: Seq<u8>, t: u64| new.stores()[j].holds_at(k, t)))
                        && (res is Err ==> r == res && new.control() == c) && (res is Ok ==> r is Ok && retiered(
                        c,
                        new.control(),
                        kb,
                        to,
                    )),
                _ => r == Err::<(), CacheError>(
                    match got {
                        Err(e) => e,
                        _ => CacheError::Miss,
                    },
                ) && new.control() == c && new.registry() == reg && stores_except(stores, new.stores(), i),
            }
    }

    /// Moves the entry of `key` from `from` to `to`; see `entry_moved`.
    fn move_entry(&mut self, kb: &Vec<u8>, from: TierId, to: TierId, ttl: Option<std::time::Duration>) -> (r: Result<(), CacheError>)
        requires
            old(self).wf(),
            old(self).stores().len() > 0,
            old(self).registry().counters_fit(),
            old(self).control()@.contains_key(bytes_hash(kb@)),
        ensures
            final(self).wf(),
            Self::same_config(*old(self), *final(self)),
            Self::entry_moved(old(self).stores(), old(self).registry(), *final(self), kb@, old(self).control(), from, to, ttl, r),
    {
        let kr = KeyRef(kb.as_slice());
        let i = self.slot(from);
        let ghost src = self.tiers@[i as int];
        let got = self.tiers[i].get(&kr);
        assert(src.get_answer(kb@, got));
        let value = match got {
            Ok(Some(v)) => v,
            Ok(None) => return Err(CacheError::Miss),
            Err(e) => return Err(e),
        };
        let ghost mid = *self;
        let j = self.slot(to);
        let ghost dst = self.tiers@[j as int];
        let set_result = self.tiers[j].set(&kr, value, ttl);
        assert(dst.set_answer(kb@, value, ttl, set_result));
        let ghost moved_to = self.tiers@[j as int];
        assert(dst.set_leaves(kb@, value, ttl, set_result, |k: Seq<u8>, t: u64| moved_to.holds_at(k, t)));
        record_outcome(&mut self.tier_registry, to, set_result);
        assert(outcome_recorded(old(self).registry(), self.registry(), to, set_result));
        assert(stores_except2(old(self).stores(), self.stores(), old(self).slot_of(from), old(self).slot_of(to)));
        if let Err(e) = set_result {
            return Err(e);
        }
        let r = self.cachelito.set_tier(kb.as_slice(), to);
        proof {
            assert(r is Ok);
            assert(self.cachelito@ =~= old(self).control()@.insert(bytes_hash(kb@), ControlView { tier: to, ..old(self).control()@[bytes_hash(kb@)] }));
            assert(retiered(old(self).control(), self.control(), kb@, to));
            assert(outcome_recorded(old(self).registry(), self.registry(), to, set_result));
        }
        r
    }

    /// The common body of `promote` and `demote`.
    fn move_one(&mut self, key: &K, ctx: &CacheContext, up: bool) -> (r: Result<(), CacheError>)
        requires
            old(self).wf(),
            old(self).stores().len() > 0,
            old(self).registry().counters_fit(),
            key.key_bytes().len() <= MAX_KEY_SIZE ==> claim_room(old(self).control(), key.key_bytes()),
        ensures
            Self::move_post(*old(self), *final(self), *key, *ctx, up, r),
    {
        if let Err(e) = check_auth(ctx) {
            return Err(e);
        }
        let op = if up {
            CacheOperation::Promote
        } else {
            CacheOperation::Demote
        };
        assert(op == move_op(up));
        let decision = resolve(&self.policy, op, key, ctx);
        assert(decided::<K, V, P>(old(self).policy_spec(), move_op(up), *key, *ctx, absent_state(), decision));
        if let Err(e) = authorize(&decision) {
            return Err(e);
        }
        let kb = match encode_key(key) {
            Ok(b) => b,
            Err(e) => return Err(e),
        };
        let snapshot = match self.cachelito.acquire(kb.as_slice(), TierId::L0) {
            Ok(s) => s,
            Err(e) => return Err(e),
        };
        let ghost now = choose|now: u64| Cachelito::acquire_post(old(self).control(), self.control(), kb@, TierId::L0, now, Ok(snapshot));
        let ghost c1 = self.cachelito;
        let ghost s = snapshot.summary();
        assert(acquired(old(self).control(), c1, kb@, TierId::L0, now, s));
        let dest = if up {
            promote_target(&snapshot)
        } else {
            demote_target(&snapshot)
        };
        assert(dest == move_dest(up, s));
        let target = match dest {
            Err(e) => return Err(e),
            Ok(None) => return Ok(()),
            Ok(Some(t)) => t,
        };
        let ghost mid = *self;
        let r = self.move_entry(&kb, snapshot.tier, target, ctx.ttl());
        proof {
            assert(mid.stores() == old(self).stores());
            assert(mid.registry() == old(self).registry());
            assert(Self::entry_moved(mid.stores(), mid.registry(), *self, kb@, c1, s.tier, target, ctx.ttl_spec(), r));
            assert(Self::moved(*old(self), *self, kb@, c1, s, dest, ctx.ttl_spec(), r));
        }
        r
    }

    /// Moves the ready entry of `key` one tier hotter: the value is copied to
    /// the store of that tier and the entry's tier follows. An entry that is
    /// not ready is a miss; an entry on L0 stays.
    pub fn promote(&mut self, key: &K, ctx: &CacheContext) -> (r: Result<(), CacheError>)
        requires
            old(self).wf(),
            old(self).stores().len() > 0,
            old(self).registry().counters_fit(),
            key.key_bytes().len() <= MAX_KEY_SIZE ==> claim_room(old(self).control(), key.key_bytes()),
        ensures
            Self::move_post(*old(self), *final(self), *key, *ctx, true, r),
    {
        self.move_one(key, ctx, true)
    }

    /// Moves the ready entry of `key` one tier colder: the value is copied to
    /// the store of that tier and the entry's tier follows. An entry that is
    /// not ready is a miss; an entry on L5 stays.
    pub fn demote(&mut self, key: &K, ctx: &CacheContext) -> (r: Result<(), CacheError>)
        requires
            old(self).wf(),
            old(self).stores().len() > 0,
            old(self).registry().counters_fit(),
            key.key_bytes().len() <= MAX_KEY_SIZE ==> claim_room(old(self).control(), key.key_bytes()),
        ensures
            Self::move_post(*old(self), *final(self), *key, *ctx, false, r),
    {
        self.move_one(key, ctx, false)
    }

    /// `promote`, where the control entry of `key` leaves room for its claim;
    /// otherwise nothing is done and `None` comes back.
    pub fn try_promote(&mut self, key: &K, ctx: &CacheContext) -> (r: Option<Result<(), CacheError>>)
        requires
            old(self).wf(),
            old(self).stores().len() > 0,
            old(self).registry().counters_fit(),
        ensures
            r is None <==> (key.key_bytes().len() <= MAX_KEY_SIZE && !claim_room(old(self).control(), key.key_bytes())),
            r is None ==> *final(self) == *old(self),
            r matches Some(res) ==> Self::move_post(*old(self), *final(self), *key, *ctx, true, res),
    {
        if !self.has_claim_room(key) {
            return None;
        }
        Some(self.promote(key, ctx))
    }

    /// `demote`, where the control entry of `key` leaves room for its claim;
    /// otherwise nothing is done and `None` comes back.
    pub fn try_demote(&mut self, key: &K, ctx: &CacheContext) -> (r: Option<Result<(), CacheError>>)
        requires
            old(self).wf(),
            old(self).stores().len() > 0,
            old(self).registry().counters_fit(),
        ensures
            r is None <==> (key.key_bytes().len() <= MAX_KEY_SIZE && !claim_room(old(self).control(), key.key_bytes())),
            r is None ==> *final(self) == *old(self),
            r matches Some(res) ==> Self::move_post(*old(self), *final(self), *key, *ctx, false, res),
    {
        if !self.has_claim_room(key) {
            return None;
        }
        Some(self.demote(key, ctx))
    }

    /// What a read of key bytes `kb` does with the snapshot `s` of the key's
    /// entry, the control plane being `c1`: see `read_step_spec`. A served
    /// read answers what the store of the entry's tier answered, and is
    /// recorded with the circuit breaker; an expired entry is marked stale
    /// and missed.
    pub open spec fn read_acquired(
        old: Self,
        new: Self,
        kb: Seq<u8>,
        c1: Cachelito,
        s: SnapshotView,
        r: Result<ReadStart<V>, CacheError>,
    ) -> bool {
        let same_rest = new.stores() == old.stores() && new.registry() == old.registry();
        match read_step_spec(s) {
            ReadStep::Serve(t) => {
                &&& new.control() == c1
                &&& stores_except(old.stores(), new.stores(), old.slot_of(t))
                &&& outcome_recorded(old.registry(), new.registry(), t, outcome_of(r))
                &&& read_from(old.stores()[old.slot_of(t)], kb, r)
            },
            ReadStep::Expire => r == Err::<ReadStart<V>, CacheError>(CacheError::Miss) && same_rest && staled(
                c1,
                new.control(),
                kb,
            ),
            ReadStep::Wait(_) => (r matches Ok(ReadStart::Wait(w)) && w.summary() == s) && new.control() == c1
                && same_rest,
            ReadStep::Miss => r == Err::<ReadStart<V>, CacheError>(CacheError::Miss) && new.control() == c1 && same_rest,
        }
    }

    /// What `get_start` does once the request passed its gates: look at the
    /// key's control entry, claiming nothing, and read accordingly.
    pub open spec fn get_then(old: Self, new: Self, kb: Seq<u8>, r: Result<ReadStart<V>, CacheError>) -> bool {
        exists|now: u64, s: SnapshotView|
            #[trigger] observed(old.control(), kb, now, s) && Self::read_acquired(old, new, kb, old.control(), s, r)
    }

    /// What `get_start` returns and leaves.
    pub open spec fn get_post(old: Self, new: Self, key: K, ctx: CacheContext, r: Result<ReadStart<V>, CacheError>) -> bool {
        let kb = key.key_bytes();
        let unchanged = new.control() == old.control() && new.stores() == old.stores() && new.registry()
            == old.registry();
        &&& new.wf()
        &&& Self::same_config(old, new)
        &&& !ctx.identity_spec().authenticated() ==> r == Err::<ReadStart<V>, CacheError>(CacheError::Unauthenticated)
            && unchanged
        &&& ctx.identity_spec().authenticated() && kb.len() > MAX_KEY_SIZE ==> r == Err::<ReadStart<V>, CacheError>(
            CacheError::ConfigurationError,
        ) && unchanged
        &&& ctx.identity_spec().authenticated() && kb.len() <= MAX_KEY_SIZE ==> exists|d: PolicyDecision|
            #[trigger] decided::<K, V, P>(old.policy_spec(), CacheOperation::Get, key, ctx, absent_state(), d)
            && authorized_then(d, r, unchanged, Self::get_then(old, new, kb, r))
    }

    /// The first step of a read of `key`: after the gates, the key's control
    /// entry is looked at, claiming nothing; a ready entry is read from the
    /// store of its tier, an expired one is marked stale and missed, a
    /// population in progress is waited for, anything else is a miss.
    pub fn get_start(&mut self, key: &K, ctx: &CacheContext) -> (r: Result<ReadStart<V>, CacheError>)
        requires
            old(self).wf(),
            old(self).stores().len() > 0,
            old(self).registry().counters_fit(),
        ensures
            Self::get_post(*old(self), *final(self), *key, *ctx, r),
    {
        if let Err(e) = check_auth(ctx) {
            return Err(e);
        }
        let kb = match encode_key(key) {
            Ok(b) => b,
            Err(e) => return Err(e),
        };
        let decision = resolve(&self.policy, CacheOperation::Get, key, ctx);
        assert(decided::<K, V, P>(old(self).policy_spec(), CacheOperation::Get, *key, *ctx, absent_state(), decision));
        if let Err(e) = authorize(&decision) {
            return Err(e);
        }
        let snapshot = self.cachelito.observe(kb.as_slice());
        let ghost now = choose|now: u64| snapshot.summary() == observe_snapshot(Cachelito::entry_or_fresh(old(self).control()@, bytes_hash(kb@)), now);
        let ghost c1 = self.cachelito;
        let ghost s = snapshot.summary();
        assert(observed(old(self).control(), kb@, now, s));
        let r = match read_step(&snapshot) {
            ReadStep::Serve(t) => {
                let i = self.slot(t);
                let kr = KeyRef(kb.as_slice());
                let ghost store = self.tiers@[i as int];
                let res = self.tiers[i].get(&kr);
                assert(store.get_answer(kb@, res));
                record_read(&mut self.tier_registry, t, &res);
                match res {
                    Ok(v) => Ok(ReadStart::Found(v)),
                    Err(e) => Err(e),
                }
            },
            ReadStep::Expire => {
                proof {
                    assert(c1@.contains_key(bytes_hash(kb@)));
                }
                let _ = self.cachelito.set_state(kb.as_slice(), EntryState::Stale);
                proof {
                    assert(self.cachelito@ =~= c1@.insert(bytes_hash(kb@), woken(ControlView { state: EntryState::Stale, ..c1@[bytes_hash(kb@)] })));
                }
                Err(CacheError::Miss)
            },
            ReadStep::Wait(_) => Ok(ReadStart::Wait(snapshot)),
            ReadStep::Miss => Err(CacheError::Miss),
        };
        assert(Self::read_acquired(*old(self), *self, kb@, c1, s, r));
        r
    }

    /// Reads `key` from the store of `tier`, recording the outcome with the
    /// circuit breaker; the step of a read after its wait.
    pub fn read_tier(&mut self, key: &K, tier: TierId) -> (r: Result<Option<V>, CacheError>)
        requires
            old(self).wf(),
            old(self).stores().len() > 0,
            old(self).registry().counters_fit(),
        ensures
            final(self).wf(),
            Self::same_config(*old(self), *final(self)),
            final(self).control() == old(self).control(),
            key.key_bytes().len() > MAX_KEY_SIZE ==> r == Err::<Option<V>, CacheError>(CacheError::ConfigurationError)
                && final(self).stores() == old(self).stores() && final(self).registry() == old(self).registry(),
            key.key_bytes().len() <= MAX_KEY_SIZE ==> stores_except(old(self).stores(), final(self).stores(), old(self).slot_of(tier))
                && outcome_recorded(old(self).registry(), final(self).registry(), tier, outcome_of(r))
                && old(self).stores()[old(self).slot_of(tier)].get_answer(key.key_bytes(), r),
    {
        let kb = match encode_key(key) {
            Ok(b) => b,
            Err(e) => return Err(e),
        };
        let i = self.slot(tier);
        let kr = KeyRef(kb.as_slice());
        let res = self.tiers[i].get(&kr);
        record_read(&mut self.tier_registry, tier, &res);
        res
    }

    /// What `read_after_wait` of key bytes `kb` returns and leaves: the
    /// error the key's entry recorded, else what the store of its tier
    /// answered, a miss for no value.
    pub open spec fn waited_read(old: Self, new: Self, kb: Seq<u8>, r: Result<V, CacheError>) -> bool {
        &&& new.wf()
        &&& Self::same_config(old, new)
        &&& new.control() == old.control()
        &&& new.registry() == old.registry()
        &&& kb.len() > MAX_KEY_SIZE ==> r == Err::<V, CacheError>(CacheError::ConfigurationError) && new.stores()
            == old.stores()
        &&& kb.len() <= MAX_KEY_SIZE ==> exists|now: u64, cur: SnapshotView|
            #[trigger] observed(old.control(), kb, now, cur) && (cur.last_error matches Some(e) ==> r == Err::<
                V,
                CacheError,
            >(e) && new.stores() == old.stores()) && (cur.last_error is None ==> stores_except(
                old.stores(),
                new.stores(),
                old.slot_of(cur.tier),
            ) && exists|res: Result<Option<V>, CacheError>|
                #[trigger] old.stores()[old.slot_of(cur.tier)].get_answer(kb, res) && r == value_or_miss(res))
    }

    /// The step of a read-through after waiting for the population another
    /// caller owned: the key's control entry is looked at as it is now; the
    /// terminal error its population recorded is the answer, else the value
    /// the store of its tier holds, else a miss. Nothing is recorded with the
    /// circuit breaker.
    pub fn read_after_wait(&mut self, key: &K) -> (r: Result<V, CacheError>)
        requires
            old(self).wf(),
            old(self).stores().len() > 0,
        ensures
            Self::waited_read(*old(self), *final(self), key.key_bytes(), r),
    {
        let kb = match encode_key(key) {
            Ok(b) => b,
            Err(e) => return Err(e),
        };
        let current = self.cachelito.observe(kb.as_slice());
        let ghost now = choose|now: u64| current.summary() == observe_snapshot(Cachelito::entry_or_fresh(old(self).control()@, bytes_hash(kb@)), now);
        assert(observed(old(self).control(), kb@, now, current.summary()));
        if let Some(err) = current.last_error {
            return Err(err);
        }
        let i = self.slot(current.tier);
        let kr = KeyRef(kb.as_slice());
        let ghost store = self.tiers@[i as int];
        let res = self.tiers[i].get(&kr);
        assert(store.get_answer(kb@, res));
        match res {
            Ok(Some(v)) => Ok(v),
            Ok(None) => Err(CacheError::Miss),
            Err(e) => Err(e),
        }
    }

    /// With the control plane at `c` and the snapshot `p`, a read-through
    /// waits when another caller populates the entry, and populates it under
    /// `p`'s generation otherwise.
    pub open spec fn claim_or_wait(new: Self, c: Cachelito, p: SnapshotView, d: PolicyDecision, r: Result<FetchStart<V>, CacheError>) -> bool {
        &&& new.control() == c
        &&& p.state is InFlight && !p.population_owner ==> (r matches Ok(FetchStart::Wait(w)) && w.summary() == p)
        &&& !(p.state is InFlight && !p.population_owner) ==> r == Ok::<FetchStart<V>, CacheError>(
            FetchStart::Populate(Population { generation: Generation(p.generation), decision: d }),
        )
    }

    /// What a read-through does with the snapshot `s` that acquiring the key
    /// left as `c1`, the policy having decided `d`: a ready, unexpired entry
    /// is read from its store and served when the store holds it; an expired
    /// one is marked stale and acquired again for `d`'s tier; then the caller
    /// waits or populates (`claim_or_wait`).
    pub open spec fn fetch_acquired(
        old: Self,
        new: Self,
        kb: Seq<u8>,
        d: PolicyDecision,
        c1: Cachelito,
        s: SnapshotView,
        r: Result<FetchStart<V>, CacheError>,
    ) -> bool {
        let same_rest = new.stores() == old.stores() && new.registry() == old.registry();
        if s.state is Ready && !s.expired {
            &&& new.registry() == old.registry()
            &&& new.control() == c1
            &&& stores_except(old.stores(), new.stores(), old.slot_of(s.tier))
            &&& exists|res: Result<Option<V>, CacheError>|
                #[trigger] old.stores()[old.slot_of(s.tier)].get_answer(kb, res) && r == fetch_served(
                    res,
                    Population { generation: Generation(s.generation), decision: d },
                )
        } else if s.state is Ready {
            &&& same_rest
            &&& exists|c2: Cachelito|
                #[trigger] staled(c1, c2, kb) && exists|now2: u64, s2: SnapshotView|
                    #[trigger] acquired(c2, new.control(), kb, d.tier, now2, s2) && Self::claim_or_wait(
                        new,
                        new.control(),
                        s2,
                        d,
                        r,
                    )
        } else {
            same_rest && Self::claim_or_wait(new, c1, s, d, r)
        }
    }

    /// What `fetch_start` does once the policy authorized it as `d`.
    pub open spec fn fetch_then(old: Self, new: Self, kb: Seq<u8>, d: PolicyDecision, r: Result<FetchStart<V>, CacheError>) -> bool {
        let oc = old.control();
        let nc = new.control();
        ||| acquire_refused(oc, nc, kb) && r == Err::<FetchStart<V>, CacheError>(CacheError::ConfigurationError)
            && new.stores() == old.stores() && new.registry() == old.registry()
        ||| exists|now: u64, s: SnapshotView, c1: Cachelito|
            #[trigger] acquired(oc, c1, kb, TierId::L0, now, s) && Self::fetch_acquired(old, new, kb, d, c1, s, r)
    }

    /// What `fetch_start` returns and leaves.
    pub open spec fn fetch_post(old: Self, new: Self, key: K, ctx: CacheContext, r: Result<FetchStart<V>, CacheError>) -> bool {
        let kb = key.key_bytes();
        let unchanged = new.control() == old.control() && new.stores() == old.stores() && new.registry()
            == old.registry();
        &&& new.wf()
        &&& Self::same_config(old, new)
        &&& !ctx.identity_spec().authenticated() ==> r == Err::<FetchStart<V>, CacheError>(CacheError::Unauthenticated)
            && unchanged
        &&& ctx.identity_spec().authenticated() && kb.len() > MAX_KEY_SIZE ==> r == Err::<FetchStart<V>, CacheError>(
            CacheError::ConfigurationError,
        ) && unchanged
        &&& ctx.identity_spec().authenticated() && kb.len() <= MAX_KEY_SIZE ==> exists|d: PolicyDecision|
            #[trigger] decided::<K, V, P>(old.policy_spec(), CacheOperation::Get, key, ctx, absent_state(), d)
            && authorized_then(d, r, unchanged, Self::fetch_then(old, new, kb, d, r))
    }

    /// The first step of a read-through of `key`: after the gates, the key's
    /// control entry is acquired; see `fetch_acquired`.
    pub fn fetch_start(&mut self, key: &K, ctx: &CacheContext) -> (r: Result<FetchStart<V>, CacheError>)
        requires
            old(self).wf(),
            old(self).stores().len() > 0,
            key.key_bytes().len() <= MAX_KEY_SIZE ==> reclaim_room(old(self).control(), key.key_bytes()),
        ensures
            Self::fetch_post(*old(self), *final(self), *key, *ctx, r),
    {
        if let Err(e) = check_auth(ctx) {
            return Err(e);
        }
        let kb = match encode_key(key) {
            Ok(b) => b,
            Err(e) => return Err(e),
        };
        let decision = resolve(&self.policy, CacheOperation::Get, key, ctx);
        assert(decided::<K, V, P>(old(self).policy_spec(), CacheOperation::Get, *key, *ctx, absent_state(), decision));
        if let Err(e) = authorize(&decision) {
            return Err(e);
        }
        let snapshot = match self.cachelito.acquire(kb.as_slice(), TierId::L0) {
            Ok(s) => s,
            Err(e) => return Err(e),
        };
        let ghost now = choose|now: u64| Cachelito::acquire_post(old(self).control(), self.control(), kb@, TierId::L0, now, Ok(snapshot));
        let ghost c1 = self.cachelito;
        let ghost s = snapshot.summary();
        assert(acquired(old(self).control(), c1, kb@, TierId::L0, now, s));
        let ghost population = Population { generation: Generation(s.generation), decision };
        let ghost mut answered: Result<Option<V>, CacheError> = Ok(None);
        if let Some(t) = serve_ready(&snapshot) {
            let i = self.slot(t);
            let kr = KeyRef(kb.as_slice());
            let ghost store = self.tiers@[i as int];
            proof {
                assert(store == old(self).stores()[old(self).slot_of(s.tier)]);
            }
            let res = self.tiers[i].get(&kr);
            proof {
                assert(store.get_answer(kb@, res));
                answered = res;
            }
            match res {
                Ok(Some(v)) => {
                    proof {
                        assert(Ok::<FetchStart<V>, CacheError>(FetchStart::Hit(v)) == fetch_served(res, population));
                    }
                    return Ok(FetchStart::Hit(v));
                },
                Ok(None) => {},
                Err(e) => {
                    proof {
                        assert(Err::<FetchStart<V>, CacheError>(e) == fetch_served(res, population));
                    }
                    return Err(e);
                },
            }
        }
        let population_snapshot = if needs_reclaim(&snapshot) {
            let _ = self.cachelito.set_state(kb.as_slice(), EntryState::Stale);
            let ghost c2 = self.cachelito;
            proof {
                assert(c2@ =~= c1@.insert(bytes_hash(kb@), woken(ControlView { state: EntryState::Stale, ..c1@[bytes_hash(kb@)] })));
                assert(staled(c1, c2, kb@));
            }
            let p = match self.cachelito.acquire(kb.as_slice(), decision.tier) {
                Ok(p) => p,
                Err(e) => return Err(e),
            };
            proof {
                let now2 = choose|now2: u64| Cachelito::acquire_post(c2, self.control(), kb@, decision.tier, now2, Ok(p));
                assert(acquired(c2, self.control(), kb@, decision.tier, now2, p.summary()));
            }
            p
        } else {
            snapshot
        };
        if must_wait(&population_snapshot) {
            return Ok(FetchStart::Wait(population_snapshot));
        }
        let r = Ok(FetchStart::Populate(Population { generation: population_snapshot.generation, decision }));
        proof {
            if s.state is Ready && !s.expired {
                assert(answered == Ok::<Option<V>, CacheError>(None));
                assert(r == fetch_served(answered, population));
            }
        }
        r
    }

    /// `fetch_start`, where the control entry of `key` leaves room for its
    /// claims; otherwise nothing is done and `None` comes back.
    pub fn try_fetch_start(&mut self, key: &K, ctx: &CacheContext) -> (r: Option<Result<FetchStart<V>, CacheError>>)
        requires
            old(self).wf(),
            old(self).stores().len() > 0,
        ensures
            r is None <==> (key.key_bytes().len() <= MAX_KEY_SIZE && !reclaim_room(old(self).control(), key.key_bytes())),
            r is None ==> *final(self) == *old(self),
            r matches Some(res) ==> Self::fetch_post(*old(self), *final(self), *key, *ctx, res),
    {
        if !self.has_reclaim_room(key) {
            return None;
        }
        Some(self.fetch_start(key, ctx))
    }

    /// What `refresh_start` does once the policy authorized it as `d`: the
    /// key's control entry is acquired, the value its tier's store holds now
    /// is read (a failed read counts as none), and the caller repopulates the
    /// entry under the snapshot's generation, whatever its state.
    pub open spec fn refresh_then(
        old: Self,
        new: Self,
        kb: Seq<u8>,
        d: PolicyDecision,
        r: Result<(Population, Option<V>), CacheError>,
    ) -> bool {
        let oc = old.control();
        let nc = new.control();
        ||| acquire_refused(oc, nc, kb) && r == Err::<(Population, Option<V>), CacheError>(CacheError::ConfigurationError)
            && new.stores() == old.stores() && new.registry() == old.registry()
        ||| exists|now: u64, s: SnapshotView|
            #[trigger] acquired(oc, nc, kb, TierId::L0, now, s) && new.registry() == old.registry() && stores_except(
                old.stores(),
                new.stores(),
                old.slot_of(s.tier),
            ) && exists|res: Result<Option<V>, CacheError>|
                #[trigger] old.stores()[old.slot_of(s.tier)].get_answer(kb, res) && r == Ok::<
                    (Population, Option<V>),
                    CacheError,
                >(
                    (
                        Population { generation: Generation(s.generation), decision: d },
                        match res {
                            Ok(v) => v,
                            Err(_) => None,
                        },
                    ),
                )
    }

    /// What `refresh_start` returns and leaves.
    pub open spec fn refresh_post(
        old: Self,
        new: Self,
        key: K,
        ctx: CacheContext,
        r: Result<(Population, Option<V>), CacheError>,
    ) -> bool {
        let kb = key.key_bytes();
        let unchanged = new.control() == old.control() && new.stores() == old.stores() && new.registry()
            == old.registry();
        &&& new.wf()
        &&& Self::same_config(old, new)
        &&& !ctx.identity_spec().authenticated() ==> r == Err::<(Population, Option<V>), CacheError>(
            CacheError::Unauthenticated,
        ) && unchanged
        &&& ctx.identity_spec().authenticated() && kb.len() > MAX_KEY_SIZE ==> r == Err::<
            (Population, Option<V>),
            CacheError,
        >(CacheError::ConfigurationError) && unchanged
        &&& ctx.identity_spec().authenticated() && kb.len() <= MAX_KEY_SIZE ==> exists|d: PolicyDecision|
            #[trigger] decided::<K, V, P>(old.policy_spec(), CacheOperation::Refresh, key, ctx, absent_state(), d)
            && authorized_then(d, r, unchanged, Self::refresh_then(old, new, kb, d, r))
    }

    /// The first step of a refresh of `key`: the population to run and the
    /// value to serve should it fail (stale-while-revalidate).
    pub fn refresh_start(&mut self, key: &K, ctx: &CacheContext) -> (r: Result<(Population, Option<V>), CacheError>)
        requires
            old(self).wf(),
            old(self).stores().len() > 0,
            key.key_bytes().len() <= MAX_KEY_SIZE ==> claim_room(old(self).control(), key.key_bytes()),
        ensures
            Self::refresh_post(*old(self), *final(self), *key, *ctx, r),
    {
        if let Err(e) = check_auth(ctx) {
            return Err(e);
        }
        let kb = match encode_key(key) {
            Ok(b) => b,
            Err(e) => return Err(e),
        };
        let decision = resolve(&self.policy, CacheOperation::Refresh, key, ctx);
        assert(decided::<K, V, P>(old(self).policy_spec(), CacheOperation::Refresh, *key, *ctx, absent_state(), decision));
        if let Err(e) = authorize(&decision) {
            return Err(e);
        }
        let snapshot = match self.cachelito.acquire(kb.as_slice(), TierId::L0) {
            Ok(s) => s,
            Err(e) => return Err(e),
        };
        let ghost now = choose|now: u64| Cachelito::acquire_post(old(self).control(), self.control(), kb@, TierId::L0, now, Ok(snapshot));
        assert(acquired(old(self).control(), self.control(), kb@, TierId::L0, now, snapshot.summary()));
        let i = self.slot(snapshot.tier);
        let kr = KeyRef(kb.as_slice());
        let ghost store = self.tiers@[i as int];
        let res = self.tiers[i].get(&kr);
        assert(store.get_answer(kb@, res));
        let current = match res {
            Ok(v) => v,
            Err(_) => None,
        };
        let r = Ok((Population { generation: snapshot.generation, decision }, current));
        proof {
            assert(store == old(self).stores()[old(self).slot_of(snapshot.tier)]);
            assert(r == Ok::<(Population, Option<V>), CacheError>(
                (
                    Population { generation: Generation(snapshot.summary().generation), decision },
                    match res {
                        Ok(v) => v,
                        Err(_) => None,
                    },
                ),
            ));
        }
        r
    }

    /// `refresh_start`, where the control entry of `key` leaves room for its
    /// claim; otherwise nothing is done and `None` comes back.
    pub fn try_refresh_start(&mut self, key: &K, ctx: &CacheContext) -> (r: Option<
        Result<(Population, Option<V>), CacheError>,
    >)
        requires
            old(self).wf(),
            old(self).stores().len() > 0,
        ensures
            r is None <==> (key.key_bytes().len() <= MAX_KEY_SIZE && !claim_room(old(self).control(), key.key_bytes())),
            r is None ==> *final(self) == *old(self),
            r matches Some(res) ==> Self::refresh_post(*old(self), *final(self), *key, *ctx, res),
    {
        if !self.has_claim_room(key) {
            return None;
        }
        Some(self.refresh_start(key, ctx))
    }

    /// What `store_population` of `value` for `population` returns and
    /// leaves: the store of the decided tier is handed a clone of the value
    /// with the context's TTL, the circuit breaker records its answer, and on
    /// success the population is published under its generation.
    pub open spec fn population_stored(
        old: Self,
        new: Self,
        key: K,
        population: Population,
        value: V,
        ctx: CacheContext,
        r: Result<V, CacheError>,
    ) -> bool {
        &&& new.wf()
        &&& Self::same_config(old, new)
        &&& r matches Ok(v) ==> v == value
        &&& (key.key_bytes().len() > MAX_KEY_SIZE ==> r == Err::<V, CacheError>(CacheError::ConfigurationError)
                && new.control() == old.control() && new.stores() == old.stores()
                && new.registry() == old.registry())
        &&& (key.key_bytes().len() <= MAX_KEY_SIZE ==> stores_except(
                old.stores(),
                new.stores(),
                old.slot_of(population.decision.tier),
            ) && exists|res: Result<(), CacheError>|
                #[trigger] outcome_recorded(old.registry(), new.registry(), population.decision.tier, res)
                && (exists|copy: V|
                    cloned::<V>(value, copy) && #[trigger] old.stores()[old.slot_of(population.decision.tier)].set_answer(
                        key.key_bytes(),
                        copy,
                        ctx.ttl_spec(),
                        res,
                    ) && old.stores()[old.slot_of(population.decision.tier)].set_leaves(
                        key.key_bytes(),
                        copy,
                        ctx.ttl_spec(),
                        res,
                        |k: Seq<u8>, t: u64| new.stores()[old.slot_of(population.decision.tier)].holds_at(k, t),
                    )) && (res matches Err(e) ==> r == Err::<V, CacheError>(e) && new.control() == old.control())
                && (res is Ok ==> exists|now: u64|
                    #[trigger] Cachelito::publish_post(
                        old.control(),
                        new.control(),
                        key.key_bytes(),
                        population.generation,
                        population.decision.tier,
                        ctx.ttl_spec(),
                        now,
                        outcome_of(r),
                    )))
    }

    /// Stores the value a population fetched: the store of the decided tier
    /// takes a clone of it with the context's TTL, the circuit breaker records
    /// that write, and on success the population is published under its
    /// generation; the value comes back.
    pub fn store_population(&mut self, key: &K, population: &Population, value: V, ctx: &CacheContext) -> (r: Result<V, CacheError>)
        requires
            old(self).wf(),
            old(self).stores().len() > 0,
            old(self).registry().counters_fit(),
        ensures
            Self::population_stored(*old(self), *final(self), *key, *population, value, *ctx, r),
    {
        let kb = match encode_key(key) {
            Ok(b) => b,
            Err(e) => return Err(e),
        };
        let tier = population.decision.tier;
        let i = self.slot(tier);
        let kr = KeyRef(kb.as_slice());
        let ttl = ctx.ttl();
        let copy = value.clone();
        let ghost store = self.tiers@[i as int];
        let set_result = self.tiers[i].set(&kr, copy, ttl);
        assert(store.set_answer(kb@, copy, ttl, set_result));
        let ghost written_store = self.tiers@[i as int];
        assert(store.set_leaves(kb@, copy, ttl, set_result, |k: Seq<u8>, t: u64| written_store.holds_at(k, t)));
        record_outcome(&mut self.tier_registry, tier, set_result);
        assert(outcome_recorded(old(self).registry(), self.registry(), tier, set_result));
        assert(stores_except(old(self).stores(), self.stores(), old(self).slot_of(tier)));
        if let Err(e) = set_result {
            return Err(e);
        }
        let ghost c0 = self.cachelito;
        let published = self.cachelito.publish(kb.as_slice(), population.generation, tier, ttl);
        let r = match published {
            Ok(()) => Ok(value),
            Err(e) => Err(e),
        };
        proof {
            let now = choose|now: u64| Cachelito::publish_post(c0, self.cachelito, kb@, population.generation, tier, ttl, now, published);
            if published is Ok {
                assert(r is Ok);
                assert(outcome_of(r) =~= Ok::<(), CacheError>(()));
                let u: () = published->Ok_0;
                assert(u == ());
                assert(published == Ok::<(), CacheError>(()));
            } else {
                assert(r == Err::<V, CacheError>(published->Err_0));
            }
            assert(outcome_of(r) == published);
            assert(Cachelito::publish_post(old(self).control(), self.control(), key.key_bytes(), population.generation, tier, ctx.ttl_spec(), now, outcome_of(r)));
            assert(outcome_recorded(old(self).registry(), self.registry(), population.decision.tier, set_result));
            assert(set_result is Ok);
        }
        r
    }

    /// Every store `try_fallback_tier` may have touched in going from `old`
    /// to `new` serves a tier whose circuit is closed.
    pub open spec fn touched_closed_only(old: Self, new: Self) -> bool {
        &&& new.stores().len() == old.stores().len()
        &&& forall|j: int|
            0 <= j < old.stores().len() && #[trigger] new.stores()[j] != old.stores()[j] ==> exists|t: TierId|
                !old.registry().health_of(t).circuit_open() && #[trigger] old.slot_of(t) == j
    }

    /// Every tier before position `n` whose circuit is closed had its store
    /// asked for key bytes `kb`, and that store did not answer with a value;
    /// `answers` holds the answers, by tier position.
    pub open spec fn fallback_misses(
        stores: Seq<T>,
        reg: TierRegistry,
        kb: Seq<u8>,
        answers: Seq<Result<Option<V>, CacheError>>,
        n: nat,
    ) -> bool {
        &&& answers.len() >= n
        &&& forall|u: TierId|
            tier_index(u) < n && !reg.health_of(u).circuit_open() ==> #[trigger] stores[tier_index(u) as int].get_answer(
                kb,
                answers[tier_index(u) as int],
            ) && !(answers[tier_index(u) as int] matches Ok(Some(_)))
    }

    /// With one store per tier, what the stores answered decides the
    /// fallback: a value is the first one a store of a closed circuit, hottest
    /// first, answered; the population failed when none answered one.
    pub open spec fn fallback_answered(stores: Seq<T>, reg: TierRegistry, kb: Seq<u8>, r: Result<V, CacheError>) -> bool {
        &&& r matches Ok(v) ==> exists|t: TierId, answers: Seq<Result<Option<V>, CacheError>>|
            #![trigger Self::fallback_misses(stores, reg, kb, answers, tier_index(t))]
            !reg.health_of(t).circuit_open() && stores[tier_index(t) as int].get_answer(kb, Ok(Some(v)))
                && Self::fallback_misses(stores, reg, kb, answers, tier_index(t))
        &&& r == Err::<V, CacheError>(CacheError::PopulationFailed) ==> exists|answers: Seq<Result<Option<V>, CacheError>>|
            #[trigger] Self::fallback_misses(stores, reg, kb, answers, TIER_COUNT as nat)
    }

    /// What `try_fallback_tier` returns and does to the stores: see
    /// `try_fallback_tier`.
    pub open spec fn fallback_effect(old: Self, new: Self, key: K, r: Result<V, CacheError>) -> bool {
        let all_open = forall|t: TierId| #[trigger] old.registry().health_of(t).circuit_open();
        &&& new.wf()
        &&& Self::same_config(old, new)
        &&& new.registry() == old.registry()
        &&& Self::touched_closed_only(old, new)
        &&& all_open ==> r == Err::<V, CacheError>(CacheError::PopulationFailed) && new.stores() == old.stores()
        &&& !all_open && key.key_bytes().len() > MAX_KEY_SIZE ==> r == Err::<V, CacheError>(
            CacheError::ConfigurationError,
        ) && new.stores() == old.stores()
        &&& r is Ok || r == Err::<V, CacheError>(CacheError::PopulationFailed) || r == Err::<V, CacheError>(
            CacheError::ConfigurationError,
        )
        &&& key.key_bytes().len() <= MAX_KEY_SIZE ==> r != Err::<V, CacheError>(CacheError::ConfigurationError)
        &&& old.stores().len() >= TIER_COUNT && key.key_bytes().len() <= MAX_KEY_SIZE ==> Self::fallback_answered(
            old.stores(),
            old.registry(),
            key.key_bytes(),
            r,
        )
    }

    /// What `try_fallback_tier` returns and leaves.
    pub open spec fn fallback_post(old: Self, new: Self, key: K, r: Result<V, CacheError>) -> bool {
        &&& Self::fallback_effect(old, new, key, r)
        &&& new.control() == old.control()
    }

    /// Serves `key` from any tier whose circuit is closed, hottest first: the
    /// first store that holds the key answers; a store that misses or fails
    /// is passed over. With no such store the population failed.
    pub fn try_fallback_tier(&mut self, key: &K) -> (r: Result<V, CacheError>)
        requires
            old(self).wf(),
            old(self).stores().len() > 0,
        ensures
            Self::fallback_post(*old(self), *final(self), *key, r),
    {
        let mut idx: usize = 0;
        let ghost mut answers: Seq<Result<Option<V>, CacheError>> = Seq::empty();
        while idx < TIER_COUNT
            invariant
                idx <= TIER_COUNT,
                self.wf(),
                old(self).wf(),
                Self::same_config(*old(self), *self),
                self.cachelito == old(self).cachelito,
                self.tier_registry == old(self).tier_registry,
                self.tiers@.len() == old(self).tiers@.len(),
                self.tiers@.len() > 0,
                Self::touched_closed_only(*old(self), *self),
                (forall|t: TierId| #[trigger] tier_index(t) < idx ==> old(self).registry().health_of(t).circuit_open())
                    ==> self.tiers@ == old(self).tiers@,
                key.key_bytes().len() > MAX_KEY_SIZE ==> forall|t: TierId|
                    #[trigger] tier_index(t) < idx ==> old(self).registry().health_of(t).circuit_open(),
                old(self).stores().len() >= TIER_COUNT ==> forall|j: int|
                    idx <= j < old(self).stores().len() ==> #[trigger] self.tiers@[j] == old(self).tiers@[j],
                old(self).stores().len() >= TIER_COUNT && key.key_bytes().len() <= MAX_KEY_SIZE
                    ==> Self::fallback_misses(old(self).stores(), old(self).registry(), key.key_bytes(), answers, idx as nat),
                answers.len() == idx,
            decreases TIER_COUNT - idx,
        {
            let t = match TierId::from_usize(idx) {
                Some(t) => t,
                None => TierId::L0,
            };
            assert(tier_index(t) == idx);
            if self.tier_registry.is_circuit_open(t) {
                proof {
                    assert forall|u: TierId| #[trigger] tier_index(u) < idx + 1 && !old(self).registry().health_of(u).circuit_open() implies tier_index(u) < idx by {
                        if tier_index(u) == idx {
                            assert(u == t);
                        }
                    }
                    let a0 = answers;
                    answers = answers.push(Ok(None));
                    if old(self).stores().len() >= TIER_COUNT && key.key_bytes().len() <= MAX_KEY_SIZE {
                        assert forall|u: TierId|
                            tier_index(u) < idx + 1 && !old(self).registry().health_of(u).circuit_open() implies #[trigger] old(self).stores()[tier_index(
                                u,
                            ) as int].get_answer(key.key_bytes(), answers[tier_index(u) as int]) && !(answers[tier_index(u) as int] matches Ok(
                                Some(_),
                            )) by {
                            if tier_index(u) == idx {
                                assert(u == t);
                            }
                            assert(tier_index(u) < idx);
                            assert(old(self).stores()[tier_index(u) as int].get_answer(key.key_bytes(), a0[tier_index(u) as int]));
                            assert(answers[tier_index(u) as int] == a0[tier_index(u) as int]);
                        }
                    }
                }
                idx = idx + 1;
                continue;
            }
            let kb = match encode_key(key) {
                Ok(b) => b,
                Err(e) => {
                    proof {
                        assert(!(forall|u: TierId| #[trigger] old(self).registry().health_of(u).circuit_open()));
                    }
                    return Err(e);
                },
            };
            let i = self.slot(t);
            let kr = KeyRef(kb.as_slice());
            let ghost before = *self;
            let ghost store = self.tiers@[i as int];
            let res = self.tiers[i].get(&kr);
            proof {
                assert(store.get_answer(kb@, res));
                if old(self).stores().len() >= TIER_COUNT {
                    assert(i == idx);
                    assert(store == old(self).stores()[tier_index(t) as int]);
                }
            }
            proof {
                assert forall|j: int|
                    0 <= j < old(self).stores().len() && #[trigger] self.stores()[j] != old(self).stores()[j] implies exists|u: TierId|
                        !old(self).registry().health_of(u).circuit_open() && #[trigger] old(self).slot_of(u) == j by {
                    if j == i {
                        assert(old(self).slot_of(t) == j);
                    } else {
                        assert(self.stores()[j] == before.stores()[j]);
                    }
                }
            }
            match res {
                Ok(Some(v)) => {
                    proof {
                        if old(self).stores().len() >= TIER_COUNT && key.key_bytes().len() <= MAX_KEY_SIZE {
                            assert(Self::fallback_misses(old(self).stores(), old(self).registry(), key.key_bytes(), answers, tier_index(t)));
                            assert(old(self).stores()[tier_index(t) as int].get_answer(key.key_bytes(), Ok(Some(v))));
                            assert(!old(self).registry().health_of(t).circuit_open());
                            assert(Self::fallback_answered(old(self).stores(), old(self).registry(), key.key_bytes(), Ok(v)));
                        }
                    }
                    return Ok(v);
                },
                _ => {},
            }
            proof {
                let a0 = answers;
                answers = answers.push(res);
                if old(self).stores().len() >= TIER_COUNT && key.key_bytes().len() <= MAX_KEY_SIZE {
                    assert forall|u: TierId|
                        tier_index(u) < idx + 1 && !old(self).registry().health_of(u).circuit_open() implies #[trigger] old(self).stores()[tier_index(
                            u,
                        ) as int].get_answer(key.key_bytes(), answers[tier_index(u) as int]) && !(answers[tier_index(u) as int] matches Ok(
                            Some(_),
                        )) by {
                        if tier_index(u) == idx {
                            assert(u == t);
                        } else {
                            assert(old(self).stores()[tier_index(u) as int].get_answer(key.key_bytes(), a0[tier_index(u) as int]));
                            assert(answers[tier_index(u) as int] == a0[tier_index(u) as int]);
                        }
                    }
                }
            }
            idx = idx + 1;
        }
        proof {
            if key.key_bytes().len() > MAX_KEY_SIZE {
                assert forall|t: TierId| #[trigger] old(self).registry().health_of(t).circuit_open() by {
                    assert(tier_index(t) < TIER_COUNT);
                }
            }
            if forall|t: TierId| #[trigger] old(self).registry().health_of(t).circuit_open() {
                assert forall|t: TierId| #[trigger] tier_index(t) < TIER_COUNT implies old(self).registry().health_of(t).circuit_open() by {
                    assert(old(self).registry().health_of(t).circuit_open());
                }
                assert(self.tiers@ == old(self).tiers@);
            }
            if old(self).stores().len() >= TIER_COUNT && key.key_bytes().len() <= MAX_KEY_SIZE {
                assert(Self::fallback_misses(old(self).stores(), old(self).registry(), key.key_bytes(), answers, TIER_COUNT as nat));
            }
        }
        Err(CacheError::PopulationFailed)
    }

    /// Ends a population of `key` that failed for good with `err`: the
    /// control entry records the failure and wakes its waiters; failing open
    /// then serves from any healthy tier (`try_fallback_tier`), failing closed
    /// reports `err`.
    pub fn population_failed(&mut self, key: &K, err: CacheError, fail_mode: FailMode) -> (r: Result<V, CacheError>)
        requires
            old(self).wf(),
            old(self).stores().len() > 0,
        ensures
            final(self).wf(),
            Self::same_config(*old(self), *final(self)),
            final(self).registry() == old(self).registry(),
            key.key_bytes().len() > MAX_KEY_SIZE ==> r == Err::<V, CacheError>(CacheError::ConfigurationError)
                && final(self).control() == old(self).control() && final(self).stores() == old(self).stores(),
            key.key_bytes().len() <= MAX_KEY_SIZE ==> exists|rf: Result<(), CacheError>|
                #[trigger] Cachelito::update_post(
                    old(self).control(),
                    final(self).control(),
                    bytes_hash(key.key_bytes()),
                    fail_view(
                        Cachelito::entry_or_fresh(old(self).control()@, bytes_hash(key.key_bytes())),
                        error_code(Some(err)),
                    ),
                    rf,
                    Err(CacheError::Miss),
                ),
            key.key_bytes().len() <= MAX_KEY_SIZE && fail_mode is Closed ==> r == Err::<V, CacheError>(err)
                && final(self).stores() == old(self).stores(),
            key.key_bytes().len() <= MAX_KEY_SIZE && fail_mode is Open ==> Self::fallback_effect(
                *old(self),
                *final(self),
                *key,
                r,
            ),
    {
        let kb = match encode_key(key) {
            Ok(b) => b,
            Err(e) => return Err(e),
        };
        let ghost c0 = self.cachelito;
        let rf = self.cachelito.fail_with_error(kb.as_slice(), err);
        assert(Cachelito::update_post(
            old(self).control(),
            self.control(),
            bytes_hash(key.key_bytes()),
            fail_view(Cachelito::entry_or_fresh(old(self).control()@, bytes_hash(key.key_bytes())), error_code(Some(err))),
            rf,
            Err(CacheError::Miss),
        ));
        if fail_mode == FailMode::Open {
            let ghost mid = *self;
            let r = self.try_fallback_tier(key);
            proof {
                assert(mid.registry() == old(self).registry());
                assert(mid.stores() == old(self).stores());
                assert(Self::same_config(*old(self), *self));
                assert(forall|t: TierId| #[trigger] mid.slot_of(t) == old(self).slot_of(t));
                assert(Self::touched_closed_only(*old(self), *self));
                assert(Self::fallback_effect(*old(self), *self, *key, r));
            }
            r
        } else {
            Err(err)
        }
    }

    /// `set` went from `m0` to `m1` by handing `value` and `ttl` under key
    /// bytes `kb` to the store of `t`, which took it, and publishing the
    /// entry as ready on `t` with that TTL; only the store of `t` may have
    /// changed.
    pub open spec fn set_wrote(m0: Self, m1: Self, kb: Seq<u8>, value: V, ttl: Option<std::time::Duration>, t: TierId) -> bool {
        let h = bytes_hash(kb);
        &&& m1.control()@.contains_key(h)
        &&& m1.control()@[h].state is Ready
        &&& m1.control()@[h].tier == t
        &&& m1.control()@[h].ttl_nanos == ttl_nanos_of(ttl)
        &&& m1.control()@[h].last_error == 0
        &&& stores_except(m0.stores(), m1.stores(), m0.slot_of(t))
        &&& m0.stores()[m0.slot_of(t)].set_answer(kb, value, ttl, Ok(()))
        &&& m0.stores()[m0.slot_of(t)].set_leaves(
            kb,
            value,
            ttl,
            Ok(()),
            |k: Seq<u8>, x: u64| m1.stores()[m0.slot_of(t)].holds_at(k, x),
        )
    }

    /// A read of key bytes `kb` that went from `m1` to `m2` with outcome `r`
    /// was refused by the policy, found the entry expired, or answered what
    /// the store of `t` answered.
    pub open spec fn get_read(m1: Self, m2: Self, kb: Seq<u8>, t: TierId, r: Result<ReadStart<V>, CacheError>) -> bool {
        ||| r == Err::<ReadStart<V>, CacheError>(CacheError::Unauthorized) && m2.control() == m1.control() && m2.stores()
            == m1.stores()
        ||| r == Err::<ReadStart<V>, CacheError>(CacheError::Miss) && m2.stores() == m1.stores() && m2.registry()
            == m1.registry()
        ||| stores_except(m1.stores(), m2.stores(), m1.slot_of(t)) && outcome_recorded(
            m1.registry(),
            m2.registry(),
            t,
            outcome_of(r),
        ) && read_from(m1.stores()[m1.slot_of(t)], kb, r)
    }

    /// A read follows the write before it: a successful `set` hands the value
    /// to the store of one tier, which takes it, and publishes the key's
    /// entry as ready there; the next read of the key by an authenticated
    /// caller is refused by the policy, finds the entry's TTL elapsed, or
    /// answers what that same store answers.
    pub proof fn lemma_set_then_get(
        m0: Self,
        m1: Self,
        m2: Self,
        key: K,
        value: V,
        ctx1: CacheContext,
        ctx2: CacheContext,
        r2: Result<ReadStart<V>, CacheError>,
    )
        requires
            Self::set_post(m0, m1, key, value, ctx1, Ok(())),
            Self::get_post(m1, m2, key, ctx2, r2),
            ctx2.identity_spec().authenticated(),
        ensures
            exists|t: TierId|
                #[trigger] Self::set_wrote(m0, m1, key.key_bytes(), value, ctx1.ttl_spec(), t) && Self::get_read(
                    m1,
                    m2,
                    key.key_bytes(),
                    t,
                    r2,
                ),
    {
        let kb = key.key_bytes();
        let h = bytes_hash(kb);
        let r1 = Ok::<(), CacheError>(());
        assert(ctx1.identity_spec().authenticated());
        assert(kb.len() <= MAX_KEY_SIZE);
        let unchanged1 = m1.control() == m0.control() && m1.stores() == m0.stores() && m1.registry() == m0.registry();
        let (now0, o, d) = choose|now0: u64, o: SnapshotView, d: PolicyDecision|
            previewed(m0.control(), kb, TierId::L0, now0, o) && decided::<K, V, P>(
                m0.policy_spec(),
                CacheOperation::Put,
                key,
                ctx1,
                snapshot_state(o, m0.registry().health_of(o.tier)),
                d,
            ) && authorized_then(d, r1, unchanged1, Self::set_then(m0, m1, kb, value, ctx1, d, r1));
        assert(d.authorized);
        let (now, s, c1) = choose|now: u64, s: SnapshotView, c1: Cachelito|
            #[trigger] acquired(m0.control(), c1, kb, TierId::L0, now, s) && Self::set_written(m0, m1, kb, value, ctx1, c1, s, d, r1);
        let res = choose|res: Result<(), CacheError>|
            #[trigger] outcome_recorded(m0.registry(), m1.registry(), d.tier, res) && m0.stores()[m0.slot_of(
                d.tier,
            )].set_answer(kb, value, ctx1.ttl_spec(), res) && m0.stores()[m0.slot_of(d.tier)].set_leaves(
                kb,
                value,
                ctx1.ttl_spec(),
                res,
                |k: Seq<u8>, t: u64| m1.stores()[m0.slot_of(d.tier)].holds_at(k, t),
            ) && (res is Err ==> r1 == res && m1.control() == c1) && (res is Ok
                ==> r1 is Ok && exists|now2: u64|
                #[trigger] written(c1, m1.control(), kb, (s.generation + 1) as u64, d.tier, ctx1.ttl_spec(), now2));
        assert(res is Ok);
        let u: () = res->Ok_0;
        assert(u == ());
        assert(res == Ok::<(), CacheError>(()));
        let now2 = choose|now2: u64| #[trigger] written(c1, m1.control(), kb, (s.generation + 1) as u64, d.tier, ctx1.ttl_spec(), now2);
        let t = d.tier;
        assert(Self::set_wrote(m0, m1, kb, value, ctx1.ttl_spec(), t));
        let unchanged = m2.control() == m1.control() && m2.stores() == m1.stores() && m2.registry() == m1.registry();
        let d2 = choose|d2: PolicyDecision| #[trigger] decided::<K, V, P>(m1.policy_spec(), CacheOperation::Get, key, ctx2, absent_state(), d2)
            && authorized_then(d2, r2, unchanged, Self::get_then(m1, m2, kb, r2));
        if d2.authorized {
            assert(m1.control()@.contains_key(h));
            let (now3, s3) = choose|now3: u64, s3: SnapshotView|
                #[trigger] observed(m1.control(), kb, now3, s3) && Self::read_acquired(m1, m2, kb, m1.control(), s3, r2);
            assert(s3.state is Ready);
            assert(s3.tier == t);
        }
        assert(Self::get_read(m1, m2, kb, t, r2));
    }

    /// Promotion and demotion undo each other: a ready entry on a tier below
    /// L0 that a successful `promote` moves one tier hotter is brought back
    /// to its tier by a successful `demote` that follows.
    pub proof fn lemma_promote_then_demote(
        m0: Self,
        m1: Self,
        m2: Self,
        key: K,
        ctx1: CacheContext,
        ctx2: CacheContext,
    )
        requires
            m0.control()@.contains_key(bytes_hash(key.key_bytes())),
            m0.control()@[bytes_hash(key.key_bytes())].state is Ready,
            tier_index(m0.control()@[bytes_hash(key.key_bytes())].tier) > 0,
            Self::move_post(m0, m1, key, ctx1, true, Ok(())),
            Self::move_post(m1, m2, key, ctx2, false, Ok(())),
        ensures
            m2.control()@.contains_key(bytes_hash(key.key_bytes())),
            m2.control()@[bytes_hash(key.key_bytes())].state is Ready,
            m2.control()@[bytes_hash(key.key_bytes())].tier == m0.control()@[bytes_hash(key.key_bytes())].tier,
    {
        let kb = key.key_bytes();
        let h = bytes_hash(kb);
        let t = m0.control()@[h].tier;
        let r = Ok::<(), CacheError>(());
        assert(ctx1.identity_spec().authenticated());
        assert(kb.len() <= MAX_KEY_SIZE);
        assert(!acquire_refused(m0.control(), m1.control(), kb));
        let (now, s, c1) = choose|now: u64, s: SnapshotView, c1: Cachelito|
            #[trigger] acquired(m0.control(), c1, kb, TierId::L0, now, s) && Self::moved(m0, m1, kb, c1, s, move_dest(true, s), ctx1.ttl_spec(), r);
        assert(s.state is Ready && s.tier == t);
        let u = tier_at(tier_index(t) - 1)->0;
        assert(move_dest(true, s) == Ok::<Option<TierId>, CacheError>(Some(u)));
        Self::lemma_entry_moved_ok(m0.stores(), m0.registry(), m1, kb, c1, t, u, ctx1.ttl_spec());
        assert(m1.control()@[h].tier == u && m1.control()@[h].state is Ready);
        assert(ctx2.identity_spec().authenticated());
        assert(!acquire_refused(m1.control(), m2.control(), kb));
        let (now2, s2, c2) = choose|now2: u64, s2: SnapshotView, c2: Cachelito|
            #[trigger] acquired(m1.control(), c2, kb, TierId::L0, now2, s2) && Self::moved(m1, m2, kb, c2, s2, move_dest(false, s2), ctx2.ttl_spec(), r);
        assert(s2.state is Ready && s2.tier == u);
        assert(move_dest(false, s2) == Ok::<Option<TierId>, CacheError>(Some(t)));
        Self::lemma_entry_moved_ok(m1.stores(), m1.registry(), m2, kb, c2, u, t, ctx2.ttl_spec());
    }

    /// A move that succeeded retiered the entry.
    proof fn lemma_entry_moved_ok(
        stores: Seq<T>,
        reg: TierRegistry,
        new: Self,
        kb: Seq<u8>,
        c: Cachelito,
        from: TierId,
        to: TierId,
        ttl: Option<std::time::Duration>,
    )
        requires
            Self::entry_moved(stores, reg, new, kb, c, from, to, ttl, Ok(())),
        ensures
            retiered(c, new.control(), kb, to),
    {
        let i = slot_for(stores.len(), from);
        let got = choose|got: Result<Option<V>, CacheError>|
            #[trigger] stores[i].get_answer(kb, got) && match got {
                Ok(Some(v)) => stores_except2(stores, new.stores(), i, slot_for(stores.len(), to)) && exists|
                    res: Result<(), CacheError>,
                |
                    #[trigger] outcome_recorded(reg, new.registry(), to, res) && (i != slot_for(stores.len(), to)
                        ==> stores[slot_for(stores.len(), to)].set_answer(kb, v, ttl, res)) && (res is Err ==> Ok::<
                        (),
                        CacheError,
                    >(()) == res && new.control() == c) && (res is Ok ==> retiered(c, new.control(), kb, to)),
                _ => Ok::<(), CacheError>(()) == Err::<(), CacheError>(
                    match got {
                        Err(e) => e,
                        _ => CacheError::Miss,
                    },
                ),
            };
        assert(got matches Ok(Some(_)));
    }

    /// Single flight: of two read-throughs of a key with no entry to serve
    /// (untracked, absent, failed or stale), the first that the policy lets
    /// through and the control plane can track becomes the population owner,
    /// and the second waits for it.
    pub proof fn lemma_read_through_single_flight(
        m0: Self,
        m1: Self,
        m2: Self,
        key: K,
        ctx1: CacheContext,
        ctx2: CacheContext,
        r1: Result<FetchStart<V>, CacheError>,
        r2: Result<FetchStart<V>, CacheError>,
    )
        requires
            Self::claimable_in(m0.control(), key.key_bytes()),
            key.key_bytes().len() <= MAX_KEY_SIZE,
            ctx1.identity_spec().authenticated(),
            ctx2.identity_spec().authenticated(),
            Self::fetch_post(m0, m1, key, ctx1, r1),
            Self::fetch_post(m1, m2, key, ctx2, r2),
        ensures
            r1 == Err::<FetchStart<V>, CacheError>(CacheError::Unauthorized) || r1 == Err::<FetchStart<V>, CacheError>(
                CacheError::ConfigurationError,
            ) || ((r1 matches Ok(FetchStart::Populate(_))) && ((r2 matches Ok(FetchStart::Wait(_))) || r2 == Err::<
                FetchStart<V>,
                CacheError,
            >(CacheError::Unauthorized))),
    {
        let kb = key.key_bytes();
        let h = bytes_hash(kb);
        let unchanged1 = m1.control() == m0.control() && m1.stores() == m0.stores() && m1.registry() == m0.registry();
        let d1 = choose|d: PolicyDecision| #[trigger] decided::<K, V, P>(m0.policy_spec(), CacheOperation::Get, key, ctx1, absent_state(), d)
            && authorized_then(d, r1, unchanged1, Self::fetch_then(m0, m1, kb, d, r1));
        if d1.authorized && !acquire_refused(m0.control(), m1.control(), kb) {
            let (now, s, c1) = choose|now: u64, s: SnapshotView, c1: Cachelito|
                #[trigger] acquired(m0.control(), c1, kb, TierId::L0, now, s) && Self::fetch_acquired(m0, m1, kb, d1, c1, s, r1);
            assert(s.state is InFlight && s.population_owner);
            assert(m1.control()@.contains_key(h) && m1.control()@[h].state is InFlight);
            let unchanged2 = m2.control() == m1.control() && m2.stores() == m1.stores() && m2.registry() == m1.registry();
            let d2 = choose|d: PolicyDecision| #[trigger] decided::<K, V, P>(m1.policy_spec(), CacheOperation::Get, key, ctx2, absent_state(), d)
                && authorized_then(d, r2, unchanged2, Self::fetch_then(m1, m2, kb, d, r2));
            if d2.authorized {
                assert(!acquire_refused(m1.control(), m2.control(), kb));
                let (now2, s2, c2) = choose|now2: u64, s2: SnapshotView, c2: Cachelito|
                    #[trigger] acquired(m1.control(), c2, kb, TierId::L0, now2, s2) && Self::fetch_acquired(m1, m2, kb, d2, c2, s2, r2);
                assert(s2.state is InFlight && !s2.population_owner);
            }
        }
    }

    /// The key of bytes `kb` is untracked in `c`, or its entry may be claimed.
    pub open spec fn claimable_in(c: Cachelito, kb: Seq<u8>) -> bool {
        c@.contains_key(bytes_hash(kb)) ==> claimable(c@[bytes_hash(kb)].state)
    }

    /// A read of a key whose entry is untracked or claimable serves nothing
    /// and claims nothing: it is refused by the policy or misses, and leaves
    /// the control plane as it was.
    pub proof fn lemma_claimable_read_misses(m1: Self, m2: Self, key: K, ctx: CacheContext, r: Result<ReadStart<V>, CacheError>)
        requires
            Self::get_post(m1, m2, key, ctx, r),
            ctx.identity_spec().authenticated(),
            key.key_bytes().len() <= MAX_KEY_SIZE,
            Self::claimable_in(m1.control(), key.key_bytes()),
        ensures
            r == Err::<ReadStart<V>, CacheError>(CacheError::Miss) || r == Err::<ReadStart<V>, CacheError>(
                CacheError::Unauthorized,
            ),
            m2.control() == m1.control(),
    {
        let kb = key.key_bytes();
        let unchanged = m2.control() == m1.control() && m2.stores() == m1.stores() && m2.registry() == m1.registry();
        let d = choose|d: PolicyDecision| #[trigger] decided::<K, V, P>(m1.policy_spec(), CacheOperation::Get, key, ctx, absent_state(), d)
            && authorized_then(d, r, unchanged, Self::get_then(m1, m2, kb, r));
        if d.authorized {
            let (now, s) = choose|now: u64, s: SnapshotView|
                #[trigger] observed(m1.control(), kb, now, s) && Self::read_acquired(m1, m2, kb, m1.control(), s, r);
            assert(claimable(s.state));
            assert(read_step_spec(s) is Miss);
        }
    }

    /// A read that misses does not hold up the read-through after it: when
    /// the key's entry is untracked or claimable, a read by an authenticated
    /// caller is refused or misses, and a read-through that follows is
    /// refused, finds the control plane full, or becomes the population
    /// owner.
    pub proof fn lemma_read_miss_then_fetch(
        m0: Self,
        m1: Self,
        m2: Self,
        key: K,
        ctx1: CacheContext,
        ctx2: CacheContext,
        r1: Result<ReadStart<V>, CacheError>,
        r2: Result<FetchStart<V>, CacheError>,
    )
        requires
            Self::claimable_in(m0.control(), key.key_bytes()),
            key.key_bytes().len() <= MAX_KEY_SIZE,
            ctx1.identity_spec().authenticated(),
            ctx2.identity_spec().authenticated(),
            Self::get_post(m0, m1, key, ctx1, r1),
            Self::fetch_post(m1, m2, key, ctx2, r2),
        ensures
            r1 == Err::<ReadStart<V>, CacheError>(CacheError::Miss) || r1 == Err::<ReadStart<V>, CacheError>(
                CacheError::Unauthorized,
            ),
            (r2 matches Ok(FetchStart::Populate(_))) || r2 == Err::<FetchStart<V>, CacheError>(CacheError::Unauthorized)
                || r2 == Err::<FetchStart<V>, CacheError>(CacheError::ConfigurationError),
    {
        Self::lemma_claimable_read_misses(m0, m1, key, ctx1, r1);
        let kb = key.key_bytes();
        let unchanged2 = m2.control() == m1.control() && m2.stores() == m1.stores() && m2.registry() == m1.registry();
        let d2 = choose|d: PolicyDecision| #[trigger] decided::<K, V, P>(m1.policy_spec(), CacheOperation::Get, key, ctx2, absent_state(), d)
            && authorized_then(d, r2, unchanged2, Self::fetch_then(m1, m2, kb, d, r2));
        if d2.authorized && !acquire_refused(m1.control(), m2.control(), kb) {
            let (now, s, c1) = choose|now: u64, s: SnapshotView, c1: Cachelito|
                #[trigger] acquired(m1.control(), c1, kb, TierId::L0, now, s) && Self::fetch_acquired(m1, m2, kb, d2, c1, s, r2);
            assert(s.state is InFlight && s.population_owner);
        }
    }

    /// After a successful `invalidate`, the next read of the key by an
    /// authenticated caller serves nothing and claims nothing (see
    /// `lemma_claimable_read_misses`).
    pub proof fn lemma_invalidate_then_get(
        m0: Self,
        m1: Self,
        m2: Self,
        key: K,
        ctx1: CacheContext,
        ctx2: CacheContext,
        r2: Result<ReadStart<V>, CacheError>,
    )
        requires
            Self::invalidate_post(m0, m1, key, ctx1, Ok(())),
            Self::get_post(m1, m2, key, ctx2, r2),
            ctx2.identity_spec().authenticated(),
        ensures
            r2 == Err::<ReadStart<V>, CacheError>(CacheError::Miss) || r2 == Err::<ReadStart<V>, CacheError>(
                CacheError::Unauthorized,
            ),
            m2.control() == m1.control(),
    {
        assert(Self::claimable_in(m1.control(), key.key_bytes()));
        Self::lemma_claimable_read_misses(m1, m2, key, ctx2, r2);
    }

    /// After a successful `remove`, the next read of the key by an
    /// authenticated caller serves nothing and claims nothing (see
    /// `lemma_claimable_read_misses`).
    pub proof fn lemma_remove_then_get(
        m0: Self,
        m1: Self,
        m2: Self,
        key: K,
        ctx1: CacheContext,
        ctx2: CacheContext,
        r2: Result<ReadStart<V>, CacheError>,
    )
        requires
            Self::remove_post(m0, m1, key, ctx1, Ok(())),
            Self::get_post(m1, m2, key, ctx2, r2),
            ctx2.identity_spec().authenticated(),
        ensures
            r2 == Err::<ReadStart<V>, CacheError>(CacheError::Miss) || r2 == Err::<ReadStart<V>, CacheError>(
                CacheError::Unauthorized,
            ),
            m2.control() == m1.control(),
    {
        assert(Self::claimable_in(m1.control(), key.key_bytes()));
        Self::lemma_claimable_read_misses(m1, m2, key, ctx2, r2);
    }

    /// What `invalidate` returns and leaves.
    pub open spec fn invalidate_post(old: Self, new: Self, key: K, ctx: CacheContext, r: Result<(), CacheError>) -> bool {
        let kb = key.key_bytes();
        &&& new.wf()
        &&& Self::only_control(old, new)
        &&& !ctx.identity_spec().authenticated() ==> r == Err::<(), CacheError>(CacheError::Unauthenticated)
            && new.control() == old.control()
        &&& ctx.identity_spec().authenticated() ==> exists|d: PolicyDecision|
            #[trigger] decided::<K, V, P>(old.policy_spec(), CacheOperation::Invalidate, key, ctx, absent_state(), d)
            && gate_then(
                d,
                kb,
                r,
                new.control() == old.control(),
                Cachelito::update_post(
                    old.control(),
                    new.control(),
                    bytes_hash(kb),
                    reset_view(Cachelito::entry_or_fresh(old.control()@, bytes_hash(kb))),
                    r,
                    Ok(()),
                ),
            )
    }

    /// Invalidates `key`: its control entry gets a new generation, so that a
    /// population still in progress is rejected as stale.
    pub fn invalidate(&mut self, key: &K, ctx: &CacheContext) -> (r: Result<(), CacheError>)
        requires
            old(self).wf(),
        ensures
            Self::invalidate_post(*old(self), *final(self), *key, *ctx, r),
    {
        if let Err(e) = check_auth(ctx) {
            return Err(e);
        }
        let decision = resolve(&self.policy, CacheOperation::Invalidate, key, ctx);
        assert(decided::<K, V, P>(old(self).policy_spec(), CacheOperation::Invalidate, *key, *ctx, absent_state(), decision));
        if let Err(e) = authorize(&decision) {
            return Err(e);
        }
        let kb = match encode_key(key) {
            Ok(b) => b,
            Err(e) => return Err(e),
        };
        self.cachelito.invalidate(kb.as_slice())
    }
}

impl<K: Key, V: Clone, P: CachePolicy<K, V>> CacheManager<K, V, P, TestTier<V>> {
    /// The store the entry of key bytes `kb` written by a `set` lives in
    /// finds `value` at every clock reading: it holds it with no TTL.
    proof fn lemma_written_store_holds(m0: Self, m1: Self, kb: Seq<u8>, value: V, t: TierId)
        requires
            Self::set_wrote(m0, m1, kb, value, None, t),
        ensures
            forall|x: u64| #[trigger] m1.stores()[m1.slot_of(t)].holds_at(kb, x) == Some(value),
            m1.stores()[m1.slot_of(t)].healthy_spec(),
    {
        let j = m0.slot_of(t);
        let after = |k: Seq<u8>, x: u64| m1.stores()[j].holds_at(k, x);
        let since = choose|since: u64| #[trigger] holds_since(kb, value, None, since, after);
        assert forall|x: u64| #[trigger] m1.stores()[m1.slot_of(t)].holds_at(kb, x) == Some(value) by {
            assert(after(kb, x) == Some(value));
        }
        assert(m1.stores()[m1.slot_of(t)].holds_at(kb, 0) == Some(value));
    }

    /// A read returns what the write before it wrote: with the library's test
    /// stores, a successful `set` without a TTL followed by a read of the key
    /// by an authenticated caller is refused by the policy or finds a clone
    /// of the value written.
    pub proof fn lemma_set_then_get_value(
        m0: Self,
        m1: Self,
        m2: Self,
        key: K,
        value: V,
        ctx1: CacheContext,
        ctx2: CacheContext,
        r2: Result<ReadStart<V>, CacheError>,
    )
        requires
            Self::set_post(m0, m1, key, value, ctx1, Ok(())),
            ctx1.ttl_spec() is None,
            Self::get_post(m1, m2, key, ctx2, r2),
            ctx2.identity_spec().authenticated(),
        ensures
            r2 == Err::<ReadStart<V>, CacheError>(CacheError::Unauthorized) || (r2 matches Ok(ReadStart::Found(Some(v)))
                && cloned::<V>(value, v)),
    {
        let kb = key.key_bytes();
        Self::lemma_set_then_get(m0, m1, m2, key, value, ctx1, ctx2, r2);
        let t = choose|t: TierId| #[trigger] Self::set_wrote(m0, m1, kb, value, ctx1.ttl_spec(), t) && Self::get_read(m1, m2, kb, t, r2);
        Self::lemma_written_store_holds(m0, m1, kb, value, t);
        let unchanged = m2.control() == m1.control() && m2.stores() == m1.stores() && m2.registry() == m1.registry();
        let d2 = choose|d2: PolicyDecision| #[trigger] decided::<K, V, P>(m1.policy_spec(), CacheOperation::Get, key, ctx2, absent_state(), d2)
            && authorized_then(d2, r2, unchanged, Self::get_then(m1, m2, kb, r2));
        if d2.authorized {
            assert(kb.len() <= MAX_KEY_SIZE);
            let (now3, s3) = choose|now3: u64, s3: SnapshotView|
                #[trigger] observed(m1.control(), kb, now3, s3) && Self::read_acquired(m1, m2, kb, m1.control(), s3, r2);
            assert(s3.state is Ready && s3.tier == t && !s3.expired);
            let store = m1.stores()[m1.slot_of(t)];
            let res = choose|res: Result<Option<V>, CacheError>|
                #[trigger] store.get_answer(kb, res) && r2 == match res {
                    Ok(v) => Ok::<ReadStart<V>, CacheError>(ReadStart::Found(v)),
                    Err(e) => Err::<ReadStart<V>, CacheError>(e),
                };
            let now = choose|now: u64| store.store().get_post(kb, now, res);
            assert(store.holds_at(kb, now) == Some(value));
        }
    }

    /// Waiters get the value the owner stored: with the library's test
    /// stores, once the population owner stored a clone of `value` without a
    /// TTL, a caller that waited for the population and reads after the wait
    /// finds a clone of what the store was handed.
    pub proof fn lemma_waiter_reads_population(
        m0: Self,
        m1: Self,
        m2: Self,
        key: K,
        population: Population,
        value: V,
        ctx: CacheContext,
        r1: Result<V, CacheError>,
        r2: Result<V, CacheError>,
    )
        requires
            Self::population_stored(m0, m1, key, population, value, ctx, r1),
            r1 is Ok,
            ctx.ttl_spec() is None,
            Self::waited_read(m1, m2, key.key_bytes(), r2),
        ensures
            exists|copy: V| cloned::<V>(value, copy) && (r2 matches Ok(v) && cloned::<V>(copy, v)),
    {
        let kb = key.key_bytes();
        let h = bytes_hash(kb);
        let tier = population.decision.tier;
        let j = m0.slot_of(tier);
        assert(kb.len() <= MAX_KEY_SIZE);
        let res = choose|res: Result<(), CacheError>|
            #[trigger] outcome_recorded(m0.registry(), m1.registry(), tier, res) && (exists|copy: V|
                cloned::<V>(value, copy) && #[trigger] m0.stores()[j].set_answer(kb, copy, ctx.ttl_spec(), res)
                    && m0.stores()[j].set_leaves(kb, copy, ctx.ttl_spec(), res, |k: Seq<u8>, t: u64| m1.stores()[j].holds_at(k, t)))
                && (res matches Err(e) ==> r1 == Err::<V, CacheError>(e) && m1.control() == m0.control()) && (res is Ok
                ==> exists|now: u64|
                #[trigger] Cachelito::publish_post(
                    m0.control(),
                    m1.control(),
                    kb,
                    population.generation,
                    tier,
                    ctx.ttl_spec(),
                    now,
                    outcome_of(r1),
                ));
        assert(res is Ok);
        let copy = choose|copy: V|
            cloned::<V>(value, copy) && #[trigger] m0.stores()[j].set_answer(kb, copy, ctx.ttl_spec(), res)
                && m0.stores()[j].set_leaves(kb, copy, ctx.ttl_spec(), res, |k: Seq<u8>, t: u64| m1.stores()[j].holds_at(k, t));
        let after = |k: Seq<u8>, t: u64| m1.stores()[j].holds_at(k, t);
        let since = choose|since: u64| #[trigger] holds_since(kb, copy, None, since, after);
        let now = choose|now: u64|
            #[trigger] Cachelito::publish_post(m0.control(), m1.control(), kb, population.generation, tier, ctx.ttl_spec(), now, outcome_of(r1));
        assert(outcome_of(r1) is Ok);
        assert(m1.control()@[h].tier == tier);
        assert(m1.control()@[h].last_error == 0);
        let (now3, cur) = choose|now3: u64, cur: SnapshotView|
            #[trigger] observed(m1.control(), kb, now3, cur) && (cur.last_error matches Some(e) ==> r2 == Err::<
                V,
                CacheError,
            >(e) && m2.stores() == m1.stores()) && (cur.last_error is None ==> stores_except(
                m1.stores(),
                m2.stores(),
                m1.slot_of(cur.tier),
            ) && exists|res: Result<Option<V>, CacheError>|
                #[trigger] m1.stores()[m1.slot_of(cur.tier)].get_answer(kb, res) && r2 == value_or_miss(res));
        assert(cur.last_error is None && cur.tier == tier);
        let store = m1.stores()[j];
        let res2 = choose|res2: Result<Option<V>, CacheError>| #[trigger] store.get_answer(kb, res2) && r2 == value_or_miss(res2);
        assert(after(kb, 0) == Some(copy));
        let x = choose|x: u64| store.store().get_post(kb, x, res2);
        assert(after(kb, x) == Some(copy));
        assert(store.holds_at(kb, x) == Some(copy));
    }

    /// A successful `set` wrote the value somewhere (see `set_wrote`).
    proof fn lemma_set_ok_wrote(m0: Self, m1: Self, key: K, value: V, ctx1: CacheContext) -> (t: TierId)
        requires
            Self::set_post(m0, m1, key, value, ctx1, Ok(())),
        ensures
            Self::set_wrote(m0, m1, key.key_bytes(), value, ctx1.ttl_spec(), t),
    {
        let kb = key.key_bytes();
        let r1 = Ok::<(), CacheError>(());
        assert(ctx1.identity_spec().authenticated());
        assert(kb.len() <= MAX_KEY_SIZE);
        let unchanged1 = m1.control() == m0.control() && m1.stores() == m0.stores() && m1.registry() == m0.registry();
        let (now0, o, d) = choose|now0: u64, o: SnapshotView, d: PolicyDecision|
            previewed(m0.control(), kb, TierId::L0, now0, o) && decided::<K, V, P>(
                m0.policy_spec(),
                CacheOperation::Put,
                key,
                ctx1,
                snapshot_state(o, m0.registry().health_of(o.tier)),
                d,
            ) && authorized_then(d, r1, unchanged1, Self::set_then(m0, m1, kb, value, ctx1, d, r1));
        let (now, s, c1) = choose|now: u64, s: SnapshotView, c1: Cachelito|
            #[trigger] acquired(m0.control(), c1, kb, TierId::L0, now, s) && Self::set_written(m0, m1, kb, value, ctx1, c1, s, d, r1);
        let res = choose|res: Result<(), CacheError>|
            #[trigger] outcome_recorded(m0.registry(), m1.registry(), d.tier, res) && m0.stores()[m0.slot_of(
                d.tier,
            )].set_answer(kb, value, ctx1.ttl_spec(), res) && m0.stores()[m0.slot_of(d.tier)].set_leaves(
                kb,
                value,
                ctx1.ttl_spec(),
                res,
                |k: Seq<u8>, t: u64| m1.stores()[m0.slot_of(d.tier)].holds_at(k, t),
            ) && (res is Err ==> r1 == res && m1.control() == c1) && (res is Ok ==> r1 is Ok && exists|now2: u64|
                #[trigger] written(c1, m1.control(), kb, (s.generation + 1) as u64, d.tier, ctx1.ttl_spec(), now2));
        assert(res is Ok);
        let u: () = res->Ok_0;
        assert(u == ());
        let now2 = choose|now2: u64| #[trigger] written(c1, m1.control(), kb, (s.generation + 1) as u64, d.tier, ctx1.ttl_spec(), now2);
        d.tier
    }

    /// Stale-while-revalidate serves what was written: with the library's
    /// test stores, after a successful `set` without a TTL, a refresh of the
    /// key by an authenticated caller is refused by the policy, or starts
    /// its population holding a clone of the value written as the value to
    /// serve should the population fail.
    pub proof fn lemma_set_then_refresh_keeps_value(
        m0: Self,
        m1: Self,
        m2: Self,
        key: K,
        value: V,
        ctx1: CacheContext,
        ctx2: CacheContext,
        r2: Result<(Population, Option<V>), CacheError>,
    )
        requires
            Self::set_post(m0, m1, key, value, ctx1, Ok(())),
            ctx1.ttl_spec() is None,
            Self::refresh_post(m1, m2, key, ctx2, r2),
            ctx2.identity_spec().authenticated(),
        ensures
            r2 == Err::<(Population, Option<V>), CacheError>(CacheError::Unauthorized) || (r2 matches Ok((_, Some(v)))
                && cloned::<V>(value, v)),
    {
        let kb = key.key_bytes();
        let h = bytes_hash(kb);
        let t = Self::lemma_set_ok_wrote(m0, m1, key, value, ctx1);
        Self::lemma_written_store_holds(m0, m1, kb, value, t);
        let unchanged = m2.control() == m1.control() && m2.stores() == m1.stores() && m2.registry() == m1.registry();
        let d2 = choose|d2: PolicyDecision| #[trigger] decided::<K, V, P>(m1.policy_spec(), CacheOperation::Refresh, key, ctx2, absent_state(), d2)
            && authorized_then(d2, r2, unchanged, Self::refresh_then(m1, m2, kb, d2, r2));
        if d2.authorized {
            assert(kb.len() <= MAX_KEY_SIZE);
            assert(!acquire_refused(m1.control(), m2.control(), kb));
            let (now3, s3) = choose|now3: u64, s3: SnapshotView|
                #[trigger] acquired(m1.control(), m2.control(), kb, TierId::L0, now3, s3) && m2.registry() == m1.registry()
                    && stores_except(m1.stores(), m2.stores(), m1.slot_of(s3.tier)) && exists|res: Result<Option<V>, CacheError>|
                    #[trigger] m1.stores()[m1.slot_of(s3.tier)].get_answer(kb, res) && r2 == Ok::<
                        (Population, Option<V>),
                        CacheError,
                    >(
                        (
                            Population { generation: Generation(s3.generation), decision: d2 },
                            match res {
                                Ok(v) => v,
                                Err(_) => None,
                            },
                        ),
                    );
            assert(s3.tier == t);
            let store = m1.stores()[m1.slot_of(t)];
            let res = choose|res: Result<Option<V>, CacheError>|
                #[trigger] store.get_answer(kb, res) && r2 == Ok::<(Population, Option<V>), CacheError>(
                    (
                        Population { generation: Generation(s3.generation), decision: d2 },
                        match res {
                            Ok(v) => v,
                            Err(_) => None,
                        },
                    ),
                );
            let x = choose|x: u64| store.store().get_post(kb, x, res);
            assert(store.holds_at(kb, x) == Some(value));
        }
    }

    /// Failing open finds nothing where nothing is held: with the library's
    /// test stores, one per tier, none of which holds the key, the fallback
    /// reports that the population failed.
    pub proof fn lemma_fallback_without_value_fails(m0: Self, m1: Self, key: K, r: Result<V, CacheError>)
        requires
            Self::fallback_post(m0, m1, key, r),
            m0.stores().len() >= TIER_COUNT,
            key.key_bytes().len() <= MAX_KEY_SIZE,
            forall|j: int, x: u64| 0 <= j < m0.stores().len() ==> #[trigger] m0.stores()[j].holds_at(key.key_bytes(), x) is None,
        ensures
            r == Err::<V, CacheError>(CacheError::PopulationFailed),
    {
        let kb = key.key_bytes();
        if r is Ok {
            let v = r->Ok_0;
            let (t, answers) = choose|t: TierId, answers: Seq<Result<Option<V>, CacheError>>|
                #![trigger Self::fallback_misses(m0.stores(), m0.registry(), kb, answers, tier_index(t))]
                !m0.registry().health_of(t).circuit_open() && m0.stores()[tier_index(t) as int].get_answer(kb, Ok(Some(v)))
                    && Self::fallback_misses(m0.stores(), m0.registry(), kb, answers, tier_index(t));
            let store = m0.stores()[tier_index(t) as int];
            if store.healthy_spec() {
                let x = choose|x: u64| store.store().get_post(kb, x, Ok(Some(v)));
                assert(store.holds_at(kb, x) is None);
            }
        }
    }

    /// Promotion carries the value: with the library's test stores, one per
    /// tier, after a successful `set` without a TTL put the key on a tier
    /// below L0 and a successful `promote` without a TTL moved it, a read by
    /// an authenticated caller is refused by the policy or finds a clone of
    /// what promotion copied, itself a clone of the value written.
    pub proof fn lemma_set_promote_then_get(
        m0: Self,
        m1: Self,
        m2: Self,
        m3: Self,
        key: K,
        value: V,
        ctx1: CacheContext,
        ctx2: CacheContext,
        ctx3: CacheContext,
        r3: Result<ReadStart<V>, CacheError>,
    )
        requires
            m0.stores().len() >= TIER_COUNT,
            Self::set_post(m0, m1, key, value, ctx1, Ok(())),
            ctx1.ttl_spec() is None,
            tier_index(m1.control()@[bytes_hash(key.key_bytes())].tier) > 0,
            Self::move_post(m1, m2, key, ctx2, true, Ok(())),
            ctx2.ttl_spec() is None,
            Self::get_post(m2, m3, key, ctx3, r3),
            ctx3.identity_spec().authenticated(),
        ensures
            r3 == Err::<ReadStart<V>, CacheError>(CacheError::Unauthorized) || exists|copied: V|
                cloned::<V>(value, copied) && (r3 matches Ok(ReadStart::Found(Some(v))) && cloned::<V>(copied, v)),
    {
        let kb = key.key_bytes();
        let h = bytes_hash(kb);
        let r = Ok::<(), CacheError>(());
        let t = Self::lemma_set_ok_wrote(m0, m1, key, value, ctx1);
        Self::lemma_written_store_holds(m0, m1, kb, value, t);
        assert(kb.len() <= MAX_KEY_SIZE);
        assert(!acquire_refused(m1.control(), m2.control(), kb));
        let (now, s, c1) = choose|now: u64, s: SnapshotView, c1: Cachelito|
            #[trigger] acquired(m1.control(), c1, kb, TierId::L0, now, s) && Self::moved(m1, m2, kb, c1, s, move_dest(true, s), ctx2.ttl_spec(), r);
        assert(s.state is Ready && s.tier == t);
        let u = tier_at(tier_index(t) - 1)->0;
        assert(move_dest(true, s) == Ok::<Option<TierId>, CacheError>(Some(u)));
        let i = slot_for(m1.stores().len(), t);
        let j = slot_for(m1.stores().len(), u);
        assert(i != j);
        let got = choose|got: Result<Option<V>, CacheError>|
            #[trigger] m1.stores()[i].get_answer(kb, got) && match got {
                Ok(Some(v)) => stores_except2(m1.stores(), m2.stores(), i, j) && exists|res: Result<(), CacheError>|
                    #[trigger] outcome_recorded(m1.registry(), m2.registry(), u, res) && (i != j ==> m1.stores()[j].set_answer(
                        kb,
                        v,
                        ctx2.ttl_spec(),
                        res,
                    ) && m1.stores()[j].set_leaves(kb, v, ctx2.ttl_spec(), res, |k: Seq<u8>, x: u64| m2.stores()[j].holds_at(k, x)))
                        && (res is Err ==> r == res && m2.control() == c1) && (res is Ok ==> r is Ok && retiered(
                        c1,
                        m2.control(),
                        kb,
                        u,
                    )),
                _ => r == Err::<(), CacheError>(
                    match got {
                        Err(e) => e,
                        _ => CacheError::Miss,
                    },
                ) && m2.control() == c1 && m2.registry() == m1.registry() && stores_except(m1.stores(), m2.stores(), i),
            };
        let src = m1.stores()[i];
        let x0 = choose|x0: u64| src.store().get_post(kb, x0, got);
        assert(src.holds_at(kb, x0) == Some(value));
        let copied = got->Ok_0->Some_0;
        assert(cloned::<V>(value, copied));
        let res = choose|res: Result<(), CacheError>|
            #[trigger] outcome_recorded(m1.registry(), m2.registry(), u, res) && (i != j ==> m1.stores()[j].set_answer(
                kb,
                copied,
                ctx2.ttl_spec(),
                res,
            ) && m1.stores()[j].set_leaves(kb, copied, ctx2.ttl_spec(), res, |k: Seq<u8>, x: u64| m2.stores()[j].holds_at(k, x)))
                && (res is Err ==> r == res && m2.control() == c1) && (res is Ok ==> r is Ok && retiered(c1, m2.control(), kb, u));
        assert(res is Ok);
        let u0: () = res->Ok_0;
        assert(u0 == ());
        let after = |k: Seq<u8>, x: u64| m2.stores()[j].holds_at(k, x);
        let since = choose|since: u64| #[trigger] holds_since(kb, copied, None, since, after);
        assert(after(kb, 0) == Some(copied));
        assert(m2.control()@[h].tier == u && m2.control()@[h].state is Ready && m2.control()@[h].ttl_nanos == 0);
        let unchanged = m3.control() == m2.control() && m3.stores() == m2.stores() && m3.registry() == m2.registry();
        let d3 = choose|d3: PolicyDecision| #[trigger] decided::<K, V, P>(m2.policy_spec(), CacheOperation::Get, key, ctx3, absent_state(), d3)
            && authorized_then(d3, r3, unchanged, Self::get_then(m2, m3, kb, r3));
        if d3.authorized {
            let (now3, s3) = choose|now3: u64, s3: SnapshotView|
                #[trigger] observed(m2.control(), kb, now3, s3) && Self::read_acquired(m2, m3, kb, m2.control(), s3, r3);
            assert(s3.state is Ready && s3.tier == u && !s3.expired);
            assert(m2.slot_of(u) == j);
            let store = m2.stores()[j];
            let res3 = choose|res3: Result<Option<V>, CacheError>|
                #[trigger] store.get_answer(kb, res3) && r3 == match res3 {
                    Ok(v) => Ok::<ReadStart<V>, CacheError>(ReadStart::Found(v)),
                    Err(e) => Err::<ReadStart<V>, CacheError>(e),
                };
            assert(store.holds_at(kb, 0) == Some(copied));
            let x = choose|x: u64| store.store().get_post(kb, x, res3);
            assert(after(kb, x) == Some(copied));
            assert(store.holds_at(kb, x) == Some(copied));
        }
    }

    /// Demotion carries the value: with the library's test stores, one per
    /// tier, after a successful `set` without a TTL put the key on a tier
    /// above L5 and a successful `demote` without a TTL moved it, a read by
    /// an authenticated caller is refused by the policy or finds a clone of
    /// what demotion copied, itself a clone of the value written.
    pub proof fn lemma_set_demote_then_get(
        m0: Self,
        m1: Self,
        m2: Self,
        m3: Self,
        key: K,
        value: V,
        ctx1: CacheContext,
        ctx2: CacheContext,
        ctx3: CacheContext,
        r3: Result<ReadStart<V>, CacheError>,
    )
        requires
            m0.stores().len() >= TIER_COUNT,
            Self::set_post(m0, m1, key, value, ctx1, Ok(())),
            ctx1.ttl_spec() is None,
            tier_index(m1.control()@[bytes_hash(key.key_bytes())].tier) < 5,
            Self::move_post(m1, m2, key, ctx2, false, Ok(())),
            ctx2.ttl_spec() is None,
            Self::get_post(m2, m3, key, ctx3, r3),
            ctx3.identity_spec().authenticated(),
        ensures
            r3 == Err::<ReadStart<V>, CacheError>(CacheError::Unauthorized) || exists|copied: V|
                cloned::<V>(value, copied) && (r3 matches Ok(ReadStart::Found(Some(v))) && cloned::<V>(copied, v)),
    {
        let kb = key.key_bytes();
        let h = bytes_hash(kb);
        let r = Ok::<(), CacheError>(());
        let t = Self::lemma_set_ok_wrote(m0, m1, key, value, ctx1);
        Self::lemma_written_store_holds(m0, m1, kb, value, t);
        assert(kb.len() <= MAX_KEY_SIZE);
        assert(!acquire_refused(m1.control(), m2.control(), kb));
        let (now, s, c1) = choose|now: u64, s: SnapshotView, c1: Cachelito|
            #[trigger] acquired(m1.control(), c1, kb, TierId::L0, now, s) && Self::moved(m1, m2, kb, c1, s, move_dest(false, s), ctx2.ttl_spec(), r);
        assert(s.state is Ready && s.tier == t);
        let u = tier_at(tier_index(t) + 1int)->0;
        assert(move_dest(false, s) == Ok::<Option<TierId>, CacheError>(Some(u)));
        let i = slot_for(m1.stores().len(), t);
        let j = slot_for(m1.stores().len(), u);
        assert(i != j);
        let got = choose|got: Result<Option<V>, CacheError>|
            #[trigger] m1.stores()[i].get_answer(kb, got) && match got {
                Ok(Some(v)) => stores_except2(m1.stores(), m2.stores(), i, j) && exists|res: Result<(), CacheError>|
                    #[trigger] outcome_recorded(m1.registry(), m2.registry(), u, res) && (i != j ==> m1.stores()[j].set_answer(
                        kb,
                        v,
                        ctx2.ttl_spec(),
                        res,
                    ) && m1.stores()[j].set_leaves(kb, v, ctx2.ttl_spec(), res, |k: Seq<u8>, x: u64| m2.stores()[j].holds_at(k, x)))
                        && (res is Err ==> r == res && m2.control() == c1) && (res is Ok ==> r is Ok && retiered(
                        c1,
                        m2.control(),
                        kb,
                        u,
                    )),
                _ => r == Err::<(), CacheError>(
                    match got {
                        Err(e) => e,
                        _ => CacheError::Miss,
                    },
                ) && m2.control() == c1 && m2.registry() == m1.registry() && stores_except(m1.stores(), m2.stores(), i),
            };
        let src = m1.stores()[i];
        let x0 = choose|x0: u64| src.store().get_post(kb, x0, got);
        assert(src.holds_at(kb, x0) == Some(value));
        let copied = got->Ok_0->Some_0;
        assert(cloned::<V>(value, copied));
        let res = choose|res: Result<(), CacheError>|
            #[trigger] outcome_recorded(m1.registry(), m2.registry(), u, res) && (i != j ==> m1.stores()[j].set_answer(
                kb,
                copied,
                ctx2.ttl_spec(),
                res,
            ) && m1.stores()[j].set_leaves(kb, copied, ctx2.ttl_spec(), res, |k: Seq<u8>, x: u64| m2.stores()[j].holds_at(k, x)))
                && (res is Err ==> r == res && m2.control() == c1) && (res is Ok ==> r is Ok && retiered(c1, m2.control(), kb, u));
        assert(res is Ok);
        let u0: () = res->Ok_0;
        assert(u0 == ());
        let after = |k: Seq<u8>, x: u64| m2.stores()[j].holds_at(k, x);
        let since = choose|since: u64| #[trigger] holds_since(kb, copied, None, since, after);
        assert(after(kb, 0) == Some(copied));
        assert(m2.control()@[h].tier == u && m2.control()@[h].state is Ready && m2.control()@[h].ttl_nanos == 0);
        let unchanged = m3.control() == m2.control() && m3.stores() == m2.stores() && m3.registry() == m2.registry();
        let d3 = choose|d3: PolicyDecision| #[trigger] decided::<K, V, P>(m2.policy_spec(), CacheOperation::Get, key, ctx3, absent_state(), d3)
            && authorized_then(d3, r3, unchanged, Self::get_then(m2, m3, kb, r3));
        if d3.authorized {
            let (now3, s3) = choose|now3: u64, s3: SnapshotView|
                #[trigger] observed(m2.control(), kb, now3, s3) && Self::read_acquired(m2, m3, kb, m2.control(), s3, r3);
            assert(s3.state is Ready && s3.tier == u && !s3.expired);
            assert(m2.slot_of(u) == j);
            let store = m2.stores()[j];
            let res3 = choose|res3: Result<Option<V>, CacheError>|
                #[trigger] store.get_answer(kb, res3) && r3 == match res3 {
                    Ok(v) => Ok::<ReadStart<V>, CacheError>(ReadStart::Found(v)),
                    Err(e) => Err::<ReadStart<V>, CacheError>(e),
                };
            assert(store.holds_at(kb, 0) == Some(copied));
            let x = choose|x: u64| store.store().get_post(kb, x, res3);
            assert(after(kb, x) == Some(copied));
            assert(store.holds_at(kb, x) == Some(copied));
        }
    }

    /// A key exists once written: with the library's test stores, a
    /// successful `set` followed by `key_exists` of the key by an
    /// authenticated caller is refused by the policy or answers `true`.
    pub proof fn lemma_set_then_exists(
        m0: Self,
        m1: Self,
        m2: Self,
        key: K,
        value: V,
        ctx1: CacheContext,
        ctx2: CacheContext,
        r2: Result<bool, CacheError>,
    )
        requires
            Self::set_post(m0, m1, key, value, ctx1, Ok(())),
            ctx1.ttl_spec() is None,
            Self::key_exists_post(m1, m2, key, ctx2, r2),
            ctx2.identity_spec().authenticated(),
        ensures
            r2 == Err::<bool, CacheError>(CacheError::Unauthorized) || r2 == Ok::<bool, CacheError>(true),
    {
        let kb = key.key_bytes();
        let h = bytes_hash(kb);
        let r1 = Ok::<(), CacheError>(());
        assert(ctx1.identity_spec().authenticated());
        assert(kb.len() <= MAX_KEY_SIZE);
        let unchanged1 = m1.control() == m0.control() && m1.stores() == m0.stores() && m1.registry() == m0.registry();
        let (now0, o, d) = choose|now0: u64, o: SnapshotView, d: PolicyDecision|
            previewed(m0.control(), kb, TierId::L0, now0, o) && decided::<K, V, P>(
                m0.policy_spec(),
                CacheOperation::Put,
                key,
                ctx1,
                snapshot_state(o, m0.registry().health_of(o.tier)),
                d,
            ) && authorized_then(d, r1, unchanged1, Self::set_then(m0, m1, kb, value, ctx1, d, r1));
        let (now, s, c1) = choose|now: u64, s: SnapshotView, c1: Cachelito|
            #[trigger] acquired(m0.control(), c1, kb, TierId::L0, now, s) && Self::set_written(m0, m1, kb, value, ctx1, c1, s, d, r1);
        let res = choose|res: Result<(), CacheError>|
            #[trigger] outcome_recorded(m0.registry(), m1.registry(), d.tier, res) && m0.stores()[m0.slot_of(
                d.tier,
            )].set_answer(kb, value, ctx1.ttl_spec(), res) && m0.stores()[m0.slot_of(d.tier)].set_leaves(
                kb,
                value,
                ctx1.ttl_spec(),
                res,
                |k: Seq<u8>, t: u64| m1.stores()[m0.slot_of(d.tier)].holds_at(k, t),
            ) && (res is Err ==> r1 == res && m1.control() == c1) && (res is Ok ==> r1 is Ok && exists|now2: u64|
                #[trigger] written(c1, m1.control(), kb, (s.generation + 1) as u64, d.tier, ctx1.ttl_spec(), now2));
        assert(res is Ok);
        let u: () = res->Ok_0;
        assert(u == ());
        let now2 = choose|now2: u64| #[trigger] written(c1, m1.control(), kb, (s.generation + 1) as u64, d.tier, ctx1.ttl_spec(), now2);
        let t = d.tier;
        assert(Self::set_wrote(m0, m1, kb, value, ctx1.ttl_spec(), t));
        Self::lemma_written_store_holds(m0, m1, kb, value, t);
        let unchanged = m2.control() == m1.control() && m2.stores() == m1.stores();
        let d2 = choose|d2: PolicyDecision| #[trigger] decided::<K, V, P>(m1.policy_spec(), CacheOperation::Exists, key, ctx2, absent_state(), d2)
            && gate_then(d2, kb, r2, unchanged, Self::key_exists_then(m1, m2, kb, r2));
        if d2.authorized {
            let (now3, s3) = choose|now3: u64, s3: SnapshotView|
                #[trigger] observed(m1.control(), kb, now3, s3) && m2.control() == m1.control() && (!(s3.state is Ready)
                    ==> (r2 matches Ok(false)) && m2.stores() == m1.stores()) && (s3.state is Ready ==> stores_except(
                    m1.stores(),
                    m2.stores(),
                    m1.slot_of(s3.tier),
                ) && m1.stores()[m1.slot_of(s3.tier)].contains_answer(kb, r2));
            assert(s3.state is Ready && s3.tier == t);
            let store = m1.stores()[m1.slot_of(t)];
            let x = choose|x: u64| r2 == Ok::<bool, CacheError>(lookup_index(store.store().slots_view(), h, x) is Some);
            assert(store.holds_at(kb, x) == Some(value));
        }
    }
}

} // verus!
