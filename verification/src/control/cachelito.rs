//! Cachelito, the control plane: per-key entry state, generation, tier, TTL
//! and population ownership. It never stores payloads.
//!
//! Keys are tracked by the 64-bit hash of their encoded bytes, in a fixed
//! number of shards; each shard is a pre-allocated table of slots searched by
//! linear probing. Slots are filled once and never freed, so the capacity is
//! fixed after construction.
use std::sync::Arc;
use tokio::sync::Notify;
use vstd::prelude::*;

use crate::control::probe::{home, lemma_home_bounds, lemma_offset_probe, lemma_probe_covers, lemma_probe_step, offset, probe};
use crate::entry::{EntryState, Generation};
use crate::error::CacheError;
use crate::key::{bytes_hash, hash_bytes};
use crate::tier::{TierHealth, TierId};
use crate::time::{duration_as_nanos, duration_from_nanos, duration_nanos, instant_now, nanos_since, saturate_u64};

verus! {

pub const DEFAULT_SHARD_COUNT: usize = 16;

pub const DEFAULT_CAPACITY_PER_SHARD: usize = 1024;

#[verifier::external_type_specification]
#[verifier::external_body]
pub struct ExNotify(tokio::sync::Notify);

/// `Notify::new`: a fresh notification point with no waiters.
#[verifier::external_body]
fn new_notify() -> Notify {
    Notify::new()
}

/// `Notify::notify_waiters`: wakes the tasks waiting on `notify`. It returns
/// nothing and changes no state that the library reads.
#[verifier::external_body]
fn wake_waiters(notify: &Notify) {
    notify.notify_waiters()
}

/// `Arc::clone`: another handle to the same notification point.
#[verifier::external_body]
fn share_notify(notify: &Arc<Notify>) -> (r: Arc<Notify>)
    ensures
        r == *notify,
{
    Arc::clone(notify)
}

/// The entry state in the numeric form the control plane exchanges.
#[derive(Debug, Clone, Copy, PartialEq, Eq, Structural)]
pub enum EntryStateAtomic {
    Absent,
    Ready,
    Stale,
    InFlight,
    Failed,
}

/// The numeric code of an entry state.
pub open spec fn state_code(s: EntryStateAtomic) -> u8 {
    match s {
        EntryStateAtomic::Absent => 0,
        EntryStateAtomic::Ready => 1,
        EntryStateAtomic::Stale => 2,
        EntryStateAtomic::InFlight => 3,
        EntryStateAtomic::Failed => 4,
    }
}

/// The entry state a numeric code names, if any.
pub open spec fn state_of_code(v: u8) -> Result<EntryStateAtomic, ()> {
    if v == 0 {
        Ok(EntryStateAtomic::Absent)
    } else if v == 1 {
        Ok(EntryStateAtomic::Ready)
    } else if v == 2 {
        Ok(EntryStateAtomic::Stale)
    } else if v == 3 {
        Ok(EntryStateAtomic::InFlight)
    } else if v == 4 {
        Ok(EntryStateAtomic::Failed)
    } else {
        Err(())
    }
}

pub open spec fn atomic_of_state(s: EntryState) -> EntryStateAtomic {
    match s {
        EntryState::Absent => EntryStateAtomic::Absent,
        EntryState::Ready => EntryStateAtomic::Ready,
        EntryState::Stale => EntryStateAtomic::Stale,
        EntryState::InFlight => EntryStateAtomic::InFlight,
        EntryState::Failed => EntryStateAtomic::Failed,
    }
}

pub open spec fn state_of_atomic(s: EntryStateAtomic) -> EntryState {
    match s {
        EntryStateAtomic::Absent => EntryState::Absent,
        EntryStateAtomic::Ready => EntryState::Ready,
        EntryStateAtomic::Stale => EntryState::Stale,
        EntryStateAtomic::InFlight => EntryState::InFlight,
        EntryStateAtomic::Failed => EntryState::Failed,
    }
}

impl EntryStateAtomic {
    pub fn code(self) -> (c: u8)
        ensures
            c == state_code(self),
    {
        match self {
            EntryStateAtomic::Absent => 0,
            EntryStateAtomic::Ready => 1,
            EntryStateAtomic::Stale => 2,
            EntryStateAtomic::InFlight => 3,
            EntryStateAtomic::Failed => 4,
        }
    }
}

impl TryFrom<u8> for EntryStateAtomic {
    type Error = ();

    fn try_from(value: u8) -> (r: Result<Self, ()>)
        ensures
            r == state_of_code(value),
    {
        match value {
            0 => Ok(EntryStateAtomic::Absent),
            1 => Ok(EntryStateAtomic::Ready),
            2 => Ok(EntryStateAtomic::Stale),
            3 => Ok(EntryStateAtomic::InFlight),
            4 => Ok(EntryStateAtomic::Failed),
            _ => Err(()),
        }
    }
}

impl vstd::std_specs::convert::TryFromSpecImpl<u8> for EntryStateAtomic {
    open spec fn obeys_try_from_spec() -> bool {
        true
    }

    open spec fn try_from_spec(v: u8) -> Result<Self, ()> {
        state_of_code(v)
    }
}

impl From<EntryState> for EntryStateAtomic {
    fn from(s: EntryState) -> (r: Self)
        ensures
            r == atomic_of_state(s),
    {
        match s {
            EntryState::Absent => EntryStateAtomic::Absent,
            EntryState::Ready => EntryStateAtomic::Ready,
            EntryState::Stale => EntryStateAtomic::Stale,
            EntryState::InFlight => EntryStateAtomic::InFlight,
            EntryState::Failed => EntryStateAtomic::Failed,
        }
    }
}

impl vstd::std_specs::convert::FromSpecImpl<EntryState> for EntryStateAtomic {
    open spec fn obeys_from_spec() -> bool {
        true
    }

    open spec fn from_spec(v: EntryState) -> Self {
        atomic_of_state(v)
    }
}

impl From<EntryStateAtomic> for EntryState {
    fn from(s: EntryStateAtomic) -> (r: Self)
        ensures
            r == state_of_atomic(s),
    {
        match s {
            EntryStateAtomic::Absent => EntryState::Absent,
            EntryStateAtomic::Ready => EntryState::Ready,
            EntryStateAtomic::Stale => EntryState::Stale,
            EntryStateAtomic::InFlight => EntryState::InFlight,
            EntryStateAtomic::Failed => EntryState::Failed,
        }
    }
}

impl vstd::std_specs::convert::FromSpecImpl<EntryStateAtomic> for EntryState {
    open spec fn obeys_from_spec() -> bool {
        true
    }

    open spec fn from_spec(v: EntryStateAtomic) -> Self {
        state_of_atomic(v)
    }
}

/// The code under which a terminal population error is recorded: the four
/// errors that waiters are told about keep their identity, every other error
/// is recorded as `PopulationFailed`, and no error is 0.
pub open spec fn error_code(err: Option<CacheError>) -> u8 {
    match err {
        None => 0,
        Some(CacheError::Timeout) => 1,
        Some(CacheError::PopulationFailed) => 2,
        Some(CacheError::TierUnavailable) => 3,
        Some(CacheError::Cancelled) => 4,
        Some(_) => 2,
    }
}

/// The error a recorded code stands for.
pub open spec fn error_of_code(code: u8) -> Option<CacheError> {
    if code == 1 {
        Some(CacheError::Timeout)
    } else if code == 2 {
        Some(CacheError::PopulationFailed)
    } else if code == 3 {
        Some(CacheError::TierUnavailable)
    } else if code == 4 {
        Some(CacheError::Cancelled)
    } else {
        None
    }
}

/// What the control plane knows of one key.
pub struct ControlView {
    pub state: EntryState,
    pub generation: u64,
    pub tier: TierId,
    pub population_owner: bool,
    /// When the entry was last claimed or published, in nanoseconds on the
    /// registry's clock.
    pub population_timestamp: Option<u64>,
    /// Time-to-live in nanoseconds; 0 means none.
    pub ttl_nanos: u64,
    /// Code of the terminal population error (see `error_code`).
    pub last_error: u8,
    pub key_hash: u64,
    /// How many times the entry's waiters have been woken.
    pub wakes: nat,
}

/// The entry after its waiters were woken once more.
pub open spec fn woken(v: ControlView) -> ControlView {
    ControlView { wakes: v.wakes + 1, ..v }
}

/// The state of a key the control plane has just started tracking.
pub open spec fn fresh_view(h: u64) -> ControlView {
    ControlView {
        state: EntryState::Absent,
        generation: 0,
        tier: TierId::L0,
        population_owner: false,
        population_timestamp: None,
        ttl_nanos: 0,
        last_error: 0,
        key_hash: h,
        wakes: 0,
    }
}

/// The generation counter after one increment, wrapping at `u64::MAX` as an
/// atomic increment does.
pub open spec fn next_generation(g: u64) -> u64 {
    if g == u64::MAX {
        0
    } else {
        (g + 1) as u64
    }
}

/// The stored TTL of an optional duration: its nanoseconds truncated to
/// 64 bits, 0 when there is none.
pub open spec fn ttl_nanos_of(ttl: Option<std::time::Duration>) -> u64 {
    match ttl {
        None => 0,
        Some(d) => duration_nanos(d) as u64,
    }
}

/// `t` is how a stored TTL of `n` nanoseconds reads back: none for 0,
/// otherwise a duration of `n` nanoseconds, which is the TTL that was stored
/// whenever that TTL fit in 64 bits.
pub open spec fn ttl_reads(n: u64, t: Option<std::time::Duration>) -> bool {
    &&& t is None <==> n == 0
    &&& t matches Some(d) ==> duration_nanos(d) == n
    &&& forall|u: Option<std::time::Duration>|
        #![trigger ttl_nanos_of(u)]
        (u matches Some(d) ==> 0 < duration_nanos(d) <= u64::MAX) && ttl_nanos_of(u) == n ==> t == u
}

/// A TTL is armed and has elapsed since the entry was populated.
pub open spec fn entry_expired(v: ControlView, now: u64) -> bool {
    &&& v.ttl_nanos != 0
    &&& v.population_timestamp is Some
    &&& (if now >= v.population_timestamp->0 {
        now - v.population_timestamp->0
    } else {
        0
    }) >= v.ttl_nanos
}

/// States from which a caller may claim population ownership.
pub open spec fn claimable(s: EntryState) -> bool {
    s is Absent || s is Failed || s is Stale
}

/// The entry after a caller claims population ownership.
pub open spec fn claim_view(v: ControlView, tier: TierId, now: u64) -> ControlView {
    ControlView {
        state: EntryState::InFlight,
        generation: (v.generation + 1) as u64,
        tier,
        population_owner: true,
        population_timestamp: Some(now),
        last_error: 0,
        ..v
    }
}

/// The entry after an `acquire`: claimed when claimable, unchanged otherwise.
pub open spec fn acquire_view(v: ControlView, tier: TierId, now: u64) -> ControlView {
    if claimable(v.state) {
        claim_view(v, tier, now)
    } else {
        v
    }
}

/// The entry after a successful publication, which wakes its waiters.
pub open spec fn publish_view(v: ControlView, tier: TierId, ttl_nanos: u64, now: u64) -> ControlView {
    ControlView {
        state: EntryState::Ready,
        tier,
        ttl_nanos,
        last_error: 0,
        population_owner: false,
        population_timestamp: Some(now),
        wakes: v.wakes + 1,
        ..v
    }
}

/// The entry after its population failed with the error recorded as `code`;
/// its waiters are woken.
pub open spec fn fail_view(v: ControlView, code: u8) -> ControlView {
    ControlView {
        state: EntryState::Failed,
        last_error: code,
        population_owner: false,
        population_timestamp: None,
        wakes: v.wakes + 1,
        ..v
    }
}

/// The entry after `release` or `invalidate`: a new generation, nothing
/// populated, no TTL and no recorded error; its waiters are woken.
pub open spec fn reset_view(v: ControlView) -> ControlView {
    ControlView {
        generation: next_generation(v.generation),
        state: EntryState::Absent,
        population_owner: false,
        population_timestamp: None,
        ttl_nanos: 0,
        last_error: 0,
        wakes: v.wakes + 1,
        ..v
    }
}

/// What a snapshot reports, without its notification handle.
pub struct SnapshotView {
    pub state: EntryState,
    pub generation: u64,
    pub tier: TierId,
    pub population_owner: bool,
    pub population_timestamp: Option<u64>,
    pub ttl_nanos: u64,
    pub expired: bool,
    pub last_error: Option<CacheError>,
}

/// The snapshot that `acquire` returns for an entry that was `v` before the
/// call: the claimed entry when the caller became owner, the entry as it is
/// (without owner or timestamp) otherwise.
pub open spec fn acquire_snapshot(v: ControlView, tier: TierId, now: u64) -> SnapshotView {
    if claimable(v.state) {
        let c = claim_view(v, tier, now);
        SnapshotView {
            state: EntryState::InFlight,
            generation: c.generation,
            tier,
            population_owner: true,
            population_timestamp: Some(now),
            ttl_nanos: c.ttl_nanos,
            expired: entry_expired(c, now),
            last_error: error_of_code(c.last_error),
        }
    } else {
        observe_snapshot(v, now)
    }
}

/// What a look at an entry that is `v` reports at clock reading `now`,
/// claiming nothing: the entry as it is, without owner or timestamp.
pub open spec fn observe_snapshot(v: ControlView, now: u64) -> SnapshotView {
    SnapshotView {
        state: v.state,
        generation: v.generation,
        tier: v.tier,
        population_owner: false,
        population_timestamp: None,
        ttl_nanos: v.ttl_nanos,
        expired: entry_expired(v, now),
        last_error: error_of_code(v.last_error),
    }
}

/// The control state of one key.
pub struct ControlEntry {
    state: EntryState,
    generation: Generation,
    tier: TierId,
    population_owner: bool,
    population_timestamp: Option<u64>,
    ttl_nanos: u64,
    last_error: u8,
    key_hash: u64,
    notify: Arc<Notify>,
    wakes: Ghost<nat>,
}

impl View for ControlEntry {
    type V = ControlView;

    closed spec fn view(&self) -> ControlView {
        ControlView {
            state: self.state,
            generation: self.generation.0,
            tier: self.tier,
            population_owner: self.population_owner,
            population_timestamp: self.population_timestamp,
            ttl_nanos: self.ttl_nanos,
            last_error: self.last_error,
            key_hash: self.key_hash,
            wakes: self.wakes@,
        }
    }
}

impl ControlEntry {
    /// The notification point waiters of this entry sleep on.
    pub closed spec fn notify_spec(&self) -> Arc<Notify> {
        self.notify
    }

    pub fn new(key_hash: u64) -> (e: Self)
        ensures
            e@ == fresh_view(key_hash),
    {
        ControlEntry {
            state: EntryState::Absent,
            generation: Generation(0),
            tier: TierId::L0,
            population_owner: false,
            population_timestamp: None,
            ttl_nanos: 0,
            last_error: 0,
            key_hash,
            notify: Arc::new(new_notify()),
            wakes: Ghost(0),
        }
    }

    pub fn state(&self) -> (s: EntryState)
        ensures
            s == self@.state,
    {
        self.state
    }

    pub fn set_state(&mut self, new_state: EntryState)
        ensures
            final(self)@ == (ControlView { state: new_state, ..old(self)@ }),
    {
        self.state = new_state;
    }

    pub fn generation(&self) -> (g: Generation)
        ensures
            g.0 == self@.generation,
    {
        self.generation
    }

    pub fn set_generation(&mut self, generation: Generation)
        ensures
            final(self)@ == (ControlView { generation: generation.0, ..old(self)@ }),
    {
        self.generation = generation;
    }

    /// Advances the generation by one (wrapping) and returns the new one.
    pub fn increment_generation(&mut self) -> (g: Generation)
        ensures
            g.0 == next_generation(old(self)@.generation),
            final(self)@ == (ControlView { generation: g.0, ..old(self)@ }),
    {
        let next = self.generation.0.wrapping_add(1);
        self.generation = Generation(next);
        self.generation
    }

    pub fn tier(&self) -> (t: TierId)
        ensures
            t == self@.tier,
    {
        self.tier
    }

    pub fn set_tier(&mut self, tier: TierId)
        ensures
            final(self)@ == (ControlView { tier, ..old(self)@ }),
    {
        self.tier = tier;
    }

    pub fn is_population_owner(&self) -> (b: bool)
        ensures
            b == self@.population_owner,
    {
        self.population_owner
    }

    pub fn set_population_owner(&mut self, owner: bool)
        ensures
            final(self)@ == (ControlView { population_owner: owner, ..old(self)@ }),
    {
        self.population_owner = owner;
    }

    /// When the entry was last claimed or published, in nanoseconds on the
    /// registry's clock.
    pub fn population_timestamp(&self) -> (t: Option<u64>)
        ensures
            t == self@.population_timestamp,
    {
        self.population_timestamp
    }

    pub fn set_population_timestamp(&mut self, ts: Option<u64>)
        ensures
            final(self)@ == (ControlView { population_timestamp: ts, ..old(self)@ }),
    {
        self.population_timestamp = ts;
    }

    /// Wakes every caller waiting on this entry, counting the wake.
    pub fn notify(&mut self)
        ensures
            final(self)@ == woken(old(self)@),
            final(self).notify_spec() == old(self).notify_spec(),
    {
        wake_waiters(&*self.notify);
        proof {
            self.wakes@ = self.wakes@ + 1;
        }
    }

    /// A handle on which callers wait for this entry to change.
    pub fn notify_clone(&self) -> (n: Arc<Notify>)
        ensures
            n == self.notify_spec(),
    {
        share_notify(&self.notify)
    }

    pub fn key_hash(&self) -> (h: u64)
        ensures
            h == self@.key_hash,
    {
        self.key_hash
    }

    /// Arms (or, with `None` or a zero duration, clears) the entry's TTL.
    pub fn set_ttl(&mut self, ttl: Option<std::time::Duration>)
        ensures
            final(self)@ == (ControlView { ttl_nanos: ttl_nanos_of(ttl), ..old(self)@ }),
    {
        self.ttl_nanos = match ttl {
            None => 0,
            Some(d) => {
                let n = duration_as_nanos(d);
                #[verifier::truncate]
                (n as u64)
            },
        };
    }

    /// The armed TTL, if any: the one `set_ttl` stored, when it fit in 64
    /// bits (see `ttl_reads`).
    pub fn ttl(&self) -> (t: Option<std::time::Duration>)
        ensures
            ttl_reads(self@.ttl_nanos, t),
    {
        if self.ttl_nanos == 0 {
            proof {
                assert forall|u: Option<std::time::Duration>|
                    (u matches Some(d) ==> 0 < duration_nanos(d) <= u64::MAX) && #[trigger] ttl_nanos_of(u) == self@.ttl_nanos
                    implies None::<std::time::Duration> == u by {
                    if let Some(d) = u {
                        assert(duration_nanos(d) as u64 == duration_nanos(d));
                    }
                }
            }
            None
        } else {
            let d = duration_from_nanos(self.ttl_nanos);
            proof {
                assert forall|u: Option<std::time::Duration>|
                    (u matches Some(e) ==> 0 < duration_nanos(e) <= u64::MAX) && #[trigger] ttl_nanos_of(u) == self@.ttl_nanos
                    implies Some(d) == u by {
                    if let Some(e) = u {
                        assert(duration_nanos(e) as u64 == duration_nanos(e));
                        assert(duration_nanos(e) == self@.ttl_nanos);
                    }
                }
            }
            Some(d)
        }
    }

    /// True when a TTL is armed and has elapsed at clock reading `now` since
    /// the entry was populated.
    pub fn is_expired(&self, now: u64) -> (b: bool)
        ensures
            b == entry_expired(self@, now),
    {
        if self.ttl_nanos == 0 {
            return false;
        }
        match self.population_timestamp {
            None => false,
            Some(populated_at) => {
                let elapsed = if now >= populated_at {
                    now - populated_at
                } else {
                    0
                };
                elapsed >= self.ttl_nanos
            },
        }
    }

    /// Records the terminal population error; `None` clears it.
    pub fn set_last_error(&mut self, err: Option<CacheError>)
        ensures
            final(self)@ == (ControlView { last_error: error_code(err), ..old(self)@ }),
    {
        self.last_error = Self::encode_error(err);
    }

    /// The terminal population error that was recorded, if any.
    pub fn last_error(&self) -> (e: Option<CacheError>)
        ensures
            e == error_of_code(self@.last_error),
    {
        Self::decode_error(self.last_error)
    }

    fn encode_error(err: Option<CacheError>) -> (c: u8)
        ensures
            c == error_code(err),
    {
        match err {
            None => 0,
            Some(CacheError::Timeout) => 1,
            Some(CacheError::PopulationFailed) => 2,
            Some(CacheError::TierUnavailable) => 3,
            Some(CacheError::Cancelled) => 4,
            Some(_) => 2,
        }
    }

    fn decode_error(code: u8) -> (e: Option<CacheError>)
        ensures
            e == error_of_code(code),
    {
        match code {
            1 => Some(CacheError::Timeout),
            2 => Some(CacheError::PopulationFailed),
            3 => Some(CacheError::TierUnavailable),
            4 => Some(CacheError::Cancelled),
            _ => None,
        }
    }
}

/// What `acquire` observed and decided for one key.
#[derive(Debug, Clone)]
pub struct ControlSnapshot {
    pub state: EntryState,
    pub generation: Generation,
    pub tier: TierId,
    pub population_owner: bool,
    /// Set only when this caller just became the population owner.
    pub population_timestamp: Option<u64>,
    /// Time-to-live armed on this entry, if any.
    pub ttl: Option<std::time::Duration>,
    /// True when the entry's TTL has elapsed since it was populated.
    pub expired: bool,
    /// Terminal population error recorded by `fail`, if any.
    pub last_error: Option<CacheError>,
    pub notify: Arc<Notify>,
}

impl ControlSnapshot {
    /// The snapshot without its notification handle.
    pub open spec fn summary(&self) -> SnapshotView {
        SnapshotView {
            state: self.state,
            generation: self.generation.0,
            tier: self.tier,
            population_owner: self.population_owner,
            population_timestamp: self.population_timestamp,
            ttl_nanos: ttl_nanos_of(self.ttl),
            expired: self.expired,
            last_error: self.last_error,
        }
    }
}

// ---------------------------------------------------------------------------
// Slot tables

pub open spec fn occupied(s: Seq<Option<ControlEntry>>, i: int) -> bool {
    s[i] is Some
}

pub open spec fn hash_at(s: Seq<Option<ControlEntry>>, i: int) -> u64 {
    s[i]->Some_0@.key_hash
}

/// Every occupied slot is reachable from its home slot over occupied slots,
/// and no hash occupies two slots.
pub open spec fn slots_wf(s: Seq<Option<ControlEntry>>) -> bool {
    &&& s.len() > 0
    &&& forall|j: int, e: int|
        #![trigger occupied(s, j), occupied(s, probe(home(hash_at(s, j), s.len() as int), e, s.len() as int))]
        0 <= j < s.len() && occupied(s, j) && 0 <= e < offset(
            home(hash_at(s, j), s.len() as int),
            j,
            s.len() as int,
        ) ==> occupied(s, probe(home(hash_at(s, j), s.len() as int), e, s.len() as int))
    &&& forall|i: int, j: int|
        #![trigger occupied(s, i), occupied(s, j)]
        0 <= i < s.len() && 0 <= j < s.len() && occupied(s, i) && occupied(s, j) && hash_at(s, i)
            == hash_at(s, j) ==> i == j
}

pub open spec fn holds(s: Seq<Option<ControlEntry>>, i: int, h: u64) -> bool {
    0 <= i < s.len() && occupied(s, i) && hash_at(s, i) == h
}

pub open spec fn has_hash(s: Seq<Option<ControlEntry>>, h: u64) -> bool {
    exists|i: int| #[trigger] holds(s, i, h)
}

pub open spec fn has_free(s: Seq<Option<ControlEntry>>) -> bool {
    exists|i: int| 0 <= i < s.len() && !#[trigger] occupied(s, i)
}

/// The view of the entry a table holds for hash `h`.
pub open spec fn lookup(s: Seq<Option<ControlEntry>>, h: u64) -> Option<ControlView> {
    if has_hash(s, h) {
        Some(s[choose|i: int| holds(s, i, h)]->Some_0@)
    } else {
        None
    }
}

proof fn lemma_lookup_at(s: Seq<Option<ControlEntry>>, i: int, h: u64)
    requires
        slots_wf(s),
        holds(s, i, h),
    ensures
        lookup(s, h) == Some(s[i]->Some_0@),
{
    assert(has_hash(s, h));
    let k = choose|k: int| holds(s, k, h);
    assert(occupied(s, k) && occupied(s, i));
}

/// Replacing the entry in slot `i` by one with the same hash changes the
/// table only at that hash.
proof fn lemma_replace(old: Seq<Option<ControlEntry>>, new: Seq<Option<ControlEntry>>, i: int, h: u64, e: ControlEntry)
    requires
        slots_wf(old),
        holds(old, i, h),
        e@.key_hash == h,
        new == old.update(i, Some(e)),
    ensures
        slots_wf(new),
        lookup(new, h) == Some(e@),
        forall|h2: u64| h2 != h ==> lookup(new, h2) == lookup(old, h2),
        has_free(new) == has_free(old),
{
    assert forall|k: int| 0 <= k < old.len() implies occupied(new, k) == occupied(old, k) && (occupied(
        old,
        k,
    ) ==> hash_at(new, k) == hash_at(old, k)) by {}
    assert(slots_wf(new));
    assert(holds(new, i, h));
    lemma_lookup_at(new, i, h);
    assert forall|h2: u64| h2 != h implies lookup(new, h2) == lookup(old, h2) by {
        if has_hash(old, h2) {
            let k = choose|k: int| holds(old, k, h2);
            assert(holds(new, k, h2));
            lemma_lookup_at(old, k, h2);
            lemma_lookup_at(new, k, h2);
        } else {
            assert forall|k: int| !holds(new, k, h2) by {
                if holds(new, k, h2) {
                    assert(holds(old, k, h2));
                }
            }
        }
    }
    if has_free(old) {
        let k = choose|k: int| 0 <= k < old.len() && !occupied(old, k);
        assert(!occupied(new, k));
    }
    if has_free(new) {
        let k = choose|k: int| 0 <= k < new.len() && !occupied(new, k);
        assert(!occupied(old, k));
    }
}

/// Filling the first free slot on the probe path of an absent hash keeps the
/// table well formed and adds exactly that hash.
proof fn lemma_insert(old: Seq<Option<ControlEntry>>, new: Seq<Option<ControlEntry>>, i: int, h: u64, e: ControlEntry)
    requires
        slots_wf(old),
        !has_hash(old, h),
        0 <= i < old.len(),
        !occupied(old, i),
        forall|d: int|
            0 <= d < offset(home(h, old.len() as int), i, old.len() as int) ==> #[trigger] occupied(
                old,
                probe(home(h, old.len() as int), d, old.len() as int),
            ),
        e@.key_hash == h,
        new == old.update(i, Some(e)),
    ensures
        slots_wf(new),
        lookup(new, h) == Some(e@),
        forall|h2: u64| h2 != h ==> lookup(new, h2) == lookup(old, h2),
{
    let len = old.len() as int;
    lemma_home_bounds(h, len);
    assert forall|j: int, d: int|
        0 <= j < len && occupied(new, j) && 0 <= d < offset(home(hash_at(new, j), len), j, len) implies occupied(
        new,
        probe(home(hash_at(new, j), len), d, len),
    ) by {
        lemma_home_bounds(hash_at(new, j), len);
        if j != i {
            assert(occupied(old, j));
            assert(occupied(old, probe(home(hash_at(old, j), len), d, len)));
        } else {
            assert(occupied(old, probe(home(h, len), d, len)));
        }
    }
    assert forall|a: int, b: int|
        0 <= a < len && 0 <= b < len && occupied(new, a) && occupied(new, b) && hash_at(new, a)
            == hash_at(new, b) implies a == b by {
        if a != i && b != i {
            assert(occupied(old, a) && occupied(old, b));
        } else if a == i && b != i {
            assert(holds(old, b, h));
        } else if a != i && b == i {
            assert(holds(old, a, h));
        }
    }
    assert(slots_wf(new));
    assert(holds(new, i, h));
    lemma_lookup_at(new, i, h);
    assert forall|h2: u64| h2 != h implies lookup(new, h2) == lookup(old, h2) by {
        if has_hash(old, h2) {
            let k = choose|k: int| holds(old, k, h2);
            assert(k != i);
            assert(holds(new, k, h2));
            lemma_lookup_at(old, k, h2);
            lemma_lookup_at(new, k, h2);
        } else {
            assert forall|k: int| !holds(new, k, h2) by {
                if holds(new, k, h2) {
                    assert(holds(old, k, h2));
                }
            }
        }
    }
}

/// One shard of the control plane: a fixed table of slots.
struct Shard {
    entries: Vec<Option<ControlEntry>>,
}

impl Shard {
    fn new(capacity: usize) -> (s: Self)
        requires
            capacity > 0,
        ensures
            s.entries@.len() == capacity,
            slots_wf(s.entries@),
            forall|h: u64| lookup(s.entries@, h) is None,
            has_free(s.entries@),
    {
        let mut entries: Vec<Option<ControlEntry>> = Vec::with_capacity(capacity);
        let mut i: usize = 0;
        while i < capacity
            invariant
                i <= capacity,
                entries@.len() == i,
                forall|k: int| 0 <= k < i ==> !#[trigger] occupied(entries@, k),
            decreases capacity - i,
        {
            let ghost prev = entries@;
            entries.push(None);
            proof {
                assert forall|k: int| 0 <= k < i + 1 implies !#[trigger] occupied(entries@, k) by {
                    if k < i {
                        assert(entries@[k] == prev[k]);
                        assert(!occupied(prev, k));
                    }
                }
            }
            i = i + 1;
        }
        assert(!occupied(entries@, 0));
        assert forall|h: u64| lookup(entries@, h) is None by {
            assert forall|k: int| !holds(entries@, k, h) by {}
        }
        Shard { entries }
    }

    /// The slot that holds `key_hash`, if any.
    fn find_slot(&self, key_hash: u64) -> (r: Option<usize>)
        requires
            slots_wf(self.entries@),
        ensures
            match r {
                Some(i) => holds(self.entries@, i as int, key_hash),
                None => !has_hash(self.entries@, key_hash),
            },
    {
        let len = self.entries.len();
        if len == 0 {
            return None;
        }
        let ghost s = self.entries@;
        let ghost start = home(key_hash, len as int);
        let mut idx = (key_hash as usize) % len;
        let mut attempts: usize = 0;
        while attempts < len
            invariant
                s == self.entries@,
                len == s.len(),
                slots_wf(s),
                start == home(key_hash, len as int),
                0 <= start < len,
                attempts <= len,
                attempts < len ==> idx == probe(start, attempts as int, len as int),
                forall|d: int|
                    0 <= d < attempts ==> occupied(s, #[trigger] probe(start, d, len as int))
                        && hash_at(s, probe(start, d, len as int)) != key_hash,
            decreases len - attempts,
        {
            match &self.entries[idx] {
                Some(entry) => {
                    if entry.key_hash == key_hash {
                        return Some(idx);
                    }
                    if attempts + 1 < len {
                        proof {
                            lemma_probe_step(start, attempts as int, len as int, idx as int);
                        }
                    }
                    idx = (idx + 1) % len;
                    attempts = attempts + 1;
                },
                None => {
                    proof {
                        self.lemma_stop_at_free(key_hash, attempts as int);
                    }
                    return None;
                },
            }
        }
        proof {
            self.lemma_stop_at_free(key_hash, len as int);
        }
        None
    }

    /// A probe for `key_hash` that saw only other hashes for `attempts` steps
    /// and then a free slot (or ran through the whole table) proves the hash
    /// absent.
    proof fn lemma_stop_at_free(&self, key_hash: u64, attempts: int)
        requires
            slots_wf(self.entries@),
            0 <= attempts <= self.entries@.len(),
            attempts < self.entries@.len() ==> !occupied(
                self.entries@,
                probe(home(key_hash, self.entries@.len() as int), attempts, self.entries@.len() as int),
            ),
            forall|d: int|
                0 <= d < attempts ==> occupied(
                    self.entries@,
                    #[trigger] probe(home(key_hash, self.entries@.len() as int), d, self.entries@.len() as int),
                ) && hash_at(
                    self.entries@,
                    probe(home(key_hash, self.entries@.len() as int), d, self.entries@.len() as int),
                ) != key_hash,
        ensures
            !has_hash(self.entries@, key_hash),
    {
        let s = self.entries@;
        let len = s.len() as int;
        let start = home(key_hash, len);
        lemma_home_bounds(key_hash, len);
        if has_hash(s, key_hash) {
            let j = choose|j: int| holds(s, j, key_hash);
            lemma_offset_probe(start, j, len);
            let d = offset(start, j, len);
            assert(occupied(s, j));
            if d < attempts {
                assert(hash_at(s, probe(start, d, len)) != key_hash);
            } else if d == attempts {
            } else {
                assert(occupied(s, probe(home(hash_at(s, j), len), attempts, len)));
            }
        }
    }

    /// The first free slot on the probe path of an absent `key_hash`.
    fn find_empty(&self, key_hash: u64) -> (r: Option<usize>)
        requires
            slots_wf(self.entries@),
            !has_hash(self.entries@, key_hash),
        ensures
            match r {
                Some(i) => {
                    &&& 0 <= i < self.entries@.len()
                    &&& !occupied(self.entries@, i as int)
                    &&& forall|d: int|
                        0 <= d < offset(home(key_hash, self.entries@.len() as int), i as int, self.entries@.len() as int)
                            ==> #[trigger] occupied(
                            self.entries@,
                            probe(home(key_hash, self.entries@.len() as int), d, self.entries@.len() as int),
                        )
                },
                None => !has_free(self.entries@),
            },
    {
        let len = self.entries.len();
        if len == 0 {
            return None;
        }
        let ghost s = self.entries@;
        let ghost start = home(key_hash, len as int);
        let mut idx = (key_hash as usize) % len;
        let mut attempts: usize = 0;
        while attempts < len
            invariant
                s == self.entries@,
                len == s.len(),
                slots_wf(s),
                !has_hash(s, key_hash),
                start == home(key_hash, len as int),
                0 <= start < len,
                attempts <= len,
                attempts < len ==> idx == probe(start, attempts as int, len as int),
                forall|d: int| 0 <= d < attempts ==> occupied(s, #[trigger] probe(start, d, len as int)),
            decreases len - attempts,
        {
            match &self.entries[idx] {
                None => {
                    proof {
                        lemma_offset_probe(start, idx as int, len as int);
                    }
                    return Some(idx);
                },
                Some(entry) => {
                    if entry.key_hash == key_hash {
                        proof {
                            assert(holds(s, idx as int, key_hash));
                        }
                        return Some(idx);
                    }
                    if attempts + 1 < len {
                        proof {
                            lemma_probe_step(start, attempts as int, len as int, idx as int);
                        }
                    }
                    idx = (idx + 1) % len;
                    attempts = attempts + 1;
                },
            }
        }
        proof {
            assert forall|k: int| 0 <= k < len implies occupied(s, k) by {
                lemma_probe_covers(start, len as int, k);
                let d = choose|d: int| 0 <= d < len && #[trigger] probe(start, d, len as int) == k;
                assert(occupied(s, probe(start, d, len as int)));
            }
        }
        None
    }

    /// The slot of `key_hash`, creating a fresh entry on its probe path when
    /// the hash is not tracked yet; refuses when the shard is full.
    fn find_or_create_entry(&mut self, key_hash: u64) -> (r: Result<usize, CacheError>)
        requires
            slots_wf(old(self).entries@),
        ensures
            slots_wf(final(self).entries@),
            final(self).entries@.len() == old(self).entries@.len(),
            match r {
                Ok(i) => {
                    &&& holds(final(self).entries@, i as int, key_hash)
                    &&& has_hash(old(self).entries@, key_hash) || has_free(old(self).entries@)
                    &&& lookup(final(self).entries@, key_hash) == Some(
                        match lookup(old(self).entries@, key_hash) {
                            Some(v) => v,
                            None => fresh_view(key_hash),
                        },
                    )
                    &&& forall|h2: u64|
                        h2 != key_hash ==> lookup(final(self).entries@, h2) == lookup(old(self).entries@, h2)
                },
                Err(e) => {
                    &&& e == CacheError::ConfigurationError
                    &&& !has_hash(old(self).entries@, key_hash)
                    &&& !has_free(old(self).entries@)
                    &&& final(self).entries@ == old(self).entries@
                },
            },
    {
        if let Some(idx) = self.find_slot(key_hash) {
            proof {
                lemma_lookup_at(self.entries@, idx as int, key_hash);
            }
            return Ok(idx);
        }
        if let Some(idx) = self.find_empty(key_hash) {
            let ghost old_s = self.entries@;
            let e = ControlEntry::new(key_hash);
            self.entries.set(idx, Some(e));
            proof {
                lemma_insert(old_s, self.entries@, idx as int, key_hash, e);
                assert(holds(self.entries@, idx as int, key_hash));
                assert(!occupied(old_s, idx as int));
            }
            return Ok(idx);
        }
        Err(CacheError::ConfigurationError)
    }

    /// The slot of `key_hash` if it is tracked.
    fn find_entry(&self, key_hash: u64) -> (r: Option<usize>)
        requires
            slots_wf(self.entries@),
        ensures
            match r {
                Some(i) => holds(self.entries@, i as int, key_hash) && lookup(self.entries@, key_hash) == Some(
                    self.entries@[i as int]->Some_0@,
                ),
                None => lookup(self.entries@, key_hash) is None,
            },
    {
        let r = self.find_slot(key_hash);
        proof {
            if let Some(i) = r {
                lemma_lookup_at(self.entries@, i as int, key_hash);
            }
        }
        r
    }

    /// Takes the entry out of slot `i`, leaving the slot free.
    fn take_entry(&mut self, i: usize) -> (e: ControlEntry)
        requires
            0 <= i < old(self).entries@.len(),
            occupied(old(self).entries@, i as int),
        ensures
            e == old(self).entries@[i as int]->Some_0,
            final(self).entries@ == old(self).entries@.update(i as int, None),
    {
        let mut slot: Option<ControlEntry> = None;
        self.entries.set_and_swap(i, &mut slot);
        match slot {
            Some(e) => e,
            None => {
                proof {
                    assert(false);
                }
                ControlEntry::new(0)
            },
        }
    }

    /// Puts `e` back into slot `i`, which `take_entry` emptied and which held
    /// the same hash before: the table changes only at that hash.
    fn put_entry(&mut self, i: usize, e: ControlEntry, Ghost(before): Ghost<Seq<Option<ControlEntry>>>)
        requires
            slots_wf(before),
            holds(before, i as int, e@.key_hash),
            old(self).entries@ == before.update(i as int, None),
        ensures
            final(self).entries@ == before.update(i as int, Some(e)),
            slots_wf(final(self).entries@),
            lookup(final(self).entries@, e@.key_hash) == Some(e@),
            forall|h2: u64| h2 != e@.key_hash ==> lookup(final(self).entries@, h2) == lookup(before, h2),
            has_free(final(self).entries@) == has_free(before),
    {
        let ghost h = e@.key_hash;
        self.entries.set(i, Some(e));
        proof {
            assert(self.entries@ =~= before.update(i as int, Some(e)));
            lemma_replace(before, self.entries@, i as int, h, e);
        }
    }
}

// ---------------------------------------------------------------------------
// The registry

/// One field of an entry written by an upsert.
#[derive(Clone, Copy)]
enum ControlField {
    Generation(Generation),
    Tier(TierId),
    State(EntryState),
}

/// The control plane: a fixed set of shards, each a fixed table of slots.
pub struct Cachelito {
    shards: Vec<Shard>,
    shard_count: usize,
    capacity_per_shard: usize,
    anchor: std::time::Instant,
    /// The latest clock reading a changing operation has taken.
    clock: u64,
}

impl Cachelito {
    /// The shard that tracks hash `h`.
    closed spec fn shard_index(&self, h: u64) -> int {
        ((h as usize) as int) % (self.shard_count as int)
    }

    closed spec fn slots_of(&self, h: u64) -> Seq<Option<ControlEntry>> {
        self.shards@[self.shard_index(h)].entries@
    }

    /// The registry's shape holds: `shard_count` shards, each a well-formed
    /// table of the same positive capacity.
    pub closed spec fn wf(&self) -> bool {
        &&& self.shard_count >= 1
        &&& self.shards@.len() == self.shard_count
        &&& self.capacity_per_shard >= 1
        &&& forall|s: int|
            0 <= s < self.shards@.len() ==> {
                &&& #[trigger] self.shards@[s].entries@.len() == self.capacity_per_shard
                &&& slots_wf(self.shards@[s].entries@)
            }
    }

    /// What the registry knows of each tracked key hash.
    pub closed spec fn view(&self) -> Map<u64, ControlView> {
        Map::new(
            |h: u64| lookup(self.slots_of(h), h) is Some,
            |h: u64| lookup(self.slots_of(h), h)->Some_0,
        )
    }

    /// The shard that would track `h` still has a free slot.
    pub closed spec fn has_room(&self, h: u64) -> bool {
        has_free(self.slots_of(h))
    }

    /// The number of shards.
    pub closed spec fn shards_spec(&self) -> nat {
        self.shard_count as nat
    }

    /// The slots each shard holds.
    pub closed spec fn capacity_spec(&self) -> nat {
        self.capacity_per_shard as nat
    }

    proof fn lemma_shard_index_bounds(&self, h: u64)
        requires
            self.wf(),
        ensures
            0 <= self.shard_index(h) < self.shards@.len(),
    {
    }

    /// Replacing the shard of `h` by a table that differs from the old one only
    /// at `h` changes the view only at `h`.
    proof fn lemma_view_after(old: Cachelito, new: Cachelito, h: u64)
        requires
            old.wf(),
            new.shard_count == old.shard_count,
            new.capacity_per_shard == old.capacity_per_shard,
            new.shards@.len() == old.shards@.len(),
            forall|s: int| 0 <= s < old.shards@.len() && s != old.shard_index(h) ==> #[trigger] new.shards@[s] == old.shards@[s],
            new.slots_of(h).len() == old.capacity_per_shard,
            slots_wf(new.slots_of(h)),
            forall|h2: u64| h2 != h ==> lookup(new.slots_of(h), h2) == lookup(old.slots_of(h), h2),
        ensures
            new.wf(),
            forall|h2: u64| h2 != h ==> (#[trigger] new@.contains_key(h2)) == old@.contains_key(h2),
            forall|h2: u64| h2 != h && old@.contains_key(h2) ==> #[trigger] new@[h2] == old@[h2],
            new@.contains_key(h) == (lookup(new.slots_of(h), h) is Some),
            new@.contains_key(h) ==> new@[h] == lookup(new.slots_of(h), h)->Some_0,
            forall|h2: u64| h2 != h ==> #[trigger] new.has_room(h2) == old.has_room(h2) || new.shard_index(h2)
                == new.shard_index(h),
            has_free(new.slots_of(h)) == has_free(old.slots_of(h)) ==> forall|h2: u64| #[trigger] new.has_room(h2)
                == old.has_room(h2),
    {
        assert forall|s: int| 0 <= s < new.shards@.len() implies {
            &&& #[trigger] new.shards@[s].entries@.len() == new.capacity_per_shard
            &&& slots_wf(new.shards@[s].entries@)
        } by {
            if s != old.shard_index(h) {
                assert(new.shards@[s] == old.shards@[s]);
            }
        }
        assert forall|h2: u64| h2 != h implies lookup(new.slots_of(h2), h2) == lookup(old.slots_of(h2), h2) by {
            if new.shard_index(h2) != new.shard_index(h) {
                old.lemma_shard_index_bounds(h2);
                assert(new.shards@[old.shard_index(h2)] == old.shards@[old.shard_index(h2)]);
            }
        }
        assert forall|h2: u64| h2 != h implies #[trigger] new.has_room(h2) == old.has_room(h2) || new.shard_index(h2)
            == new.shard_index(h) by {
            if new.shard_index(h2) != new.shard_index(h) {
                old.lemma_shard_index_bounds(h2);
                assert(new.shards@[old.shard_index(h2)] == old.shards@[old.shard_index(h2)]);
            }
        }
        if has_free(new.slots_of(h)) == has_free(old.slots_of(h)) {
            assert forall|h2: u64| #[trigger] new.has_room(h2) == old.has_room(h2) by {
                if new.shard_index(h2) != new.shard_index(h) {
                    old.lemma_shard_index_bounds(h2);
                    assert(new.shards@[old.shard_index(h2)] == old.shards@[old.shard_index(h2)]);
                }
            }
        }
    }

    pub fn new() -> (c: Self)
        ensures
            c.wf(),
            c@ == Map::<u64, ControlView>::empty(),
            c.shards_spec() == DEFAULT_SHARD_COUNT,
            c.capacity_spec() == DEFAULT_CAPACITY_PER_SHARD,
            forall|h: u64| #[trigger] c.has_room(h),
    {
        Self::with_shards(DEFAULT_SHARD_COUNT)
    }

    /// A registry with `shard_count` shards (at least one).
    pub fn with_shards(shard_count: usize) -> (c: Self)
        ensures
            c.wf(),
            c@ == Map::<u64, ControlView>::empty(),
            c.shards_spec() == (if shard_count >= 1 { shard_count } else { 1 }),
            c.capacity_spec() == DEFAULT_CAPACITY_PER_SHARD,
            forall|h: u64| #[trigger] c.has_room(h),
    {
        let shard_count = if shard_count >= 1 {
            shard_count
        } else {
            1
        };
        let capacity_per_shard = DEFAULT_CAPACITY_PER_SHARD;
        let mut shards: Vec<Shard> = Vec::with_capacity(shard_count);
        let mut i: usize = 0;
        while i < shard_count
            invariant
                i <= shard_count,
                capacity_per_shard == DEFAULT_CAPACITY_PER_SHARD,
                shards@.len() == i,
                forall|s: int|
                    0 <= s < i ==> {
                        &&& #[trigger] shards@[s].entries@.len() == capacity_per_shard
                        &&& slots_wf(shards@[s].entries@)
                        &&& forall|h: u64| lookup(shards@[s].entries@, h) is None
                        &&& has_free(shards@[s].entries@)
                    },
            decreases shard_count - i,
        {
            shards.push(Shard::new(capacity_per_shard));
            i = i + 1;
        }
        let c = Cachelito { shards, shard_count, capacity_per_shard, anchor: instant_now(), clock: 0 };
        proof {
            assert forall|h: u64| c.has_room(h) && lookup(c.slots_of(h), h) is None by {
                c.lemma_shard_index_bounds(h);
                let si = c.shard_index(h);
                assert(c.shards@[si].entries@.len() == capacity_per_shard);
            }
            assert(c@ =~= Map::<u64, ControlView>::empty());
        }
        c
    }

    /// Nanoseconds elapsed on the monotonic clock since the registry was built.
    fn now_nanos(&self) -> u64 {
        saturate_u64(nanos_since(&self.anchor))
    }

    /// The latest clock reading a changing operation of the registry took
    /// (0 for a new registry). Readings never go below it.
    pub closed spec fn clock(&self) -> u64 {
        self.clock
    }

    /// The registry with its latest clock reading set to `now`.
    closed spec fn with_clock(self, now: u64) -> Cachelito {
        Cachelito { clock: now, ..self }
    }

    /// A clock reading no earlier than the latest one taken.
    fn read_clock(&self) -> (now: u64)
        ensures
            now >= self.clock(),
    {
        let raw = self.now_nanos();
        if raw > self.clock {
            raw
        } else {
            self.clock
        }
    }

    /// Takes a clock reading no earlier than the latest one and records it.
    fn tick(&mut self) -> (now: u64)
        ensures
            now >= old(self).clock(),
            *final(self) == old(self).with_clock(now),
    {
        let now = self.read_clock();
        self.clock = now;
        now
    }

    /// Recording a clock reading changes nothing the contracts speak of but
    /// the reading itself.
    proof fn lemma_clock_only(a: Cachelito, now: u64)
        ensures
            a.with_clock(now)@ == a@,
            a.with_clock(now).wf() == a.wf(),
            a.with_clock(now).shards_spec() == a.shards_spec(),
            a.with_clock(now).capacity_spec() == a.capacity_spec(),
            a.with_clock(now).clock() == now,
            forall|h: u64| #[trigger] a.with_clock(now).has_room(h) == a.has_room(h),
            forall|h: u64| #[trigger] a.with_clock(now).slots_of(h) == a.slots_of(h),
    {
        assert(a.with_clock(now)@ =~= a@);
    }

    /// `acquire_post` from the registry with a clock reading recorded is
    /// `acquire_post` from the registry before it.
    proof fn lemma_acquire_post_clock(
        a: Cachelito,
        now: u64,
        new: Cachelito,
        key: Seq<u8>,
        tier: TierId,
        r: Result<ControlSnapshot, CacheError>,
    )
        requires
            Self::acquire_post(a.with_clock(now), new, key, tier, now, r),
        ensures
            Self::acquire_post(a, new, key, tier, now, r),
    {
        Self::lemma_clock_only(a, now);
    }

    fn shard_for(&self, key_hash: u64) -> (s: usize)
        requires
            self.wf(),
        ensures
            s == self.shard_index(key_hash),
            s < self.shards@.len(),
    {
        (key_hash as usize) % self.shard_count
    }

    fn compute_key_hash(key: &[u8]) -> (h: u64)
        ensures
            h == bytes_hash(key@),
    {
        hash_bytes(key)
    }

    /// Moves shard `si` out of the registry, leaving an empty placeholder.
    fn take_shard(&mut self, si: usize) -> (s: Shard)
        requires
            si < old(self).shards@.len(),
        ensures
            s == old(self).shards@[si as int],
            final(self).shards@.len() == old(self).shards@.len(),
            forall|k: int| 0 <= k < old(self).shards@.len() && k != si ==> #[trigger] final(self).shards@[k] == old(self).shards@[k],
            final(self).shard_count == old(self).shard_count,
            final(self).capacity_per_shard == old(self).capacity_per_shard,
            final(self).clock == old(self).clock,
    {
        let mut shard = Shard { entries: Vec::new() };
        self.shards.set_and_swap(si, &mut shard);
        shard
    }

    fn put_shard(&mut self, si: usize, shard: Shard)
        requires
            si < old(self).shards@.len(),
        ensures
            final(self).shards@ == old(self).shards@.update(si as int, shard),
            final(self).shard_count == old(self).shard_count,
            final(self).capacity_per_shard == old(self).capacity_per_shard,
            final(self).clock == old(self).clock,
    {
        self.shards.set(si, shard);
    }

    /// The entry `h` has now, or the fresh one it would get.
    pub open spec fn entry_or_fresh(m: Map<u64, ControlView>, h: u64) -> ControlView {
        if m.contains_key(h) {
            m[h]
        } else {
            fresh_view(h)
        }
    }

    /// Claiming `h` cannot overflow its generation.
    pub open spec fn claim_fits(&self, h: u64) -> bool {
        self@.contains_key(h) && claimable(self@[h].state) ==> self@[h].generation < u64::MAX
    }

    /// What `acquire` of `key` at clock reading `now` returns and leaves.
    pub open spec fn acquire_post(
        old: Cachelito,
        new: Cachelito,
        key: Seq<u8>,
        tier: TierId,
        now: u64,
        r: Result<ControlSnapshot, CacheError>,
    ) -> bool {
        let h = bytes_hash(key);
        let before = Self::entry_or_fresh(old@, h);
        &&& new.wf()
        &&& new.shards_spec() == old.shards_spec()
        &&& new.capacity_spec() == old.capacity_spec()
        &&& match r {
            Err(e) => {
                &&& e == CacheError::ConfigurationError
                &&& !old@.contains_key(h)
                &&& !old.has_room(h)
                &&& new@ == old@
            },
            Ok(snap) => {
                &&& old@.contains_key(h) || old.has_room(h)
                &&& new@ == old@.insert(h, acquire_view(before, tier, now))
                &&& snap.summary() == acquire_snapshot(before, tier, now)
            },
        }
    }

    /// Looks up (creating if needed) the control entry for `key` at clock
    /// reading `now`. When the entry is absent, failed or stale the caller
    /// becomes the population owner: the entry turns in-flight under a new
    /// generation. Otherwise the entry is reported as it is.
    pub fn acquire_at(&mut self, key: &[u8], tier: TierId, now: u64) -> (r: Result<ControlSnapshot, CacheError>)
        requires
            old(self).wf(),
            old(self).claim_fits(bytes_hash(key@)),
        ensures
            Self::acquire_post(*old(self), *final(self), key@, tier, now, r),
            final(self).clock() == old(self).clock(),
    {
        let key_hash = Self::compute_key_hash(key);
        let si = self.shard_for(key_hash);
        let ghost old_self = *self;
        let mut shard = self.take_shard(si);
        let ghost s0 = shard.entries@;
        proof {
            assert(old_self.slots_of(key_hash) == s0);
        }
        let idx = match shard.find_or_create_entry(key_hash) {
            Ok(i) => i,
            Err(e) => {
                self.put_shard(si, shard);
                proof {
                    assert(self.slots_of(key_hash) == s0);
                    Self::lemma_view_after(old_self, *self, key_hash);
                    assert(self@ =~= old_self@);
                }
                return Err(e);
            },
        };
        let ghost s1 = shard.entries@;
        let mut entry = shard.take_entry(idx);
        let ghost before = entry@;
        proof {
            lemma_lookup_at(s1, idx as int, key_hash);
            assert(before == Self::entry_or_fresh(old_self@, key_hash));
        }
        let current_state = entry.state();
        let current_gen = entry.generation();
        let current_tier = entry.tier();
        let snapshot = if current_state == EntryState::Absent || current_state == EntryState::Failed
            || current_state == EntryState::Stale {
            entry.set_state(EntryState::InFlight);
            entry.set_population_owner(true);
            let new_gen = Generation::new(current_gen.0 + 1);
            entry.set_generation(new_gen);
            entry.set_tier(tier);
            entry.set_last_error(None);
            entry.set_population_timestamp(Some(now));
            Self::snapshot_of(&entry, EntryState::InFlight, new_gen, tier, true, Some(now), now)
        } else {
            Self::snapshot_of(&entry, current_state, current_gen, current_tier, false, None, now)
        };
        proof {
            assert(entry@ == acquire_view(before, tier, now));
            assert(snapshot.summary() == acquire_snapshot(before, tier, now));
        }
        shard.put_entry(idx, entry, Ghost(s1));
        self.put_shard(si, shard);
        proof {
            assert(self.slots_of(key_hash) == shard.entries@);
            Self::lemma_view_after(old_self, *self, key_hash);
            assert(self@ =~= old_self@.insert(key_hash, acquire_view(before, tier, now)));
        }
        Ok(snapshot)
    }

    /// `acquire_at` at the current clock reading.
    pub fn acquire(&mut self, key: &[u8], tier: TierId) -> (r: Result<ControlSnapshot, CacheError>)
        requires
            old(self).wf(),
            old(self).claim_fits(bytes_hash(key@)),
        ensures
            exists|now: u64|
                now >= old(self).clock() && final(self).clock() == now && Self::acquire_post(
                    *old(self),
                    *final(self),
                    key@,
                    tier,
                    now,
                    r,
                ),
    {
        let ghost c0 = *self;
        let now = self.tick();
        proof {
            Self::lemma_clock_only(c0, now);
        }
        let r = self.acquire_at(key, tier, now);
        proof {
            Self::lemma_acquire_post_clock(c0, now, *self, key@, tier, r);
        }
        r
    }


    /// Whether a caller may acquire `key` now: claiming its population must
    /// not run its generation past the largest one.
    pub fn can_claim(&self, key: &[u8]) -> (b: bool)
        requires
            self.wf(),
        ensures
            b == self.claim_fits(bytes_hash(key@)),
    {
        let key_hash = Self::compute_key_hash(key);
        let si = self.shard_for(key_hash);
        let shard = &self.shards[si];
        match shard.find_entry(key_hash) {
            Some(i) => match &shard.entries[i] {
                Some(e) => {
                    let st = e.state();
                    let claims = st == EntryState::Absent || st == EntryState::Failed || st == EntryState::Stale;
                    !claims || e.generation().0 < u64::MAX
                },
                None => true,
            },
            None => true,
        }
    }

    /// `acquire`, where claiming `key` keeps its generation in range;
    /// otherwise nothing is done and `None` comes back.
    pub fn try_acquire(&mut self, key: &[u8], tier: TierId) -> (r: Option<Result<ControlSnapshot, CacheError>>)
        requires
            old(self).wf(),
        ensures
            r is None <==> !old(self).claim_fits(bytes_hash(key@)),
            r is None ==> *final(self) == *old(self),
            r matches Some(res) ==> exists|now: u64| Self::acquire_post(*old(self), *final(self), key@, tier, now, res),
    {
        if !self.can_claim(key) {
            return None;
        }
        Some(self.acquire(key, tier))
    }

    /// The shape of the registry is kept and every shard keeps its room.
    pub open spec fn same_shape(old: Cachelito, new: Cachelito) -> bool {
        &&& new.wf()
        &&& new.shards_spec() == old.shards_spec()
        &&& new.capacity_spec() == old.capacity_spec()
    }

    /// What `publish` of `key` at clock reading `now` returns and leaves.
    pub open spec fn publish_post(
        old: Cachelito,
        new: Cachelito,
        key: Seq<u8>,
        expected: Generation,
        tier: TierId,
        ttl: Option<std::time::Duration>,
        now: u64,
        r: Result<(), CacheError>,
    ) -> bool {
        let h = bytes_hash(key);
        &&& Self::same_shape(old, new)
        &&& forall|h2: u64| #[trigger] new.has_room(h2) == old.has_room(h2)
        &&& match r {
            Ok(()) => {
                &&& old@.contains_key(h)
                &&& old@[h].generation == expected.0
                &&& new@ == old@.insert(h, publish_view(old@[h], tier, ttl_nanos_of(ttl), now))
                &&& new@[h].wakes == old@[h].wakes + 1
            },
            Err(e) => {
                &&& new@ == old@
                &&& (!old@.contains_key(h) ==> e == CacheError::Miss)
                &&& (old@.contains_key(h) ==> e == CacheError::StaleGeneration && old@[h].generation != expected.0)
            },
        }
    }

    /// Publishes a population of `key` made under generation `expected`, at
    /// clock reading `now`: the entry becomes ready on `tier` with `ttl`, and
    /// waiters are woken. A population of any other generation is stale and
    /// rejected; an untracked key is a miss.
    pub fn publish_at(
        &mut self,
        key: &[u8],
        expected_generation: Generation,
        tier: TierId,
        ttl: Option<std::time::Duration>,
        now: u64,
    ) -> (r: Result<(), CacheError>)
        requires
            old(self).wf(),
        ensures
            Self::publish_post(*old(self), *final(self), key@, expected_generation, tier, ttl, now, r),
            final(self).clock() == old(self).clock(),
    {
        let key_hash = Self::compute_key_hash(key);
        let si = self.shard_for(key_hash);
        let ghost old_self = *self;
        let mut shard = self.take_shard(si);
        let ghost s0 = shard.entries@;
        proof {
            assert(old_self.slots_of(key_hash) == s0);
        }
        let idx = match shard.find_entry(key_hash) {
            Some(i) => i,
            None => {
                self.put_shard(si, shard);
                proof {
                    assert(self.slots_of(key_hash) == s0);
                    Self::lemma_view_after(old_self, *self, key_hash);
                    assert(self@ =~= old_self@);
                }
                return Err(CacheError::Miss);
            },
        };
        let mut entry = shard.take_entry(idx);
        let ghost before = entry@;
        let current_gen = entry.generation();
        if expected_generation.is_stale(current_gen) || expected_generation.0 != current_gen.0 {
            shard.put_entry(idx, entry, Ghost(s0));
            self.put_shard(si, shard);
            proof {
                assert(shard.entries@ =~= s0);
                assert(self.slots_of(key_hash) == s0);
                Self::lemma_view_after(old_self, *self, key_hash);
                assert(self@ =~= old_self@);
            }
            return Err(CacheError::StaleGeneration);
        }
        entry.set_state(EntryState::Ready);
        entry.set_tier(tier);
        entry.set_ttl(ttl);
        entry.set_last_error(None);
        entry.set_population_owner(false);
        entry.set_population_timestamp(Some(now));
        entry.notify();
        proof {
            assert(entry@ == publish_view(before, tier, ttl_nanos_of(ttl), now));
        }
        shard.put_entry(idx, entry, Ghost(s0));
        self.put_shard(si, shard);
        proof {
            assert(self.slots_of(key_hash) == shard.entries@);
            Self::lemma_view_after(old_self, *self, key_hash);
            assert(self@ =~= old_self@.insert(key_hash, publish_view(before, tier, ttl_nanos_of(ttl), now)));
        }
        Ok(())
    }

    /// `publish_at` at the current clock reading.
    pub fn publish(
        &mut self,
        key: &[u8],
        expected_generation: Generation,
        tier: TierId,
        ttl: Option<std::time::Duration>,
    ) -> (r: Result<(), CacheError>)
        requires
            old(self).wf(),
        ensures
            exists|now: u64|
                now >= old(self).clock() && final(self).clock() == now && Self::publish_post(
                    *old(self),
                    *final(self),
                    key@,
                    expected_generation,
                    tier,
                    ttl,
                    now,
                    r,
                ),
    {
        let ghost c0 = *self;
        let now = self.tick();
        proof {
            Self::lemma_clock_only(c0, now);
        }
        let r = self.publish_at(key, expected_generation, tier, ttl, now);
        proof {
            Self::lemma_clock_only(c0, now);
            assert(Self::publish_post(c0, *self, key@, expected_generation, tier, ttl, now, r));
        }
        r
    }

    /// The registry after an update `f` of the tracked entry of `h`, or the
    /// same registry with a miss when `h` is untracked.
    pub open spec fn update_post(
        old: Cachelito,
        new: Cachelito,
        h: u64,
        updated: ControlView,
        r: Result<(), CacheError>,
        missing: Result<(), CacheError>,
    ) -> bool {
        &&& Self::same_shape(old, new)
        &&& forall|h2: u64| #[trigger] new.has_room(h2) == old.has_room(h2)
        &&& if old@.contains_key(h) {
            r == Ok::<(), CacheError>(()) && new@ == old@.insert(h, updated)
        } else {
            r == missing && new@ == old@
        }
    }

    /// Marks the population of `key` failed with `PopulationFailed`.
    pub fn fail(&mut self, key: &[u8]) -> (r: Result<(), CacheError>)
        requires
            old(self).wf(),
        ensures
            Self::update_post(
                *old(self),
                *final(self),
                bytes_hash(key@),
                fail_view(
                    Self::entry_or_fresh(old(self)@, bytes_hash(key@)),
                    error_code(Some(CacheError::PopulationFailed)),
                ),
                r,
                Err(CacheError::Miss),
            ),
    {
        self.fail_with_error(key, CacheError::PopulationFailed)
    }

    /// Marks the population of `key` failed, recording the terminal error so
    /// waiting callers learn why, and wakes them. An untracked key is a miss.
    pub fn fail_with_error(&mut self, key: &[u8], error: CacheError) -> (r: Result<(), CacheError>)
        requires
            old(self).wf(),
        ensures
            Self::update_post(
                *old(self),
                *final(self),
                bytes_hash(key@),
                fail_view(Self::entry_or_fresh(old(self)@, bytes_hash(key@)), error_code(Some(error))),
                r,
                Err(CacheError::Miss),
            ),
    {
        let key_hash = Self::compute_key_hash(key);
        let si = self.shard_for(key_hash);
        let ghost old_self = *self;
        let mut shard = self.take_shard(si);
        let ghost s0 = shard.entries@;
        proof {
            assert(old_self.slots_of(key_hash) == s0);
        }
        let idx = match shard.find_entry(key_hash) {
            Some(i) => i,
            None => {
                self.put_shard(si, shard);
                proof {
                    assert(self.slots_of(key_hash) == s0);
                    Self::lemma_view_after(old_self, *self, key_hash);
                    assert(self@ =~= old_self@);
                }
                return Err(CacheError::Miss);
            },
        };
        let mut entry = shard.take_entry(idx);
        let ghost before = entry@;
        entry.set_state(EntryState::Failed);
        entry.set_last_error(Some(error));
        entry.set_population_owner(false);
        entry.set_population_timestamp(None);
        entry.notify();
        shard.put_entry(idx, entry, Ghost(s0));
        self.put_shard(si, shard);
        proof {
            assert(self.slots_of(key_hash) == shard.entries@);
            Self::lemma_view_after(old_self, *self, key_hash);
            assert(self@ =~= old_self@.insert(key_hash, fail_view(before, error_code(Some(error)))));
        }
        Ok(())
    }

    /// Drops whatever the registry knows of `key`'s population: a new
    /// generation, nothing populated, no TTL, no error; waiters are woken.
    /// An untracked key is left untracked.
    fn reset(&mut self, key: &[u8]) -> (r: Result<(), CacheError>)
        requires
            old(self).wf(),
        ensures
            Self::update_post(
                *old(self),
                *final(self),
                bytes_hash(key@),
                reset_view(Self::entry_or_fresh(old(self)@, bytes_hash(key@))),
                r,
                Ok(()),
            ),
    {
        let key_hash = Self::compute_key_hash(key);
        let si = self.shard_for(key_hash);
        let ghost old_self = *self;
        let mut shard = self.take_shard(si);
        let ghost s0 = shard.entries@;
        proof {
            assert(old_self.slots_of(key_hash) == s0);
        }
        let idx = match shard.find_entry(key_hash) {
            Some(i) => i,
            None => {
                self.put_shard(si, shard);
                proof {
                    assert(self.slots_of(key_hash) == s0);
                    Self::lemma_view_after(old_self, *self, key_hash);
                    assert(self@ =~= old_self@);
                }
                return Ok(());
            },
        };
        let mut entry = shard.take_entry(idx);
        let ghost before = entry@;
        entry.increment_generation();
        entry.set_state(EntryState::Absent);
        entry.set_population_owner(false);
        entry.set_population_timestamp(None);
        entry.set_ttl(None);
        entry.set_last_error(None);
        entry.notify();
        shard.put_entry(idx, entry, Ghost(s0));
        self.put_shard(si, shard);
        proof {
            assert(self.slots_of(key_hash) == shard.entries@);
            Self::lemma_view_after(old_self, *self, key_hash);
            assert(self@ =~= old_self@.insert(key_hash, reset_view(before)));
        }
        Ok(())
    }

    /// Releases `key` after its population ended and wakes its waiters: see
    /// `reset_view`.
    pub fn release(&mut self, key: &[u8]) -> (r: Result<(), CacheError>)
        requires
            old(self).wf(),
        ensures
            Self::update_post(
                *old(self),
                *final(self),
                bytes_hash(key@),
                reset_view(Self::entry_or_fresh(old(self)@, bytes_hash(key@))),
                r,
                Ok(()),
            ),
    {
        self.reset(key)
    }

    /// Invalidates `key`: a new generation makes every population still in
    /// progress stale, and its waiters are woken. See `reset_view`.
    pub fn invalidate(&mut self, key: &[u8]) -> (r: Result<(), CacheError>)
        requires
            old(self).wf(),
        ensures
            Self::update_post(
                *old(self),
                *final(self),
                bytes_hash(key@),
                reset_view(Self::entry_or_fresh(old(self)@, bytes_hash(key@))),
                r,
                Ok(()),
            ),
    {
        self.reset(key)
    }

    /// The control plane keeps no per-key tier health; this reports the
    /// default health.
    pub fn health(&self, key: &[u8]) -> (r: Result<TierHealth, CacheError>)
        ensures
            r == Ok::<TierHealth, CacheError>(crate::tier::tier_trait::default_health()),
    {
        Ok(TierHealth::default())
    }

    /// Accepted and ignored: the control plane keeps no per-key tier health.
    pub fn update_tier_health(&self, key: &[u8], health: TierHealth) -> (r: Result<(), CacheError>)
        ensures
            r is Ok,
    {
        Ok(())
    }

    /// The registry after an update of the entry of `h` that tracks the key
    /// first when needed; a full shard refuses an untracked key.
    pub open spec fn upsert_post(
        old: Cachelito,
        new: Cachelito,
        h: u64,
        updated: ControlView,
        r: Result<(), CacheError>,
    ) -> bool {
        &&& Self::same_shape(old, new)
        &&& match r {
            Ok(()) => {
                &&& old@.contains_key(h) || old.has_room(h)
                &&& new@ == old@.insert(h, updated)
            },
            Err(e) => {
                &&& e == CacheError::ConfigurationError
                &&& !old@.contains_key(h)
                &&& !old.has_room(h)
                &&& new@ == old@
            },
        }
    }

    /// Which field an upsert writes.
    spec fn with_field(v: ControlView, field: ControlField) -> ControlView {
        match field {
            ControlField::Generation(g) => ControlView { generation: g.0, ..v },
            ControlField::Tier(t) => ControlView { tier: t, ..v },
            ControlField::State(s) => woken(ControlView { state: s, ..v }),
        }
    }

    fn upsert(&mut self, key: &[u8], field: ControlField) -> (r: Result<(), CacheError>)
        requires
            old(self).wf(),
        ensures
            Self::upsert_post(
                *old(self),
                *final(self),
                bytes_hash(key@),
                Self::with_field(Self::entry_or_fresh(old(self)@, bytes_hash(key@)), field),
                r,
            ),
    {
        let key_hash = Self::compute_key_hash(key);
        let si = self.shard_for(key_hash);
        let ghost old_self = *self;
        let mut shard = self.take_shard(si);
        let ghost s0 = shard.entries@;
        proof {
            assert(old_self.slots_of(key_hash) == s0);
        }
        let idx = match shard.find_or_create_entry(key_hash) {
            Ok(i) => i,
            Err(_) => {
                self.put_shard(si, shard);
                proof {
                    assert(self.slots_of(key_hash) == s0);
                    Self::lemma_view_after(old_self, *self, key_hash);
                    assert(self@ =~= old_self@);
                }
                return Err(CacheError::ConfigurationError);
            },
        };
        let ghost s1 = shard.entries@;
        let mut entry = shard.take_entry(idx);
        let ghost before = entry@;
        proof {
            lemma_lookup_at(s1, idx as int, key_hash);
            assert(before == Self::entry_or_fresh(old_self@, key_hash));
        }
        match field {
            ControlField::Generation(g) => entry.set_generation(g),
            ControlField::Tier(t) => entry.set_tier(t),
            ControlField::State(st) => {
                entry.set_state(st);
                entry.notify();
            },
        }
        shard.put_entry(idx, entry, Ghost(s1));
        self.put_shard(si, shard);
        proof {
            assert(self.slots_of(key_hash) == shard.entries@);
            Self::lemma_view_after(old_self, *self, key_hash);
            assert(self@ =~= old_self@.insert(key_hash, Self::with_field(before, field)));
        }
        Ok(())
    }

    /// Sets the generation of `key`, tracking the key first when needed.
    pub fn set_generation(&mut self, key: &[u8], generation: Generation) -> (r: Result<(), CacheError>)
        requires
            old(self).wf(),
        ensures
            Self::upsert_post(
                *old(self),
                *final(self),
                bytes_hash(key@),
                ControlView {
                    generation: generation.0,
                    ..Self::entry_or_fresh(old(self)@, bytes_hash(key@))
                },
                r,
            ),
    {
        self.upsert(key, ControlField::Generation(generation))
    }

    /// Sets the tier of `key`, tracking the key first when needed.
    pub fn set_tier(&mut self, key: &[u8], tier: TierId) -> (r: Result<(), CacheError>)
        requires
            old(self).wf(),
        ensures
            Self::upsert_post(
                *old(self),
                *final(self),
                bytes_hash(key@),
                ControlView { tier, ..Self::entry_or_fresh(old(self)@, bytes_hash(key@)) },
                r,
            ),
    {
        self.upsert(key, ControlField::Tier(tier))
    }

    /// Sets the state of `key`, tracking the key first when needed, and wakes
    /// its waiters (the entry's wake count grows by one).
    pub fn set_state(&mut self, key: &[u8], state: EntryState) -> (r: Result<(), CacheError>)
        requires
            old(self).wf(),
        ensures
            Self::upsert_post(
                *old(self),
                *final(self),
                bytes_hash(key@),
                woken(ControlView { state, ..Self::entry_or_fresh(old(self)@, bytes_hash(key@)) }),
                r,
            ),
    {
        self.upsert(key, ControlField::State(state))
    }

    /// The generation of `key`, if the key is tracked.
    pub fn generation_of(&self, key: &[u8]) -> (r: Option<Generation>)
        requires
            self.wf(),
        ensures
            r == (if self@.contains_key(bytes_hash(key@)) {
                Some(Generation(self@[bytes_hash(key@)].generation))
            } else {
                None
            }),
    {
        let key_hash = Self::compute_key_hash(key);
        let si = self.shard_for(key_hash);
        let shard = &self.shards[si];
        match shard.find_entry(key_hash) {
            Some(i) => match &shard.entries[i] {
                Some(e) => Some(e.generation()),
                None => None,
            },
            None => None,
        }
    }

    /// The state of `key`'s entry, if the key is tracked.
    pub fn state_of(&self, key: &[u8]) -> (r: Option<EntryState>)
        requires
            self.wf(),
        ensures
            r == (if self@.contains_key(bytes_hash(key@)) {
                Some(self@[bytes_hash(key@)].state)
            } else {
                None
            }),
    {
        let key_hash = Self::compute_key_hash(key);
        let si = self.shard_for(key_hash);
        let shard = &self.shards[si];
        match shard.find_entry(key_hash) {
            Some(i) => match &shard.entries[i] {
                Some(e) => Some(e.state()),
                None => None,
            },
            None => None,
        }
    }

    /// The tier of `key`'s entry, if the key is tracked.
    pub fn tier_of(&self, key: &[u8]) -> (r: Option<TierId>)
        requires
            self.wf(),
        ensures
            r == (if self@.contains_key(bytes_hash(key@)) {
                Some(self@[bytes_hash(key@)].tier)
            } else {
                None
            }),
    {
        let key_hash = Self::compute_key_hash(key);
        let si = self.shard_for(key_hash);
        let shard = &self.shards[si];
        match shard.find_entry(key_hash) {
            Some(i) => match &shard.entries[i] {
                Some(e) => Some(e.tier()),
                None => None,
            },
            None => None,
        }
    }

    /// The control entry of `key` as it is at clock reading `now`, claiming
    /// nothing: a fresh entry's report when the key is untracked, which stays
    /// untracked.
    pub fn observe_at(&self, key: &[u8], now: u64) -> (r: ControlSnapshot)
        requires
            self.wf(),
        ensures
            r.summary() == observe_snapshot(Self::entry_or_fresh(self@, bytes_hash(key@)), now),
            ttl_reads(Self::entry_or_fresh(self@, bytes_hash(key@)).ttl_nanos, r.ttl),
    {
        let key_hash = Self::compute_key_hash(key);
        let si = self.shard_for(key_hash);
        let shard = &self.shards[si];
        match shard.find_entry(key_hash) {
            Some(i) => match &shard.entries[i] {
                Some(e) => Self::snapshot_of(e, e.state(), e.generation(), e.tier(), false, None, now),
                None => vstd::pervasive::unreached(),
            },
            None => {
                let fresh = ControlEntry::new(key_hash);
                Self::snapshot_of(&fresh, EntryState::Absent, Generation(0), TierId::L0, false, None, now)
            },
        }
    }

    /// What `acquire_at(key, tier, now)` would report, claiming nothing: the
    /// claimed entry when it may be claimed, the entry as it is otherwise.
    pub fn preview_at(&self, key: &[u8], tier: TierId, now: u64) -> (r: ControlSnapshot)
        requires
            self.wf(),
            self.claim_fits(bytes_hash(key@)),
        ensures
            r.summary() == acquire_snapshot(Self::entry_or_fresh(self@, bytes_hash(key@)), tier, now),
    {
        let key_hash = Self::compute_key_hash(key);
        let si = self.shard_for(key_hash);
        let shard = &self.shards[si];
        match shard.find_entry(key_hash) {
            Some(i) => match &shard.entries[i] {
                Some(e) => {
                    let st = e.state();
                    if st == EntryState::Absent || st == EntryState::Failed || st == EntryState::Stale {
                        let g = e.generation();
                        let ttl = e.ttl();
                        proof {
                            if let Some(d) = ttl {
                                assert(duration_nanos(d) as u64 == e@.ttl_nanos);
                            }
                        }
                        ControlSnapshot {
                            state: EntryState::InFlight,
                            generation: Generation(g.0 + 1),
                            tier,
                            population_owner: true,
                            population_timestamp: Some(now),
                            ttl,
                            expired: false,
                            last_error: None,
                            notify: e.notify_clone(),
                        }
                    } else {
                        Self::snapshot_of(e, st, e.generation(), e.tier(), false, None, now)
                    }
                },
                None => vstd::pervasive::unreached(),
            },
            None => ControlSnapshot {
                state: EntryState::InFlight,
                generation: Generation(1),
                tier,
                population_owner: true,
                population_timestamp: Some(now),
                ttl: None,
                expired: false,
                last_error: None,
                notify: Arc::new(new_notify()),
            },
        }
    }

    /// `preview_at` at the current clock reading.
    pub fn preview(&self, key: &[u8], tier: TierId) -> (r: ControlSnapshot)
        requires
            self.wf(),
            self.claim_fits(bytes_hash(key@)),
        ensures
            exists|now: u64|
                now >= self.clock() && r.summary() == acquire_snapshot(
                    Self::entry_or_fresh(self@, bytes_hash(key@)),
                    tier,
                    now,
                ),
    {
        let now = self.read_clock();
        self.preview_at(key, tier, now)
    }

    /// `observe_at` at the current clock reading.
    pub fn observe(&self, key: &[u8]) -> (r: ControlSnapshot)
        requires
            self.wf(),
        ensures
            exists|now: u64|
                now >= self.clock() && r.summary() == observe_snapshot(Self::entry_or_fresh(self@, bytes_hash(key@)), now),
            ttl_reads(Self::entry_or_fresh(self@, bytes_hash(key@)).ttl_nanos, r.ttl),
    {
        let now = self.read_clock();
        self.observe_at(key, now)
    }

    fn snapshot_of(
        entry: &ControlEntry,
        state: EntryState,
        generation: Generation,
        tier: TierId,
        population_owner: bool,
        population_timestamp: Option<u64>,
        now: u64,
    ) -> (s: ControlSnapshot)
        ensures
            s.state == state,
            s.generation == generation,
            s.tier == tier,
            s.population_owner == population_owner,
            s.population_timestamp == population_timestamp,
            ttl_nanos_of(s.ttl) == entry@.ttl_nanos,
            ttl_reads(entry@.ttl_nanos, s.ttl),
            s.expired == entry_expired(entry@, now),
            s.last_error == error_of_code(entry@.last_error),
    {
        let ttl = entry.ttl();
        proof {
            if let Some(d) = ttl {
                assert(duration_nanos(d) as u64 == entry@.ttl_nanos);
            }
        }
        ControlSnapshot {
            state,
            generation,
            tier,
            population_owner,
            population_timestamp,
            ttl,
            expired: entry.is_expired(now),
            last_error: entry.last_error(),
            notify: entry.notify_clone(),
        }
    }
}

} // verus!

verus! {

/// Single flight: after a caller becomes the population owner of a key, the
/// next caller that acquires the key is not made owner; it sees the
/// population in flight under the owner's generation and waits for it.
pub proof fn lemma_single_flight(
    c0: Cachelito,
    c1: Cachelito,
    c2: Cachelito,
    key: Seq<u8>,
    tier1: TierId,
    tier2: TierId,
    now1: u64,
    now2: u64,
    s1: ControlSnapshot,
    s2: ControlSnapshot,
)
    requires
        Cachelito::acquire_post(c0, c1, key, tier1, now1, Ok(s1)),
        s1.population_owner,
        Cachelito::acquire_post(c1, c2, key, tier2, now2, Ok(s2)),
    ensures
        !s2.population_owner,
        s2.state == EntryState::InFlight,
        s2.generation == s1.generation,
        c2@ == c1@,
{
    let h = bytes_hash(key);
    assert(c1@.contains_key(h));
    assert(c2@ =~= c1@);
}

/// The owner's population is accepted: publishing under the generation that
/// `acquire` handed to the owner succeeds, and the entry becomes ready on the
/// tier it was published to.
pub proof fn lemma_owner_publish_accepted(
    c0: Cachelito,
    c1: Cachelito,
    c2: Cachelito,
    key: Seq<u8>,
    tier: TierId,
    publish_tier: TierId,
    ttl: Option<std::time::Duration>,
    now1: u64,
    now2: u64,
    s: ControlSnapshot,
    r: Result<(), CacheError>,
)
    requires
        Cachelito::acquire_post(c0, c1, key, tier, now1, Ok(s)),
        s.population_owner,
        Cachelito::publish_post(c1, c2, key, s.generation, publish_tier, ttl, now2, r),
    ensures
        r is Ok,
        c2@[bytes_hash(key)].state == EntryState::Ready,
        c2@[bytes_hash(key)].tier == publish_tier,
        c2@[bytes_hash(key)].generation == s.generation.0,
{
    let h = bytes_hash(key);
    assert(c1@.contains_key(h));
}

/// Generation invalidation: a population that started before an
/// `invalidate` (or `release`) of its key is rejected as stale when it
/// publishes.
pub proof fn lemma_invalidated_population_rejected(
    c0: Cachelito,
    c1: Cachelito,
    c2: Cachelito,
    c3: Cachelito,
    key: Seq<u8>,
    tier: TierId,
    publish_tier: TierId,
    ttl: Option<std::time::Duration>,
    now1: u64,
    now2: u64,
    s: ControlSnapshot,
    r_invalidate: Result<(), CacheError>,
    r: Result<(), CacheError>,
)
    requires
        Cachelito::acquire_post(c0, c1, key, tier, now1, Ok(s)),
        Cachelito::update_post(
            c1,
            c2,
            bytes_hash(key),
            reset_view(Cachelito::entry_or_fresh(c1@, bytes_hash(key))),
            r_invalidate,
            Ok(()),
        ),
        Cachelito::publish_post(c2, c3, key, s.generation, publish_tier, ttl, now2, r),
    ensures
        r == Err::<(), CacheError>(CacheError::StaleGeneration),
        c3@ == c2@,
{
    let h = bytes_hash(key);
    assert(c1@.contains_key(h));
    assert(c1@[h].generation == s.generation.0);
    assert(c2@.contains_key(h));
    assert(c2@[h].generation == next_generation(s.generation.0));
}

/// A failed population does not wedge its key: the next `acquire` claims it
/// again, under a new generation, so the population can be retried.
pub proof fn lemma_failure_reclaimable(
    c1: Cachelito,
    c2: Cachelito,
    c3: Cachelito,
    key: Seq<u8>,
    error: CacheError,
    tier: TierId,
    now: u64,
    r_fail: Result<(), CacheError>,
    s: ControlSnapshot,
)
    requires
        c1@.contains_key(bytes_hash(key)),
        Cachelito::update_post(
            c1,
            c2,
            bytes_hash(key),
            fail_view(Cachelito::entry_or_fresh(c1@, bytes_hash(key)), error_code(Some(error))),
            r_fail,
            Err(CacheError::Miss),
        ),
        c2.claim_fits(bytes_hash(key)),
        Cachelito::acquire_post(c2, c3, key, tier, now, Ok(s)),
    ensures
        r_fail is Ok,
        s.population_owner,
        s.state == EntryState::InFlight,
        s.generation.0 == c1@[bytes_hash(key)].generation + 1,
{
}

/// Recording a terminal population error and reading it back gives the same
/// error for the four errors that are told to waiters, and
/// `PopulationFailed` for every other error.
pub proof fn lemma_error_code_roundtrip(e: CacheError)
    ensures
        error_of_code(error_code(Some(e))) == (match e {
            CacheError::Timeout => Some(CacheError::Timeout),
            CacheError::TierUnavailable => Some(CacheError::TierUnavailable),
            CacheError::Cancelled => Some(CacheError::Cancelled),
            _ => Some(CacheError::PopulationFailed),
        }),
        error_of_code(error_code(None)) is None,
{
}

/// A published entry with a TTL expires exactly when the TTL has elapsed
/// since its publication.
pub proof fn lemma_published_ttl_expiry(v: ControlView, tier: TierId, ttl_nanos: u64, at: u64, now: u64)
    requires
        ttl_nanos > 0,
        now >= at,
    ensures
        entry_expired(publish_view(v, tier, ttl_nanos, at), now) == (now - at >= ttl_nanos),
        !entry_expired(publish_view(v, tier, 0, at), now),
{
}

/// Entry states and their numeric codes name each other.
pub proof fn lemma_state_code_roundtrip(s: EntryStateAtomic)
    ensures
        state_of_code(state_code(s)) == Ok::<EntryStateAtomic, ()>(s),
        atomic_of_state(state_of_atomic(s)) == s,
{
}

impl Default for Cachelito {
    fn default() -> (c: Self)
        ensures
            c.wf(),
            c@ == Map::<u64, ControlView>::empty(),
            c.shards_spec() == DEFAULT_SHARD_COUNT,
            c.capacity_spec() == DEFAULT_CAPACITY_PER_SHARD,
            forall|h: u64| #[trigger] c.has_room(h),
    {
        Self::new()
    }
}

/// Publishing fixes what a look at the entry reports next: the entry is
/// ready on the published tier under the expected generation, owned by
/// nobody, with no recorded error, and its TTL reads back as the one
/// published (none for a zero TTL).
pub proof fn lemma_publish_then_observe(
    c0: Cachelito,
    c1: Cachelito,
    key: Seq<u8>,
    expected: Generation,
    tier: TierId,
    ttl: Option<std::time::Duration>,
    now: u64,
    snap: ControlSnapshot,
    later: u64,
)
    requires
        Cachelito::publish_post(c0, c1, key, expected, tier, ttl, now, Ok(())),
        snap.summary() == observe_snapshot(Cachelito::entry_or_fresh(c1@, bytes_hash(key)), later),
        ttl_reads(Cachelito::entry_or_fresh(c1@, bytes_hash(key)).ttl_nanos, snap.ttl),
        ttl matches Some(d) ==> duration_nanos(d) <= u64::MAX,
    ensures
        snap.state == EntryState::Ready,
        snap.tier == tier,
        snap.generation.0 == expected.0,
        !snap.population_owner,
        snap.last_error is None,
        ttl matches Some(d) && duration_nanos(d) == 0 ==> snap.ttl is None,
        !(ttl matches Some(d) && duration_nanos(d) == 0) ==> snap.ttl == ttl,
{
    let h = bytes_hash(key);
    assert(c1@.contains_key(h));
    let n = c1@[h].ttl_nanos;
    assert(n == ttl_nanos_of(ttl));
    if let Some(d) = ttl {
        assert(duration_nanos(d) as u64 == duration_nanos(d));
    }
    if !(ttl matches Some(d) && duration_nanos(d) == 0) {
        assert(ttl_nanos_of(ttl) == n);
    }
}

/// A TTL reads back as it was armed: after `set_ttl(t)` an entry's `ttl()`
/// is `t` itself when `t` is none or a positive duration that fits in 64 bits
/// of nanoseconds, and a zero duration reads back as none.
pub proof fn lemma_ttl_round_trip(
    before: ControlView,
    after: ControlView,
    t: Option<std::time::Duration>,
    back: Option<std::time::Duration>,
)
    requires
        after == (ControlView { ttl_nanos: ttl_nanos_of(t), ..before }),
        ttl_reads(after.ttl_nanos, back),
    ensures
        (t matches Some(d) ==> 0 < duration_nanos(d) <= u64::MAX) ==> back == t,
        t matches Some(d) && duration_nanos(d) == 0 ==> back is None,
{
    if let Some(d) = t {
        if duration_nanos(d) <= u64::MAX {
            assert(duration_nanos(d) as u64 == duration_nanos(d));
        }
    }
    assert(ttl_nanos_of(t) == after.ttl_nanos);
}

/// Every transition that ends or resets a population wakes the key's
/// waiters once: publishing, failing, releasing or invalidating an entry,
/// and setting its state, each add one to its wake count.
pub proof fn lemma_transitions_wake(v: ControlView, tier: TierId, ttl_nanos: u64, now: u64, code: u8, state: EntryState)
    ensures
        publish_view(v, tier, ttl_nanos, now).wakes == v.wakes + 1,
        fail_view(v, code).wakes == v.wakes + 1,
        reset_view(v).wakes == v.wakes + 1,
        woken(ControlView { state, ..v }).wakes == v.wakes + 1,
{
}

/// A TTL runs from the publication: an acquisition, then a publication with
/// TTL `d`, then a look at the entry take clock readings that never go back,
/// and the look reports the entry ready, and expired exactly when `d` has
/// elapsed since the publication.
pub proof fn lemma_ttl_runs_from_publication(
    c0: Cachelito,
    c1: Cachelito,
    c2: Cachelito,
    key: Seq<u8>,
    tier1: TierId,
    now1: u64,
    s1: ControlSnapshot,
    expected: Generation,
    tier: TierId,
    d: std::time::Duration,
    now2: u64,
    snap: ControlSnapshot,
    now3: u64,
)
    requires
        now1 >= c0.clock(),
        c1.clock() == now1,
        Cachelito::acquire_post(c0, c1, key, tier1, now1, Ok(s1)),
        now2 >= c1.clock(),
        c2.clock() == now2,
        Cachelito::publish_post(c1, c2, key, expected, tier, Some(d), now2, Ok(())),
        now3 >= c2.clock(),
        snap.summary() == observe_snapshot(Cachelito::entry_or_fresh(c2@, bytes_hash(key)), now3),
        0 < duration_nanos(d) <= u64::MAX,
    ensures
        now1 <= now2 <= now3,
        snap.state == EntryState::Ready,
        snap.expired <==> now3 - now2 >= duration_nanos(d),
{
    let h = bytes_hash(key);
    assert(duration_nanos(d) as u64 == duration_nanos(d));
    assert(c2@[h].ttl_nanos == duration_nanos(d));
    assert(c2@[h].population_timestamp == Some(now2));
}

} // verus!
