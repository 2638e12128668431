//! An in-memory tier of fixed capacity: a table of slots searched by linear
//! probing on the key's hash, with the values held in a `MemoryPool`.
//!
//! A key has at most one slot. A lookup follows the key's probe path over the
//! whole table, past free slots, so removing an entry hides no other key.
//! Entries may carry a TTL; an expired entry reads as absent and its slot may
//! be reused by any key.
use vstd::prelude::*;

use crate::control::probe::{home, lemma_home_bounds, lemma_probe_covers, lemma_probe_step, probe};
use crate::error::CacheError;
use crate::key::{bytes_hash, hash_bytes, KeyRef};
use crate::pool::MemoryPool;
use crate::time::{duration_as_nanos, duration_nanos, instant_now, nanos_since, saturate_u64};

verus! {

pub const DEFAULT_CAPACITY: usize = 1024;

/// Where a key's value lives, and since when and for how long it is valid.
#[derive(Debug, Clone, Copy)]
pub struct Slot {
    pub key_hash: u64,
    pub pool_idx: usize,
    /// When the entry was written (nanoseconds on the tier's clock) and its
    /// TTL in nanoseconds. `None` never expires.
    pub expiry: Option<(u64, u128)>,
}

/// Nanoseconds from `armed` to `now`, or 0 when `now` is earlier.
pub open spec fn elapsed_since(armed: u64, now: u64) -> u64 {
    if now >= armed {
        (now - armed) as u64
    } else {
        0
    }
}

/// The slot's TTL has elapsed at clock reading `now`.
pub open spec fn slot_expired(sl: Slot, now: u64) -> bool {
    match sl.expiry {
        None => false,
        Some((armed, ttl)) => elapsed_since(armed, now) >= ttl,
    }
}

impl Slot {
    fn is_expired(&self, now: u64) -> (b: bool)
        ensures
            b == slot_expired(*self, now),
    {
        match self.expiry {
            Some((armed, ttl)) => {
                let elapsed = if now >= armed {
                    now - armed
                } else {
                    0
                };
                elapsed as u128 >= ttl
            },
            None => false,
        }
    }
}

pub open spec fn tier_home(s: Seq<Option<Slot>>, h: u64) -> int {
    home(h, s.len() as int)
}

pub open spec fn tier_probe(s: Seq<Option<Slot>>, h: u64, e: int) -> int {
    probe(tier_home(s, h), e, s.len() as int)
}

/// Slot `i` holds the hash `h`, expired or not.
pub open spec fn holds(s: Seq<Option<Slot>>, h: u64, i: int) -> bool {
    0 <= i < s.len() && s[i] is Some && s[i]->Some_0.key_hash == h
}

/// No hash is held by two slots.
pub open spec fn hashes_unique(s: Seq<Option<Slot>>) -> bool {
    forall|i: int, j: int|
        #![trigger s[i], s[j]]
        0 <= i < s.len() && 0 <= j < s.len() && s[i] is Some && s[j] is Some && s[i]->Some_0.key_hash
            == s[j]->Some_0.key_hash ==> i == j
}

/// No pool slot is named by two slots.
pub open spec fn pool_indices_unique(s: Seq<Option<Slot>>) -> bool {
    forall|i: int, j: int|
        #![trigger s[i], s[j]]
        0 <= i < s.len() && 0 <= j < s.len() && s[i] is Some && s[j] is Some && s[i]->Some_0.pool_idx
            == s[j]->Some_0.pool_idx ==> i == j
}

/// Slot `i` holds `h`, unexpired at `now`.
pub open spec fn live_at(s: Seq<Option<Slot>>, h: u64, i: int, now: u64) -> bool {
    holds(s, h, i) && !slot_expired(s[i]->Some_0, now)
}

/// The slot a lookup of `h` at clock reading `now` finds: the slot holding
/// `h`, when its entry is unexpired.
pub open spec fn lookup_index(s: Seq<Option<Slot>>, h: u64, now: u64) -> Option<int> {
    if exists|i: int| live_at(s, h, i, now) {
        Some(choose|i: int| live_at(s, h, i, now))
    } else {
        None
    }
}

/// A write of `h` at `now` steps past slot `i`: it holds another, live key.
pub open spec fn passes_write(s: Seq<Option<Slot>>, h: u64, i: int, now: u64) -> bool {
    s[i] is Some && s[i]->Some_0.key_hash != h && !slot_expired(s[i]->Some_0, now)
}

/// Step `e` is where a write of `h` at `now` stops.
pub open spec fn write_stop(s: Seq<Option<Slot>>, h: u64, e: int, now: u64) -> bool {
    &&& 0 <= e < s.len()
    &&& !passes_write(s, h, tier_probe(s, h, e), now)
    &&& forall|d: int| 0 <= d < e ==> #[trigger] passes_write(s, h, tier_probe(s, h, d), now)
}

/// The slot a write of `h` at `now` uses: the slot already holding `h`, else
/// the first on the probe path that is free or holds an expired entry.
pub open spec fn write_index(s: Seq<Option<Slot>>, h: u64, now: u64) -> Option<int> {
    if exists|i: int| holds(s, h, i) {
        Some(choose|i: int| holds(s, h, i))
    } else if exists|e: int| write_stop(s, h, e, now) {
        Some(tier_probe(s, h, choose|e: int| write_stop(s, h, e, now)))
    } else {
        None
    }
}

proof fn lemma_write_stop_unique(s: Seq<Option<Slot>>, h: u64, e1: int, e2: int, now: u64)
    requires
        write_stop(s, h, e1, now),
        write_stop(s, h, e2, now),
    ensures
        e1 == e2,
{
    if e1 < e2 {
        assert(passes_write(s, h, tier_probe(s, h, e1), now));
    } else if e2 < e1 {
        assert(passes_write(s, h, tier_probe(s, h, e2), now));
    }
}

/// With unique hashes, the slot holding `h` is the one any search for it
/// picks.
proof fn lemma_holder_unique(s: Seq<Option<Slot>>, h: u64, i: int)
    requires
        hashes_unique(s),
        holds(s, h, i),
    ensures
        (choose|j: int| holds(s, h, j)) == i,
        forall|j: int| #[trigger] holds(s, h, j) ==> j == i,
{
    let c = choose|j: int| holds(s, h, j);
    assert(holds(s, h, c));
    assert(s[c] is Some && s[i] is Some);
}

/// A live slot holding `h` is what a lookup of `h` finds.
proof fn lemma_found(s: Seq<Option<Slot>>, h: u64, i: int, now: u64)
    requires
        hashes_unique(s),
        live_at(s, h, i, now),
    ensures
        lookup_index(s, h, now) == Some(i),
{
    let c = choose|j: int| live_at(s, h, j, now);
    assert(live_at(s, h, c, now));
    lemma_holder_unique(s, h, i);
}

/// A lookup finds a slot that holds `h`, unexpired.
proof fn lemma_lookup_live(s: Seq<Option<Slot>>, h: u64, now: u64)
    requires
        lookup_index(s, h, now) is Some,
    ensures
        live_at(s, h, lookup_index(s, h, now)->Some_0, now),
{
}

/// The expiry a write at `now` with `ttl` records.
pub open spec fn expiry_of(ttl: Option<std::time::Duration>, now: u64) -> Option<(u64, u128)> {
    match ttl {
        None => None,
        Some(t) => Some((now, duration_nanos(t))),
    }
}

/// A TTL armed at `armed` has elapsed at `now`.
pub open spec fn ttl_elapsed(ttl: Option<std::time::Duration>, armed: u64, now: u64) -> bool {
    match ttl {
        None => false,
        Some(t) => elapsed_since(armed, now) >= duration_nanos(t),
    }
}

/// Reads (`after`) of `key` find `value` from clock reading `since` on, for
/// as long as `ttl` runs.
pub open spec fn holds_since<V>(
    key: Seq<u8>,
    value: V,
    ttl: Option<std::time::Duration>,
    since: u64,
    after: spec_fn(Seq<u8>, u64) -> Option<V>,
) -> bool {
    forall|t: u64| !ttl_elapsed(ttl, since, t) ==> #[trigger] after(key, t) == Some(value)
}

/// Reads (`after`) of `key` find nothing from clock reading `since` on.
pub open spec fn gone_since<V>(key: Seq<u8>, since: u64, after: spec_fn(Seq<u8>, u64) -> Option<V>) -> bool {
    forall|t: u64| t >= since ==> #[trigger] after(key, t) is None
}

/// After a write of `value` under `key` with `ttl` that answered `r`, reads
/// (`after`) of the key find the value, from some clock reading on, for as
/// long as the TTL runs.
pub open spec fn write_leaves<V>(
    key: Seq<u8>,
    value: V,
    ttl: Option<std::time::Duration>,
    r: Result<(), CacheError>,
    after: spec_fn(Seq<u8>, u64) -> Option<V>,
) -> bool {
    r is Ok ==> exists|since: u64| #[trigger] holds_since(key, value, ttl, since, after)
}

/// After a removal of `key`, reads (`after`) of it find nothing from some
/// clock reading on, and reads of keys of other hashes find what they found
/// before (`before`).
pub open spec fn removal_leaves<V>(
    key: Seq<u8>,
    before: spec_fn(Seq<u8>, u64) -> Option<V>,
    after: spec_fn(Seq<u8>, u64) -> Option<V>,
) -> bool {
    &&& exists|since: u64| #[trigger] gone_since(key, since, after)
    &&& forall|k: Seq<u8>, t: u64| bytes_hash(k) != bytes_hash(key) ==> #[trigger] after(k, t) == before(k, t)
}

/// An expired slot stays expired as the clock advances.
proof fn lemma_expiry_monotone(sl: Slot, now: u64, later: u64)
    requires
        slot_expired(sl, now),
        later >= now,
    ensures
        slot_expired(sl, later),
{
}

/// On an unchanged table, a key that a lookup does not find at `now` is not
/// found later either.
proof fn lemma_lookup_none_persists(s: Seq<Option<Slot>>, h: u64, now: u64, later: u64)
    requires
        lookup_index(s, h, now) is None,
        later >= now,
    ensures
        lookup_index(s, h, later) is None,
{
    if exists|i: int| live_at(s, h, i, later) {
        let i = choose|i: int| live_at(s, h, i, later);
        if !live_at(s, h, i, now) {
            lemma_expiry_monotone(s[i]->Some_0, now, later);
        }
    }
}

proof fn lemma_write_index_bounds(s: Seq<Option<Slot>>, h: u64, now: u64)
    requires
        s.len() > 0,
        write_index(s, h, now) is Some,
    ensures
        0 <= write_index(s, h, now)->Some_0 < s.len(),
{
    lemma_home_bounds(h, s.len() as int);
    if !exists|i: int| holds(s, h, i) {
        let e = choose|e: int| write_stop(s, h, e, now);
        assert(write_stop(s, h, e, now));
    }
}

/// Writing `h` into the slot a write of `h` at `now` uses keeps hashes
/// unique, and makes a lookup of `h` find that slot for as long as the new
/// entry is unexpired.
proof fn lemma_written_is_found(s: Seq<Option<Slot>>, h: u64, now: u64, sl: Slot, later: u64)
    requires
        s.len() > 0,
        hashes_unique(s),
        write_index(s, h, now) is Some,
        sl.key_hash == h,
    ensures
        hashes_unique(s.update(write_index(s, h, now)->Some_0, Some(sl))),
        !slot_expired(sl, later) ==> lookup_index(s.update(write_index(s, h, now)->Some_0, Some(sl)), h, later)
            == write_index(s, h, now),
{
    lemma_write_index_bounds(s, h, now);
    let w = write_index(s, h, now)->Some_0;
    let t = s.update(w, Some(sl));
    assert forall|i: int, j: int|
        #![trigger t[i], t[j]]
        0 <= i < t.len() && 0 <= j < t.len() && t[i] is Some && t[j] is Some && t[i]->Some_0.key_hash
            == t[j]->Some_0.key_hash implies i == j by {
        if i != j && (i == w || j == w) {
            let o = if i == w { j } else { i };
            assert(holds(s, h, o));
            lemma_holder_unique(s, h, o);
        }
    }
    if !slot_expired(sl, later) {
        assert(live_at(t, h, w, later));
        lemma_found(t, h, w, later);
    }
}

/// Freeing the slot a lookup of `h` found makes `h` unfindable from then on,
/// and leaves what a lookup of any other hash finds as it was.
proof fn lemma_removed_not_found(s: Seq<Option<Slot>>, h: u64, now: u64)
    requires
        hashes_unique(s),
        lookup_index(s, h, now) is Some,
    ensures
        hashes_unique(s.update(lookup_index(s, h, now)->Some_0, None)),
        forall|later: u64| #[trigger] lookup_index(s.update(lookup_index(s, h, now)->Some_0, None), h, later) is None,
        forall|h2: u64, t: u64|
            h2 != h ==> #[trigger] lookup_index(s.update(lookup_index(s, h, now)->Some_0, None), h2, t)
                == lookup_index(s, h2, t),
{
    let i = lookup_index(s, h, now)->Some_0;
    assert(live_at(s, h, i, now));
    lemma_holder_unique(s, h, i);
    let t = s.update(i, None);
    assert forall|a: int, b: int|
        #![trigger t[a], t[b]]
        0 <= a < t.len() && 0 <= b < t.len() && t[a] is Some && t[b] is Some && t[a]->Some_0.key_hash
            == t[b]->Some_0.key_hash implies a == b by {
        assert(s[a] is Some && s[b] is Some);
    }
    assert forall|later: u64| #[trigger] lookup_index(t, h, later) is None by {
        if exists|j: int| live_at(t, h, j, later) {
            let j = choose|j: int| live_at(t, h, j, later);
            assert(holds(s, h, j));
        }
    }
    assert forall|h2: u64, x: u64| h2 != h implies #[trigger] lookup_index(t, h2, x) == lookup_index(s, h2, x) by {
        if exists|j: int| live_at(t, h2, j, x) {
            let j = choose|j: int| live_at(t, h2, j, x);
            assert(live_at(s, h2, j, x));
            lemma_found(s, h2, j, x);
            lemma_found(t, h2, j, x);
        } else if exists|j: int| live_at(s, h2, j, x) {
            let j = choose|j: int| live_at(s, h2, j, x);
            assert(j != i);
            assert(live_at(t, h2, j, x));
        }
    }
}

/// Writing `h` at `now` changes no lookup of another hash from `now` on:
/// the slot written was free, held `h`, or held an entry expired at `now`.
proof fn lemma_write_frame(s: Seq<Option<Slot>>, h: u64, now: u64, sl: Slot, h2: u64, x: u64)
    requires
        s.len() > 0,
        hashes_unique(s),
        write_index(s, h, now) is Some,
        sl.key_hash == h,
        h2 != h,
        x >= now,
    ensures
        lookup_index(s.update(write_index(s, h, now)->Some_0, Some(sl)), h2, x) == lookup_index(s, h2, x),
{
    lemma_write_index_bounds(s, h, now);
    lemma_written_is_found(s, h, now, sl, x);
    let w = write_index(s, h, now)->Some_0;
    let t = s.update(w, Some(sl));
    if exists|j: int| live_at(t, h2, j, x) {
        let j = choose|j: int| live_at(t, h2, j, x);
        assert(j != w);
        assert(live_at(s, h2, j, x));
        lemma_found(s, h2, j, x);
        lemma_found(t, h2, j, x);
    } else if exists|j: int| live_at(s, h2, j, x) {
        let j = choose|j: int| live_at(s, h2, j, x);
        if j == w {
            if exists|i: int| holds(s, h, i) {
                let c = choose|i: int| holds(s, h, i);
                assert(holds(s, h, c));
            } else {
                let e = choose|e: int| write_stop(s, h, e, now);
                assert(write_stop(s, h, e, now));
                assert(!passes_write(s, h, w, now));
                lemma_expiry_monotone(s[w]->Some_0, now, x);
            }
        }
        assert(live_at(t, h2, j, x));
    }
}

/// A fixed-capacity in-memory tier.
#[derive(Debug)]
pub struct FixedTierStub<V> {
    pool: MemoryPool<V>,
    slots: Vec<Option<Slot>>,
    anchor: std::time::Instant,
    /// The latest clock reading a changing operation has taken.
    clock: u64,
}

impl<V> FixedTierStub<V> {
    /// The slot table.
    pub closed spec fn slots_view(&self) -> Seq<Option<Slot>> {
        self.slots@
    }

    /// The value held in pool slot `idx`, if any.
    pub closed spec fn stored(&self, idx: int) -> Option<V> {
        if 0 <= idx < self.pool.capacity_spec() {
            self.pool.slots_view()[idx]
        } else {
            None
        }
    }

    /// The pool's free stack.
    pub closed spec fn free_view(&self) -> Seq<usize> {
        self.pool.free_view()
    }

    /// Each hash and each pool slot belongs to at most one slot, and every
    /// occupied slot's pool slot holds a value.
    pub closed spec fn wf(&self) -> bool {
        &&& self.pool.wf()
        &&& self.pool.exact()
        &&& self.slots@.len() > 0
        &&& hashes_unique(self.slots@)
        &&& pool_indices_unique(self.slots@)
        &&& forall|i: int|
            0 <= i < self.slots@.len() && #[trigger] self.slots@[i] is Some ==> self.stored(
                self.slots@[i]->Some_0.pool_idx as int,
            ) is Some
    }

    /// The value a read of the key with bytes `key` finds at clock reading
    /// `now`.
    pub open spec fn value_of(&self, key: Seq<u8>, now: u64) -> Option<V> {
        match lookup_index(self.slots_view(), bytes_hash(key), now) {
            Some(i) => self.stored(self.slots_view()[i]->Some_0.pool_idx as int),
            None => None,
        }
    }

    /// A lookup of a key finds a slot exactly when a read of the key finds a
    /// value: every occupied slot's pool slot holds one.
    pub proof fn lemma_found_iff_value(&self, key: Seq<u8>, now: u64)
        requires
            self.wf(),
        ensures
            (lookup_index(self.slots_view(), bytes_hash(key), now) is Some) == (self.value_of(key, now) is Some),
    {
        if lookup_index(self.slots_view(), bytes_hash(key), now) is Some {
            let i = lookup_index(self.slots_view(), bytes_hash(key), now)->Some_0;
            assert(live_at(self.slots_view(), bytes_hash(key), i, now));
            assert(self.slots@[i] is Some);
        }
    }

    pub fn new() -> (t: Self)
        ensures
            t.wf(),
            t.slots_view() == Seq::new(DEFAULT_CAPACITY as nat, |i: int| None::<Slot>),
            t.free_view().len() == DEFAULT_CAPACITY,
    {
        Self::with_capacity(DEFAULT_CAPACITY)
    }

    /// A tier of `capacity` slots; the capacity must be positive.
    pub fn with_capacity(capacity: usize) -> (t: Self)
        requires
            capacity > 0,
        ensures
            t.wf(),
            t.slots_view() == Seq::new(capacity as nat, |i: int| None::<Slot>),
            forall|i: int| 0 <= i < capacity ==> #[trigger] t.stored(i) is None,
            t.free_view().len() == capacity,
    {
        let pool = match MemoryPool::new(capacity) {
            Ok(p) => p,
            Err(_) => vstd::pervasive::unreached(),
        };
        let mut slots: Vec<Option<Slot>> = Vec::with_capacity(capacity);
        let mut i: usize = 0;
        while i < capacity
            invariant
                i <= capacity,
                slots@ == Seq::new(i as nat, |k: int| None::<Slot>),
            decreases capacity - i,
        {
            slots.push(None);
            i = i + 1;
            proof {
                assert(slots@ =~= Seq::new(i as nat, |k: int| None::<Slot>));
            }
        }
        FixedTierStub { pool, slots, anchor: instant_now(), clock: 0 }
    }

    fn now_nanos(&self) -> u64 {
        saturate_u64(nanos_since(&self.anchor))
    }

    /// The latest clock reading a write or removal took (0 for a new store).
    /// Readings never go below it.
    pub closed spec fn clock(&self) -> u64 {
        self.clock
    }

    /// The store with its latest clock reading set to `now`.
    closed spec fn with_clock(self, now: u64) -> Self {
        FixedTierStub { clock: now, ..self }
    }

    /// Recording a clock reading changes nothing the contracts speak of but
    /// the reading itself.
    proof fn lemma_clock_only(a: Self, now: u64)
        ensures
            a.with_clock(now).wf() == a.wf(),
            a.with_clock(now).slots_view() == a.slots_view(),
            a.with_clock(now).free_view() == a.free_view(),
            a.with_clock(now).clock() == now,
            forall|k: int| #[trigger] a.with_clock(now).stored(k) == a.stored(k),
    {
    }

    /// A clock reading no earlier than the latest one taken.
    fn read_clock(&self) -> (now: u64)
        ensures
            now >= self.clock(),
    {
        let raw = self.now_nanos();
        if raw > self.clock {
            raw
        } else {
            self.clock
        }
    }

    /// Takes a clock reading no earlier than the latest one and records it.
    fn tick(&mut self) -> (now: u64)
        ensures
            now >= old(self).clock(),
            *final(self) == old(self).with_clock(now),
    {
        let now = self.read_clock();
        self.clock = now;
        now
    }

    fn hash_key(key: &KeyRef<'_>) -> (h: u64)
        ensures
            h == bytes_hash(key@),
    {
        hash_bytes(key.0)
    }

    /// The slot holding `key_hash`, expired or not, searched along the key's
    /// probe path over the whole table.
    fn find_holder(&self, key_hash: u64) -> (r: Option<usize>)
        requires
            self.wf(),
        ensures
            match r {
                Some(i) => holds(self.slots_view(), key_hash, i as int),
                None => forall|i: int| !#[trigger] holds(self.slots_view(), key_hash, i),
            },
    {
        let len = self.slots.len();
        let ghost s = self.slots@;
        let ghost start = home(key_hash, len as int);
        proof {
            lemma_home_bounds(key_hash, len as int);
        }
        let mut idx = (key_hash as usize) % len;
        let mut attempts: usize = 0;
        while attempts < len
            invariant
                s == self.slots@,
                len == s.len(),
                len > 0,
                start == tier_home(s, key_hash),
                0 <= start < len,
                attempts <= len,
                attempts < len ==> idx == tier_probe(s, key_hash, attempts as int),
                forall|d: int| 0 <= d < attempts ==> !#[trigger] holds(s, key_hash, tier_probe(s, key_hash, d)),
            decreases len - attempts,
        {
            if let Some(sl) = &self.slots[idx] {
                if sl.key_hash == key_hash {
                    return Some(idx);
                }
            }
            if attempts + 1 < len {
                proof {
                    lemma_probe_step(start, attempts as int, len as int, idx as int);
                }
            }
            idx = (idx + 1) % len;
            attempts = attempts + 1;
        }
        proof {
            assert forall|i: int| !#[trigger] holds(s, key_hash, i) by {
                if 0 <= i < len {
                    lemma_probe_covers(start, len as int, i);
                    let e = choose|e: int| 0 <= e < len && #[trigger] probe(start, e, len as int) == i;
                    assert(!holds(s, key_hash, tier_probe(s, key_hash, e)));
                }
            }
        }
        None
    }

    /// The slot holding `key_hash` unexpired at clock reading `now`, if any.
    /// Every slot on the probe path is searched, so a slot freed by a removal
    /// hides no key stored past it.
    pub fn find_slot_at(&self, key_hash: u64, now: u64) -> (r: Option<usize>)
        requires
            self.wf(),
        ensures
            match r {
                Some(i) => lookup_index(self.slots_view(), key_hash, now) == Some(i as int),
                None => lookup_index(self.slots_view(), key_hash, now) is None,
            },
    {
        let ghost s = self.slots@;
        match self.find_holder(key_hash) {
            Some(idx) => {
                let expired = match &self.slots[idx] {
                    Some(sl) => sl.is_expired(now),
                    None => true,
                };
                proof {
                    lemma_holder_unique(s, key_hash, idx as int);
                }
                if expired {
                    proof {
                        if exists|j: int| live_at(s, key_hash, j, now) {
                            let j = choose|j: int| live_at(s, key_hash, j, now);
                            assert(holds(s, key_hash, j));
                        }
                    }
                    None
                } else {
                    proof {
                        lemma_found(s, key_hash, idx as int, now);
                    }
                    Some(idx)
                }
            },
            None => {
                proof {
                    if exists|j: int| live_at(s, key_hash, j, now) {
                        let j = choose|j: int| live_at(s, key_hash, j, now);
                        assert(holds(s, key_hash, j));
                    }
                }
                None
            },
        }
    }

    /// `find_slot_at` at the current clock reading.
    pub fn find_slot(&self, key_hash: u64) -> (r: Option<usize>)
        requires
            self.wf(),
        ensures
            exists|now: u64|
                now >= self.clock() && match r {
                    Some(i) => lookup_index(self.slots_view(), key_hash, now) == Some(i as int),
                    None => lookup_index(self.slots_view(), key_hash, now) is None,
                },
    {
        let now = self.read_clock();
        self.find_slot_at(key_hash, now)
    }

    /// The slot a write of `key_hash` at clock reading `now` uses: the slot
    /// already holding the key, else the first on its probe path that is free
    /// or holds an expired entry; `None` when every slot holds another live
    /// key.
    pub fn find_empty_at(&self, key_hash: u64, now: u64) -> (r: Option<usize>)
        requires
            self.wf(),
        ensures
            match r {
                Some(i) => write_index(self.slots_view(), key_hash, now) == Some(i as int),
                None => write_index(self.slots_view(), key_hash, now) is None,
            },
    {
        let ghost s = self.slots@;
        let holder = self.find_holder(key_hash);
        if let Some(i) = holder {
            proof {
                lemma_holder_unique(s, key_hash, i as int);
            }
            return Some(i);
        }
        proof {
            assert(!exists|i: int| holds(s, key_hash, i));
        }
        let len = self.slots.len();
        let ghost start = home(key_hash, len as int);
        proof {
            lemma_home_bounds(key_hash, len as int);
        }
        let mut idx = (key_hash as usize) % len;
        let mut attempts: usize = 0;
        while attempts < len
            invariant
                s == self.slots@,
                len == s.len(),
                start == tier_home(s, key_hash),
                0 <= start < len,
                attempts <= len,
                attempts < len ==> idx == tier_probe(s, key_hash, attempts as int),
                forall|d: int|
                    0 <= d < attempts ==> #[trigger] passes_write(s, key_hash, tier_probe(s, key_hash, d), now),
                !exists|i: int| holds(s, key_hash, i),
            decreases len - attempts,
        {
            let stop = match &self.slots[idx] {
                None => true,
                Some(sl) => sl.key_hash == key_hash || sl.is_expired(now),
            };
            if stop {
                proof {
                    assert(write_stop(s, key_hash, attempts as int, now));
                    let c = choose|c: int| write_stop(s, key_hash, c, now);
                    lemma_write_stop_unique(s, key_hash, c, attempts as int, now);
                }
                return Some(idx);
            }
            if attempts + 1 < len {
                proof {
                    lemma_probe_step(start, attempts as int, len as int, idx as int);
                }
            }
            idx = (idx + 1) % len;
            attempts = attempts + 1;
        }
        proof {
            assert forall|e: int| !write_stop(s, key_hash, e, now) by {
                if 0 <= e < len {
                    assert(passes_write(s, key_hash, tier_probe(s, key_hash, e), now));
                }
            }
        }
        None
    }

    /// `find_empty_at` at the current clock reading.
    pub fn find_empty(&self, key_hash: u64) -> (r: Option<usize>)
        requires
            self.wf(),
        ensures
            exists|now: u64|
                now >= self.clock() && match r {
                    Some(i) => write_index(self.slots_view(), key_hash, now) == Some(i as int),
                    None => write_index(self.slots_view(), key_hash, now) is None,
                },
    {
        let now = self.read_clock();
        self.find_empty_at(key_hash, now)
    }
    /// The slot a write of `h` at `now` uses needs a new pool slot.
    pub open spec fn needs_alloc(&self, i: int) -> bool {
        self.slots_view()[i] is None || self.stored(self.slots_view()[i]->Some_0.pool_idx as int) is None
    }

    /// What a `get` of `key` may answer: its answer at some clock reading.
    pub open spec fn get_answers(&self, key: Seq<u8>, r: Result<Option<V>, CacheError>) -> bool
        where V: Clone
    {
        exists|now: u64| self.get_post(key, now, r)
    }

    /// What a `set` of `value` under `key` with `ttl` may answer: its answer
    /// at some clock reading.
    pub open spec fn set_answers(&self, key: Seq<u8>, value: V, ttl: Option<std::time::Duration>, r: Result<(), CacheError>) -> bool {
        exists|now: u64, after: Self| #[trigger] Self::set_post(*self, after, key, value, ttl, now, r)
    }

    /// What a `remove` of `key` may answer.
    pub open spec fn remove_answers(&self, key: Seq<u8>, r: Result<(), CacheError>) -> bool {
        exists|now: u64, after: Self| #[trigger] Self::remove_post(*self, after, key, now, r)
    }

    /// What a `contains` of `key` may answer: whether a lookup at some clock
    /// reading finds it.
    pub open spec fn contains_answers(&self, key: Seq<u8>, r: Result<bool, CacheError>) -> bool {
        exists|now: u64| r == Ok::<bool, CacheError>(lookup_index(self.slots_view(), bytes_hash(key), now) is Some)
    }

    /// What `get` at clock reading `now` returns: a clone of the value found.
    pub open spec fn get_post(&self, key: Seq<u8>, now: u64, r: Result<Option<V>, CacheError>) -> bool
        where V: Clone
    {
        &&& r is Ok
        &&& r->Ok_0 is Some <==> self.value_of(key, now) is Some
        &&& r->Ok_0 matches Some(v) ==> cloned::<V>(self.value_of(key, now)->Some_0, v)
    }

    /// Reads the value of `key` at clock reading `now`.
    pub fn get_at(&self, key: &KeyRef<'_>, now: u64) -> (r: Result<Option<V>, CacheError>)
        where V: Clone
        requires
            self.wf(),
        ensures
            self.get_post(key@, now, r),
    {
        let hash = Self::hash_key(key);
        if let Some(idx) = self.find_slot_at(hash, now) {
            if let Some(slot) = self.slots[idx] {
                return Ok(self.pool.get(slot.pool_idx).cloned());
            }
        }
        Ok(None)
    }

    /// `get_at` at the current clock reading.
    pub fn get(&self, key: &KeyRef<'_>) -> (r: Result<Option<V>, CacheError>)
        where V: Clone
        requires
            self.wf(),
        ensures
            exists|now: u64| now >= self.clock() && self.get_post(key@, now, r),
    {
        let now = self.read_clock();
        self.get_at(key, now)
    }

    /// What `set` at clock reading `now` returns and leaves.
    pub open spec fn set_post(
        old: Self,
        new: Self,
        key: Seq<u8>,
        value: V,
        ttl: Option<std::time::Duration>,
        now: u64,
        r: Result<(), CacheError>,
    ) -> bool {
        let s = old.slots_view();
        let h = bytes_hash(key);
        let w = write_index(s, h, now);
        &&& new.wf()
        &&& match r {
            Err(e) => {
                &&& e == CacheError::ConfigurationError
                &&& (w is None || (old.needs_alloc(w->Some_0) && old.free_view().len() == 0))
                &&& new.slots_view() == s
                &&& forall|k: int| #[trigger] new.stored(k) == old.stored(k)
            },
            Ok(()) => {
                &&& w is Some
                &&& !(old.needs_alloc(w->Some_0) && old.free_view().len() == 0)
                &&& exists|pool_idx: usize|
                    {
                        &&& new.slots_view() == s.update(
                            w->Some_0,
                            Some(Slot { key_hash: h, pool_idx, expiry: expiry_of(ttl, now) }),
                        )
                        &&& new.stored(pool_idx as int) == Some(value)
                        &&& forall|k: int| k != pool_idx ==> #[trigger] new.stored(k) == old.stored(k)
                    }
                &&& forall|later: u64|
                    !ttl_elapsed(ttl, now, later) ==> #[trigger] new.value_of(key, later) == Some(value)
                &&& forall|later: u64|
                    ttl_elapsed(ttl, now, later) ==> #[trigger] lookup_index(new.slots_view(), h, later) is None
                        && new.value_of(key, later) is None
                &&& forall|other: Seq<u8>, t: u64|
                    t >= now && bytes_hash(other) != h ==> #[trigger] new.value_of(other, t) == old.value_of(other, t)
            },
        }
    }

    /// A read follows the write before it: after a `set` of `value` under
    /// `key` with `ttl` at clock reading `now` succeeded, a read of the key at
    /// `later` finds the value while the TTL runs and nothing once it has
    /// elapsed, and a lookup (`contains`) finds the key exactly as long.
    pub proof fn lemma_set_then_read(
        old: Self,
        new: Self,
        key: Seq<u8>,
        value: V,
        ttl: Option<std::time::Duration>,
        now: u64,
        later: u64,
    )
        requires
            Self::set_post(old, new, key, value, ttl, now, Ok(())),
        ensures
            new.value_of(key, later) == (if ttl_elapsed(ttl, now, later) {
                None
            } else {
                Some(value)
            }),
            (lookup_index(new.slots_view(), bytes_hash(key), later) is Some) == !ttl_elapsed(ttl, now, later),
    {
        new.lemma_found_iff_value(key, later);
        if ttl_elapsed(ttl, now, later) {
            assert(lookup_index(new.slots_view(), bytes_hash(key), later) is None);
        } else {
            assert(new.value_of(key, later) == Some(value));
        }
    }

    /// A TTL runs from the write: a value written with TTL `d` at clock
    /// reading `w` is what a read at any reading `q` with `w <= q < w + d`
    /// finds, and from `w + d` on the key reads as absent.
    pub proof fn lemma_set_then_get_within_ttl(
        old: Self,
        new: Self,
        key: Seq<u8>,
        value: V,
        d: std::time::Duration,
        w: u64,
        q: u64,
    )
        requires
            Self::set_post(old, new, key, value, Some(d), w, Ok(())),
            w <= q,
        ensures
            q - w < duration_nanos(d) ==> new.value_of(key, q) == Some(value),
            q - w >= duration_nanos(d) ==> new.value_of(key, q) is None,
    {
        Self::lemma_set_then_read(old, new, key, value, Some(d), w, q);
    }

    /// A first write to a store with no entries and a free pool slot
    /// succeeds.
    pub proof fn lemma_fresh_set_succeeds(
        old: Self,
        new: Self,
        key: Seq<u8>,
        value: V,
        ttl: Option<std::time::Duration>,
        now: u64,
        r: Result<(), CacheError>,
    )
        requires
            old.slots_view().len() > 0,
            forall|i: int| 0 <= i < old.slots_view().len() ==> #[trigger] old.slots_view()[i] is None,
            old.free_view().len() > 0,
            Self::set_post(old, new, key, value, ttl, now, r),
        ensures
            r is Ok,
    {
        let s = old.slots_view();
        let h = bytes_hash(key);
        lemma_home_bounds(h, s.len() as int);
        assert(!exists|i: int| holds(s, h, i));
        assert(write_stop(s, h, 0, now));
        assert(write_index(s, h, now) is Some);
    }

    /// Writes `value` for `key` at clock reading `now`, with an optional TTL,
    /// into the slot already holding the key, else the first slot on the
    /// key's probe path that is free or holds an expired entry. An
    /// overwritten entry's pool slot is reused. Refuses when every slot holds
    /// another live key, or when a new pool slot is needed and none is free.
    pub fn set_at(&mut self, key: &KeyRef<'_>, value: V, ttl: Option<std::time::Duration>, now: u64) -> (r: Result<
        (),
        CacheError,
    >)
        requires
            old(self).wf(),
        ensures
            Self::set_post(*old(self), *final(self), key@, value, ttl, now, r),
            final(self).clock() == old(self).clock(),
    {
        let hash = Self::hash_key(key);
        let ghost old_self = *self;
        let ghost s = self.slots@;
        proof {
            old_self.pool.lemma_shape();
        }
        match self.find_empty_at(hash, now) {
            Some(idx) => {
                let pool_idx = match self.slots[idx] {
                    Some(prev) => {
                        let ghost p0 = self.pool;
                        let got = self.pool.get_mut(prev.pool_idx);
                        match got {
                            Some(v) => {
                                *v = value;
                                proof {
                                    assert(has_resolved(v));
                                    assert(*final(v) == value);
                                    assert(self.pool.slots_view() == p0.slots_view().update(prev.pool_idx as int, Some(value)));
                                    p0.lemma_shape();
                                    assert(self.stored(prev.pool_idx as int) == Some(value));
                                    assert forall|k: int| k != prev.pool_idx implies #[trigger] self.stored(k) == old_self.stored(k) by {}
                                    assert forall|k: int| 0 <= k < self.pool.capacity_spec() implies (
                                        #[trigger] self.pool.slots_view()[k] is None <==> self.pool.free_view().contains(k as usize)) by {
                                        assert(old_self.pool.slots_view()[k] is None <==> old_self.pool.free_view().contains(k as usize));
                                    }
                                }
                                prev.pool_idx
                            },
                            None => {
                                proof {
                                    assert(s[idx as int] is Some);
                                }
                                match self.pool.allocate(value) {
                                    Ok(i) => i,
                                    Err(e) => {
                                        return Err(e);
                                    },
                                }
                            },
                        }
                    },
                    None => match self.pool.allocate(value) {
                        Ok(i) => {
                            proof {
                                old_self.pool.lemma_shape();
                                assert(self.stored(i as int) == Some(value));
                                assert forall|k: int| k != i implies #[trigger] self.stored(k) == old_self.stored(k) by {}
                                assert forall|j: int| 0 <= j < s.len() && #[trigger] s[j] is Some implies s[j]->Some_0.pool_idx
                                    != i by {
                                    assert(old_self.stored(s[j]->Some_0.pool_idx as int) is Some);
                                }
                            }
                            i
                        },
                        Err(e) => {
                            proof {
                                assert forall|k: int| #[trigger] self.stored(k) == old_self.stored(k) by {}
                            }
                            return Err(e);
                        },
                    },
                };
                let expiry = match ttl {
                    Some(t) => Some((now, duration_as_nanos(t))),
                    None => None,
                };
                let slot = Slot { key_hash: hash, pool_idx, expiry };
                self.slots.set(idx, Some(slot));
                proof {
                    let t = self.slots@;
                    assert(t == s.update(idx as int, Some(slot)));
                    assert(self.slots_view() == old_self.slots_view().update(
                        idx as int,
                        Some(Slot { key_hash: hash, pool_idx, expiry: expiry_of(ttl, now) }),
                    ));
                    assert(self.stored(pool_idx as int) == Some(value));
                    assert(!(old_self.needs_alloc(idx as int) && old_self.free_view().len() == 0));
                    lemma_written_is_found(s, hash, now, slot, 0);
                    assert forall|a: int, b: int|
                        #![trigger t[a], t[b]]
                        0 <= a < t.len() && 0 <= b < t.len() && t[a] is Some && t[b] is Some && t[a]->Some_0.pool_idx
                            == t[b]->Some_0.pool_idx implies a == b by {
                        if a != b && (a == idx || b == idx) {
                            let o = if a == idx { b } else { a };
                            assert(s[o] is Some);
                            assert(old_self.stored(s[o]->Some_0.pool_idx as int) is Some);
                            if s[idx as int] is Some {
                                assert(s[idx as int]->Some_0.pool_idx == pool_idx);
                            }
                        }
                    }
                    assert forall|j: int| 0 <= j < t.len() && #[trigger] t[j] is Some implies self.stored(
                        t[j]->Some_0.pool_idx as int,
                    ) is Some by {
                        if j != idx {
                            assert(s[j] is Some);
                            assert(old_self.stored(s[j]->Some_0.pool_idx as int) is Some);
                            if s[idx as int] is Some {
                                assert(s[idx as int]->Some_0.pool_idx == pool_idx);
                            }
                        }
                    }
                    assert(self.wf());
                    assert forall|later: u64| !ttl_elapsed(ttl, now, later) implies #[trigger] self.value_of(
                        key@,
                        later,
                    ) == Some(value) by {
                        lemma_written_is_found(s, hash, now, slot, later);
                    }
                    assert forall|later: u64| ttl_elapsed(ttl, now, later) implies #[trigger] lookup_index(
                        self.slots_view(),
                        hash,
                        later,
                    ) is None && self.value_of(key@, later) is None by {
                        assert(slot_expired(slot, later));
                        if exists|j: int| live_at(t, hash, j, later) {
                            let j = choose|j: int| live_at(t, hash, j, later);
                            assert(t[idx as int] is Some && t[j] is Some);
                        }
                    }
                    assert forall|other: Seq<u8>, x: u64| x >= now && bytes_hash(other) != hash implies #[trigger] self.value_of(
                        other,
                        x,
                    ) == old_self.value_of(other, x) by {
                        let h2 = bytes_hash(other);
                        lemma_write_frame(s, hash, now, slot, h2, x);
                        if lookup_index(s, h2, x) is Some {
                            let j = lookup_index(s, h2, x)->Some_0;
                            lemma_lookup_live(s, h2, x);
                            assert(j != idx);
                            assert(t[j] is Some && t[idx as int] is Some);
                            assert(t[j]->Some_0.pool_idx != pool_idx);
                        }
                    }
                }
                Ok(())
            },
            None => Err(CacheError::ConfigurationError),
        }
    }

    /// `set_at` at the current clock reading.
    pub fn set(&mut self, key: &KeyRef<'_>, value: V, ttl: Option<std::time::Duration>) -> (r: Result<(), CacheError>)
        requires
            old(self).wf(),
        ensures
            exists|now: u64|
                now >= old(self).clock() && final(self).clock() == now && Self::set_post(
                    *old(self),
                    *final(self),
                    key@,
                    value,
                    ttl,
                    now,
                    r,
                ),
    {
        let ghost s0 = *self;
        let now = self.tick();
        proof {
            Self::lemma_clock_only(s0, now);
        }
        let r = self.set_at(key, value, ttl, now);
        proof {
            assert(Self::set_post(s0, *self, key@, value, ttl, now, r));
        }
        r
    }

    /// What `remove` at clock reading `now` returns and leaves: the entry a
    /// lookup finds is dropped and its pool slot freed for the next write;
    /// every other key reads as before.
    pub open spec fn remove_post(old: Self, new: Self, key: Seq<u8>, now: u64, r: Result<(), CacheError>) -> bool {
        let s = old.slots_view();
        let found = lookup_index(s, bytes_hash(key), now);
        &&& new.wf()
        &&& r is Ok
        &&& match found {
            Some(i) => {
                &&& new.slots_view() == s.update(i, None)
                &&& new.free_view() == old.free_view().push(s[i]->Some_0.pool_idx)
                &&& new.stored(s[i]->Some_0.pool_idx as int) is None
                &&& forall|k: int| k != s[i]->Some_0.pool_idx ==> #[trigger] new.stored(k) == old.stored(k)
            },
            None => {
                &&& new.slots_view() == s
                &&& new.free_view() == old.free_view()
                &&& forall|k: int| #[trigger] new.stored(k) == old.stored(k)
            },
        }
        &&& forall|later: u64|
            later >= now ==> #[trigger] new.value_of(key, later) is None && lookup_index(
                new.slots_view(),
                bytes_hash(key),
                later,
            ) is None
        &&& forall|other: Seq<u8>, t: u64|
            bytes_hash(other) != bytes_hash(key) ==> #[trigger] new.value_of(other, t) == old.value_of(other, t)
    }

    /// Removes the entry of `key` that a lookup at clock reading `now` finds,
    /// freeing its slot and its pool slot.
    pub fn remove_at(&mut self, key: &KeyRef<'_>, now: u64) -> (r: Result<(), CacheError>)
        requires
            old(self).wf(),
        ensures
            Self::remove_post(*old(self), *final(self), key@, now, r),
            final(self).clock() == old(self).clock(),
    {
        let hash = Self::hash_key(key);
        let ghost old_self = *self;
        let ghost s = self.slots@;
        if let Some(idx) = self.find_slot_at(hash, now) {
            if let Some(slot) = self.slots[idx] {
                self.slots.set(idx, None);
                let ghost p0 = self.pool;
                proof {
                    assert(old_self.stored(slot.pool_idx as int) is Some);
                    old_self.pool.lemma_shape();
                }
                let dr = self.pool.deallocate(slot.pool_idx);
                proof {
                    assert(p0.slots_view() == old_self.pool.slots_view());
                    assert(self.pool.capacity_spec() == old_self.pool.capacity_spec());
                    assert(dr is Ok);
                    assert(self.pool.slots_view() == old_self.pool.slots_view().update(slot.pool_idx as int, None));
                    assert forall|k: int| k != slot.pool_idx implies #[trigger] self.stored(k) == old_self.stored(k) by {}
                    lemma_removed_not_found(s, hash, now);
                    let t = self.slots@;
                    assert(t == s.update(idx as int, None));
                    assert forall|a: int, b: int|
                        #![trigger t[a], t[b]]
                        0 <= a < t.len() && 0 <= b < t.len() && t[a] is Some && t[b] is Some && t[a]->Some_0.pool_idx
                            == t[b]->Some_0.pool_idx implies a == b by {
                        assert(s[a] is Some && s[b] is Some);
                    }
                    assert forall|j: int| 0 <= j < t.len() && #[trigger] t[j] is Some implies self.stored(
                        t[j]->Some_0.pool_idx as int,
                    ) is Some by {
                        assert(s[j] is Some);
                        assert(old_self.stored(s[j]->Some_0.pool_idx as int) is Some);
                        assert(s[idx as int] is Some);
                    }
                    assert(self.wf());
                    assert forall|later: u64| later >= now implies #[trigger] self.value_of(key@, later) is None
                        && lookup_index(self.slots_view(), hash, later) is None by {
                        assert(lookup_index(t, hash, later) is None);
                    }
                    assert forall|other: Seq<u8>, x: u64| bytes_hash(other) != bytes_hash(key@) implies #[trigger] self.value_of(
                        other,
                        x,
                    ) == old_self.value_of(other, x) by {
                        let h2 = bytes_hash(other);
                        assert(lookup_index(t, h2, x) == lookup_index(s, h2, x));
                        if lookup_index(s, h2, x) is Some {
                            let j = lookup_index(s, h2, x)->Some_0;
                            lemma_lookup_live(s, h2, x);
                            assert(j != idx);
                            assert(s[idx as int] is Some);
                            assert(s[j]->Some_0.pool_idx != slot.pool_idx);
                        }
                    }
                }
            }
        } else {
            proof {
                assert forall|later: u64| later >= now implies #[trigger] self.value_of(key@, later) is None
                    && lookup_index(self.slots_view(), hash, later) is None by {
                    lemma_lookup_none_persists(self.slots_view(), hash, now, later);
                }
            }
        }
        Ok(())
    }

    /// `remove_at` at the current clock reading.
    pub fn remove(&mut self, key: &KeyRef<'_>) -> (r: Result<(), CacheError>)
        requires
            old(self).wf(),
        ensures
            exists|now: u64|
                now >= old(self).clock() && final(self).clock() == now && Self::remove_post(
                    *old(self),
                    *final(self),
                    key@,
                    now,
                    r,
                ),
    {
        let ghost s0 = *self;
        let now = self.tick();
        proof {
            Self::lemma_clock_only(s0, now);
        }
        let r = self.remove_at(key, now);
        proof {
            assert(Self::remove_post(s0, *self, key@, now, r));
        }
        r
    }

    /// Whether a lookup of `key` at clock reading `now` finds an entry.
    pub fn contains_at(&self, key: &KeyRef<'_>, now: u64) -> (r: Result<bool, CacheError>)
        requires
            self.wf(),
        ensures
            r == Ok::<bool, CacheError>(lookup_index(self.slots_view(), bytes_hash(key@), now) is Some),
            r == Ok::<bool, CacheError>(self.value_of(key@, now) is Some),
    {
        let hash = Self::hash_key(key);
        proof {
            self.lemma_found_iff_value(key@, now);
        }
        Ok(self.find_slot_at(hash, now).is_some())
    }

    /// `contains_at` at the current clock reading.
    pub fn contains(&self, key: &KeyRef<'_>) -> (r: Result<bool, CacheError>)
        requires
            self.wf(),
        ensures
            exists|now: u64|
                now >= self.clock() && r == Ok::<bool, CacheError>(
                    lookup_index(self.slots_view(), bytes_hash(key@), now) is Some,
                ) && r == Ok::<bool, CacheError>(self.value_of(key@, now) is Some),
    {
        let now = self.read_clock();
        self.contains_at(key, now)
    }
}

impl<V> Default for FixedTierStub<V> {
    fn default() -> (t: Self)
        ensures
            t.wf(),
            t.slots_view() == Seq::new(DEFAULT_CAPACITY as nat, |i: int| None::<Slot>),
    {
        Self::new()
    }
}

} // verus!
