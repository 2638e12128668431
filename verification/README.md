# theSix

Policy-driven six-tier cache orchestration. Application code never picks a
tier: a policy routes every operation, and a control plane (`Cachelito`)
coordinates the state of each key, including single-flight population so that
a miss does not turn into a stampede.

## Layout

- `src/` — the library, verified with Verus.
  - `control/` — `Cachelito`, the sharded slot map of per-key control state
    (entry state, generation, tier, population owner, TTL, terminal error).
  - `policy.rs` — requests, key state, decisions, `DefaultPolicy` and
    `StrictPolicy`.
  - `manager.rs` — the decisions every operation takes (gates, read paths,
    retries, promotion targets, circuit-breaker feedback); `manager/` holds
    `CacheManager`, whose operations run each step from the authentication
    gate to the tier stores. An operation that waits is split at its wait.
  - `tier/` — tier identities, the circuit breaker (`TierRegistry`), the
    in-memory stores, and, under `backends/`, the byte codec, the persistent
    record format and how a byte-storing backend reads its store's answers.
  - `pool.rs`, `key.rs`, `identity.rs`, `entry.rs`, `error.rs`, `time.rs`.
- `app/` — what runs around the library: the asynchronous `CacheManager`
  (waiting on populations, timeouts, retries with backoff), the stores backed
  by a concurrent map, Redis, sled and an application-supplied origin, and the
  error type with `std::error::Error`.
- `tests/` — tests of the library.

## Behavior worth knowing

- Reads (`get_start`, `key_exists`) look at a key's control entry without
  claiming it; only a read-through (`fetch_start`), a refresh, a write and a
  move claim an entry. A read that misses leaves nothing in flight.
- A write is authorized by the policy, shown what acquiring the key's entry
  would report, before anything is claimed or stored; a refused write changes
  nothing.
- A caller that waited for another caller's population reads the key's entry
  as it is after the wait: the owner's recorded failure is its answer.
- A store (`CacheTier`) may state what its calls answer and what a read finds
  after a write; the library's own stores do, and the laws that follow a value
  from a write to a later read are proved with the test stores (`TestTier`).
- `FixedTierStub` keeps at most one slot per key, and a lookup searches the
  key's whole probe path, so removing one key never hides another.
