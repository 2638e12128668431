//! The record format of the persistent tier: an 8-byte little-endian
//! expiry deadline (milliseconds since the Unix epoch, 0 for none) followed by
//! the encoded value.
use vstd::prelude::*;

use crate::time::{duration_as_millis, duration_nanos};

verus! {

/// The deadline of a record that never expires.
pub const NO_EXPIRY: u64 = 0;

/// Length of the deadline prefix.
pub const PREFIX_LEN: usize = 8;

/// The number eight little-endian bytes encode.
pub open spec fn le_value(b0: u8, b1: u8, b2: u8, b3: u8, b4: u8, b5: u8, b6: u8, b7: u8) -> u64 {
    (b0 as u64) | ((b1 as u64) << 8u64) | ((b2 as u64) << 16u64) | ((b3 as u64) << 24u64) | ((b4 as u64)
        << 32u64) | ((b5 as u64) << 40u64) | ((b6 as u64) << 48u64) | ((b7 as u64) << 56u64)
}

/// The eight little-endian bytes of `x`.
pub open spec fn le_bytes(x: u64) -> Seq<u8> {
    seq![
        (x & 0xff) as u8,
        ((x >> 8u64) & 0xff) as u8,
        ((x >> 16u64) & 0xff) as u8,
        ((x >> 24u64) & 0xff) as u8,
        ((x >> 32u64) & 0xff) as u8,
        ((x >> 40u64) & 0xff) as u8,
        ((x >> 48u64) & 0xff) as u8,
        ((x >> 56u64) & 0xff) as u8,
    ]
}

/// The deadline a record's prefix holds.
pub open spec fn record_deadline(raw: Seq<u8>) -> u64 {
    le_value(raw[0], raw[1], raw[2], raw[3], raw[4], raw[5], raw[6], raw[7])
}

/// A deadline has passed at `now_ms`.
pub open spec fn deadline_passed(deadline_ms: u64, now_ms: u64) -> bool {
    deadline_ms != NO_EXPIRY && now_ms >= deadline_ms
}

/// The deadline of a record written at `now_ms` with `ttl`: never without a
/// TTL, otherwise `now_ms` plus the TTL's whole milliseconds (truncated to 64
/// bits), saturating.
pub open spec fn deadline_spec(now_ms: u64, ttl: Option<std::time::Duration>) -> u64 {
    match ttl {
        None => NO_EXPIRY,
        Some(t) => {
            let ms = (duration_nanos(t) / 1_000_000) as u64;
            if now_ms + ms > u64::MAX {
                u64::MAX
            } else {
                (now_ms + ms) as u64
            }
        },
    }
}

/// What reading a stored record finds.
#[derive(Debug, Clone, Copy, PartialEq, Eq, Structural)]
pub enum RecordState {
    /// Too short to hold the deadline prefix.
    Malformed,
    /// The deadline has passed: the record reads as absent and may be removed.
    Expired,
    /// The record holds a live value after its prefix.
    Live,
}

pub open spec fn record_state_spec(raw: Seq<u8>, now_ms: u64) -> RecordState {
    if raw.len() < PREFIX_LEN {
        RecordState::Malformed
    } else if deadline_passed(record_deadline(raw), now_ms) {
        RecordState::Expired
    } else {
        RecordState::Live
    }
}

proof fn lemma_le_roundtrip(x: u64)
    by (bit_vector)
    ensures
        le_value(
            (x & 0xff) as u8,
            ((x >> 8u64) & 0xff) as u8,
            ((x >> 16u64) & 0xff) as u8,
            ((x >> 24u64) & 0xff) as u8,
            ((x >> 32u64) & 0xff) as u8,
            ((x >> 40u64) & 0xff) as u8,
            ((x >> 48u64) & 0xff) as u8,
            ((x >> 56u64) & 0xff) as u8,
        ) == x,
{
}

/// The deadline for a record written at `now_ms` with `ttl`.
pub fn deadline_for(now_ms: u64, ttl: Option<std::time::Duration>) -> (d: u64)
    ensures
        d == deadline_spec(now_ms, ttl),
{
    match ttl {
        None => NO_EXPIRY,
        Some(t) => {
            let ms = duration_as_millis(t);
            #[verifier::truncate]
            let ms64 = ms as u64;
            now_ms.saturating_add(ms64)
        },
    }
}

/// A deadline of 0 never passes; any other passes once the clock reaches it.
pub fn is_expired(deadline_ms: u64, now_ms: u64) -> (b: bool)
    ensures
        b == deadline_passed(deadline_ms, now_ms),
{
    deadline_ms != NO_EXPIRY && now_ms >= deadline_ms
}

/// The stored form of a value: its deadline, then its bytes.
pub fn encode_record(deadline_ms: u64, payload: &[u8]) -> (record: Vec<u8>)
    requires
        payload@.len() + PREFIX_LEN <= usize::MAX,
    ensures
        record@ == le_bytes(deadline_ms) + payload@,
{
    let mut record: Vec<u8> = Vec::with_capacity(PREFIX_LEN + payload.len());
    record.push((deadline_ms & 0xff) as u8);
    record.push(((deadline_ms >> 8) & 0xff) as u8);
    record.push(((deadline_ms >> 16) & 0xff) as u8);
    record.push(((deadline_ms >> 24) & 0xff) as u8);
    record.push(((deadline_ms >> 32) & 0xff) as u8);
    record.push(((deadline_ms >> 40) & 0xff) as u8);
    record.push(((deadline_ms >> 48) & 0xff) as u8);
    record.push(((deadline_ms >> 56) & 0xff) as u8);
    let ghost prefix = record@;
    let mut i: usize = 0;
    while i < payload.len()
        invariant
            prefix == le_bytes(deadline_ms),
            i <= payload@.len(),
            record@ == prefix + payload@.subrange(0, i as int),
        decreases payload@.len() - i,
    {
        record.push(payload[i]);
        i = i + 1;
        proof {
            assert(record@ =~= prefix + payload@.subrange(0, i as int));
        }
    }
    proof {
        assert(payload@.subrange(0, payload@.len() as int) =~= payload@);
    }
    record
}

/// The deadline held in a record's prefix.
pub fn decode_deadline(raw: &[u8]) -> (d: u64)
    requires
        raw@.len() >= PREFIX_LEN,
    ensures
        d == record_deadline(raw@),
{
    (raw[0] as u64) | ((raw[1] as u64) << 8) | ((raw[2] as u64) << 16) | ((raw[3] as u64) << 24) | ((raw[4] as u64)
        << 32) | ((raw[5] as u64) << 40) | ((raw[6] as u64) << 48) | ((raw[7] as u64) << 56)
}

/// Classifies a stored record at clock reading `now_ms`.
pub fn record_state(raw: &[u8], now_ms: u64) -> (s: RecordState)
    ensures
        s == record_state_spec(raw@, now_ms),
{
    if raw.len() < PREFIX_LEN {
        return RecordState::Malformed;
    }
    let deadline = decode_deadline(raw);
    if is_expired(deadline, now_ms) {
        RecordState::Expired
    } else {
        RecordState::Live
    }
}

/// The value bytes of a record.
pub fn record_payload(raw: &[u8]) -> (p: &[u8])
    requires
        raw@.len() >= PREFIX_LEN,
    ensures
        p@ == raw@.subrange(PREFIX_LEN as int, raw@.len() as int),
{
    vstd::slice::slice_subrange(raw, PREFIX_LEN, raw.len())
}

/// Whether a stored record counts as present: a record too short to hold a
/// deadline counts as present, any other while its deadline has not passed.
pub fn record_present(raw: &[u8], now_ms: u64) -> (b: bool)
    ensures
        b == (raw@.len() < PREFIX_LEN || !deadline_passed(record_deadline(raw@), now_ms)),
{
    if raw.len() < PREFIX_LEN {
        return true;
    }
    !is_expired(decode_deadline(raw), now_ms)
}

/// A record reads back as it was written: its deadline and its value bytes.
pub proof fn lemma_record_roundtrip(deadline_ms: u64, payload: Seq<u8>)
    ensures
        (le_bytes(deadline_ms) + payload).len() >= PREFIX_LEN,
        record_deadline(le_bytes(deadline_ms) + payload) == deadline_ms,
        (le_bytes(deadline_ms) + payload).subrange(PREFIX_LEN as int, (le_bytes(deadline_ms) + payload).len() as int)
            == payload,
{
    let r = le_bytes(deadline_ms) + payload;
    assert(r[0] == (deadline_ms & 0xff) as u8);
    assert(r[7] == ((deadline_ms >> 56u64) & 0xff) as u8);
    lemma_le_roundtrip(deadline_ms);
    assert(r.subrange(8, r.len() as int) =~= payload);
}

/// A record written without a TTL never expires; one written with a TTL is
/// live until its deadline.
pub proof fn lemma_record_expiry(now_ms: u64, ttl: Option<std::time::Duration>, later_ms: u64, payload: Seq<u8>)
    ensures
        ttl is None ==> record_state_spec(le_bytes(deadline_spec(now_ms, ttl)) + payload, later_ms)
            == RecordState::Live,
        ttl is Some && later_ms < deadline_spec(now_ms, ttl) ==> record_state_spec(
            le_bytes(deadline_spec(now_ms, ttl)) + payload,
            later_ms,
        ) == RecordState::Live,
{
    lemma_record_roundtrip(deadline_spec(now_ms, ttl), payload);
}

} // verus!
