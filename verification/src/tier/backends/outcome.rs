//! How a tier backend that stores bytes turns what its store answered into
//! what the tier reports, and keeps its own health: a call that went through
//! ends the failure streak, a failed call lengthens it.
use vstd::prelude::*;

use crate::error::CacheError;
use crate::tier::backends::sled_record::{
    deadline_passed, record_deadline, record_payload, record_state, record_state_spec, RecordState, PREFIX_LEN,
};
use crate::tier::backends::ByteValue;
use crate::tier::tier_trait::{TierHealth, FULL_HEALTH_SCORE};
use crate::time::system_now;

verus! {

/// `b` is the health `a` becomes after a call that went through.
pub open spec fn went_through(a: TierHealth, b: TierHealth) -> bool {
    &&& b.consecutive_failures == 0
    &&& b.health_score == FULL_HEALTH_SCORE
    &&& b.last_failure_timestamp == a.last_failure_timestamp
}

/// `b` is the health `a` becomes after a failed call.
pub open spec fn failed(a: TierHealth, b: TierHealth) -> bool {
    &&& b.consecutive_failures == a.consecutive_failures + 1
    &&& b.last_failure_timestamp is Some
    &&& b.health_score == (if a.health_score >= 1 {
        a.health_score - 1
    } else {
        0
    })
}

/// A call that went through.
pub fn succeed(health: &mut TierHealth)
    ensures
        went_through(*old(health), *final(health)),
{
    health.record_success();
}

/// A failed call, at the current wall-clock time.
pub fn fail(health: &mut TierHealth)
    requires
        old(health).consecutive_failures < u64::MAX,
    ensures
        failed(*old(health), *final(health)),
{
    health.record_failure(system_now());
}

/// A write or removal that went through (`done`) is `Ok`; one that failed is
/// `TierUnavailable`.
pub fn finish_unit(health: &mut TierHealth, done: bool) -> (r: Result<(), CacheError>)
    requires
        !done ==> old(health).consecutive_failures < u64::MAX,
    ensures
        done ==> r == Ok::<(), CacheError>(()) && went_through(*old(health), *final(health)),
        !done ==> r == Err::<(), CacheError>(CacheError::TierUnavailable) && failed(*old(health), *final(health)),
{
    if done {
        succeed(health);
        Ok(())
    } else {
        fail(health);
        Err(CacheError::TierUnavailable)
    }
}

/// A yes-or-no answer of the store (`None` when the call failed).
pub fn finish_bool(health: &mut TierHealth, answer: Option<bool>) -> (r: Result<bool, CacheError>)
    requires
        answer is None ==> old(health).consecutive_failures < u64::MAX,
    ensures
        answer matches Some(b) ==> r == Ok::<bool, CacheError>(b) && went_through(*old(health), *final(health)),
        answer is None ==> r == Err::<bool, CacheError>(CacheError::TierUnavailable) && failed(
            *old(health),
            *final(health),
        ),
{
    match answer {
        Some(b) => {
            succeed(health);
            Ok(b)
        },
        None => {
            fail(health);
            Err(CacheError::TierUnavailable)
        },
    }
}

/// The outcome of a write that carries its own error: passed through.
pub fn finish_write(health: &mut TierHealth, written: Result<(), CacheError>) -> (r: Result<(), CacheError>)
    requires
        written is Err ==> old(health).consecutive_failures < u64::MAX,
    ensures
        r == written,
        written is Ok ==> went_through(*old(health), *final(health)),
        written is Err ==> failed(*old(health), *final(health)),
{
    if written.is_ok() {
        succeed(health);
    } else {
        fail(health);
    }
    written
}

/// A read of stored bytes: found bytes decode to the value (a decoding
/// failure is `SerializationFailed`), nothing found is `None`, and a failed
/// read passes its error on.
pub fn finish_read<V: ByteValue>(health: &mut TierHealth, fetched: Result<Option<Vec<u8>>, CacheError>) -> (r: Result<
    Option<V>,
    CacheError,
>)
    requires
        fetched is Err ==> old(health).consecutive_failures < u64::MAX,
    ensures
        fetched is Ok ==> went_through(*old(health), *final(health)),
        fetched is Err ==> failed(*old(health), *final(health)),
        match fetched {
            Ok(Some(b)) => {
                &&& r is Ok <==> V::decodable(b@)
                &&& r matches Ok(v) ==> (v matches Some(x) && x.encoding() == b@)
                &&& r matches Err(e) ==> e == CacheError::SerializationFailed
            },
            Ok(None) => r == Ok::<Option<V>, CacheError>(None),
            Err(e) => r == Err::<Option<V>, CacheError>(e),
        },
{
    match fetched {
        Ok(Some(bytes)) => {
            succeed(health);
            match V::decode_bytes(bytes.as_slice()) {
                Ok(v) => Ok(Some(v)),
                Err(e) => Err(e),
            }
        },
        Ok(None) => {
            succeed(health);
            Ok(None)
        },
        Err(e) => {
            fail(health);
            Err(e)
        },
    }
}

/// Whether a read found anything; a failed read passes its error on.
pub fn finish_presence(health: &mut TierHealth, fetched: Result<Option<Vec<u8>>, CacheError>) -> (r: Result<
    bool,
    CacheError,
>)
    requires
        fetched is Err ==> old(health).consecutive_failures < u64::MAX,
    ensures
        fetched is Ok ==> went_through(*old(health), *final(health)),
        fetched is Err ==> failed(*old(health), *final(health)),
        match fetched {
            Ok(found) => r == Ok::<bool, CacheError>(found is Some),
            Err(e) => r == Err::<bool, CacheError>(e),
        },
{
    match fetched {
        Ok(found) => {
            succeed(health);
            Ok(found.is_some())
        },
        Err(e) => {
            fail(health);
            Err(e)
        },
    }
}

/// A read of a persistent record at clock reading `now_ms` (`None` when the
/// read failed): a record too short to hold its deadline is
/// `SerializationFailed` and a failure; an expired record reads as absent and
/// is to be removed (the `bool`); a live one decodes to its value.
pub fn read_record<V: ByteValue>(health: &mut TierHealth, fetched: Option<Option<Vec<u8>>>, now_ms: u64) -> (r: (
    Result<Option<V>, CacheError>,
    bool,
))
    requires
        fetched is None ==> old(health).consecutive_failures < u64::MAX,
        fetched matches Some(Some(raw)) && raw@.len() < PREFIX_LEN ==> old(health).consecutive_failures < u64::MAX,
    ensures
        match fetched {
            None => r == (Err::<Option<V>, CacheError>(CacheError::TierUnavailable), false) && failed(
                *old(health),
                *final(health),
            ),
            Some(None) => r == (Ok::<Option<V>, CacheError>(None), false) && went_through(*old(health), *final(health)),
            Some(Some(raw)) => match record_state_spec(raw@, now_ms) {
                RecordState::Malformed => r == (Err::<Option<V>, CacheError>(CacheError::SerializationFailed), false)
                    && failed(*old(health), *final(health)),
                RecordState::Expired => r == (Ok::<Option<V>, CacheError>(None), true) && went_through(
                    *old(health),
                    *final(health),
                ),
                RecordState::Live => {
                    let payload = raw@.subrange(PREFIX_LEN as int, raw@.len() as int);
                    &&& went_through(*old(health), *final(health))
                    &&& !r.1
                    &&& r.0 is Ok <==> V::decodable(payload)
                    &&& r.0 matches Ok(v) ==> (v matches Some(x) && x.encoding() == payload)
                    &&& r.0 matches Err(e) ==> e == CacheError::SerializationFailed
                },
            },
        },
{
    match fetched {
        None => {
            fail(health);
            (Err(CacheError::TierUnavailable), false)
        },
        Some(None) => {
            succeed(health);
            (Ok(None), false)
        },
        Some(Some(raw)) => match record_state(raw.as_slice(), now_ms) {
            RecordState::Malformed => {
                fail(health);
                (Err(CacheError::SerializationFailed), false)
            },
            RecordState::Expired => {
                succeed(health);
                (Ok(None), true)
            },
            RecordState::Live => {
                succeed(health);
                match V::decode_bytes(record_payload(raw.as_slice())) {
                    Ok(v) => (Ok(Some(v)), false),
                    Err(e) => (Err(e), false),
                }
            },
        },
    }
}

/// Whether a persistent record is present at clock reading `now_ms` (`None`
/// when the read failed): a record too short to hold its deadline counts as
/// present, any other while its deadline has not passed.
pub fn record_presence(health: &mut TierHealth, fetched: Option<Option<Vec<u8>>>, now_ms: u64) -> (r: Result<
    bool,
    CacheError,
>)
    requires
        fetched is None ==> old(health).consecutive_failures < u64::MAX,
    ensures
        match fetched {
            None => r == Err::<bool, CacheError>(CacheError::TierUnavailable) && failed(*old(health), *final(health)),
            Some(None) => r == Ok::<bool, CacheError>(false) && went_through(*old(health), *final(health)),
            Some(Some(raw)) => r == Ok::<bool, CacheError>(
                raw@.len() < PREFIX_LEN || !deadline_passed(record_deadline(raw@), now_ms),
            ) && went_through(*old(health), *final(health)),
        },
{
    match fetched {
        None => {
            fail(health);
            Err(CacheError::TierUnavailable)
        },
        Some(None) => {
            succeed(health);
            Ok(false)
        },
        Some(Some(raw)) => {
            succeed(health);
            Ok(crate::tier::backends::sled_record::record_present(raw.as_slice(), now_ms))
        },
    }
}

} // verus!
