use thesix::tier::backends::outcome::{
    finish_bool, finish_presence, finish_read, finish_unit, finish_write, read_record, record_presence,
};
use thesix::tier::backends::sled_record::{
    decode_deadline, deadline_for, encode_record, is_expired, record_payload, record_present, record_state,
    RecordState, NO_EXPIRY,
};
use thesix::{ByteValue, CacheError, TierHealth};

#[test]
fn test_byte_value_roundtrip() {
    let original = b"hello-backend".to_vec();
    let encoded = ByteValue::encode_bytes(&original).unwrap();
    let decoded = <Vec<u8> as ByteValue>::decode_bytes(&encoded).unwrap();
    assert_eq!(original, decoded);

    let s = "string-value".to_string();
    let bytes = ByteValue::encode_bytes(&s).unwrap();
    let back = <String as ByteValue>::decode_bytes(&bytes).unwrap();
    assert_eq!(s, back);
}

#[test]
fn string_decode_rejects_invalid_utf8() {
    let r = <String as ByteValue>::decode_bytes(&[0xff, 0xfe]);
    assert_eq!(r, Err(CacheError::SerializationFailed));
    assert_eq!(<String as ByteValue>::decode_bytes("héllo".as_bytes()), Ok("héllo".to_string()));
}

#[test]
fn sled_record_roundtrip() {
    let record = encode_record(0x0102_0304_0506_0708, b"payload");
    assert_eq!(&record[..8], &[8, 7, 6, 5, 4, 3, 2, 1]);
    assert_eq!(decode_deadline(&record), 0x0102_0304_0506_0708);
    assert_eq!(record_payload(&record), b"payload");
}

#[test]
fn sled_record_expiry() {
    let ttl = std::time::Duration::from_millis(1500);
    assert_eq!(deadline_for(1000, None), NO_EXPIRY);
    assert_eq!(deadline_for(1000, Some(ttl)), 2500);
    assert_eq!(deadline_for(u64::MAX - 1, Some(ttl)), u64::MAX);
    assert!(!is_expired(NO_EXPIRY, u64::MAX));
    assert!(!is_expired(2500, 2499));
    assert!(is_expired(2500, 2500));
    let record = encode_record(2500, b"v");
    assert_eq!(record_state(&record, 2499), RecordState::Live);
    assert_eq!(record_state(&record, 2500), RecordState::Expired);
    assert_eq!(record_state(&[1, 2, 3], 0), RecordState::Malformed);
    assert!(record_present(&[1, 2, 3], 0));
    assert!(!record_present(&record, 3000));
}

#[test]
fn backend_health_follows_outcomes() {
    let mut h = TierHealth::default();
    assert_eq!(finish_unit(&mut h, false), Err(CacheError::TierUnavailable));
    assert_eq!(finish_unit(&mut h, false), Err(CacheError::TierUnavailable));
    assert_eq!(h.consecutive_failures, 2);
    assert!(h.last_failure_timestamp.is_some());
    assert_eq!(finish_unit(&mut h, true), Ok(()));
    assert_eq!(h.consecutive_failures, 0);
    assert_eq!(h.health_score, 10);
    assert_eq!(finish_bool(&mut h, Some(true)), Ok(true));
    assert_eq!(finish_bool(&mut h, None), Err(CacheError::TierUnavailable));
    assert_eq!(h.health_score, 9);
    assert_eq!(finish_write(&mut h, Err(CacheError::Timeout)), Err(CacheError::Timeout));
    assert_eq!(h.consecutive_failures, 2);
}

#[test]
fn backend_reads_decode_or_pass_errors() {
    let mut h = TierHealth::default();
    let r: Result<Option<String>, CacheError> = finish_read(&mut h, Ok(Some(b"origin-value".to_vec())));
    assert_eq!(r, Ok(Some("origin-value".to_string())));
    let r: Result<Option<String>, CacheError> = finish_read(&mut h, Ok(Some(vec![0xff])));
    assert_eq!(r, Err(CacheError::SerializationFailed));
    let r: Result<Option<String>, CacheError> = finish_read(&mut h, Ok(None));
    assert_eq!(r, Ok(None));
    let r: Result<Option<String>, CacheError> = finish_read(&mut h, Err(CacheError::PolicyDenied));
    assert_eq!(r, Err(CacheError::PolicyDenied));
    assert_eq!(h.consecutive_failures, 1);
    assert_eq!(finish_presence(&mut h, Ok(Some(vec![]))), Ok(true));
    assert_eq!(finish_presence(&mut h, Ok(None)), Ok(false));
    assert_eq!(h.consecutive_failures, 0);
}

#[test]
fn persistent_records_read_back() {
    let mut h = TierHealth::default();
    let live = encode_record(NO_EXPIRY, b"sled-value");
    let (r, expired): (Result<Option<Vec<u8>>, CacheError>, bool) = read_record(&mut h, Some(Some(live)), 10);
    assert_eq!(r, Ok(Some(b"sled-value".to_vec())));
    assert!(!expired);
    let old = encode_record(5, b"gone");
    let (r, expired): (Result<Option<Vec<u8>>, CacheError>, bool) = read_record(&mut h, Some(Some(old.clone())), 10);
    assert_eq!(r, Ok(None));
    assert!(expired);
    let (r, _): (Result<Option<Vec<u8>>, CacheError>, bool) = read_record(&mut h, Some(Some(vec![1])), 10);
    assert_eq!(r, Err(CacheError::SerializationFailed));
    let (r, _): (Result<Option<Vec<u8>>, CacheError>, bool) = read_record(&mut h, None, 10);
    assert_eq!(r, Err(CacheError::TierUnavailable));
    assert_eq!(h.consecutive_failures, 2);
    assert_eq!(record_presence(&mut h, Some(Some(old)), 10), Ok(false));
    assert_eq!(record_presence(&mut h, Some(None), 10), Ok(false));
    assert_eq!(record_presence(&mut h, None, 10), Err(CacheError::TierUnavailable));
}
