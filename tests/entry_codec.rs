use ttl_entry::entry::{
    decode_payload, encode_payload, now_millis, saturated_millis, timestamp_parts,
};
use ttl_entry::envelope::{decode_envelope, encode_envelope};
use ttl_entry::{Entry, EntryError, EntryTrait};

fn byte_entry(key: &str, value: Option<&str>, expire_at_ms: i64) -> Entry<Vec<u8>, Vec<u8>> {
    Entry {
        key: key.as_bytes().to_vec(),
        value: value.map(|v| v.as_bytes().to_vec()),
        expire_at_ms,
    }
}

fn json_entry(key: &str, value: Option<&str>, expire_at_ms: i64) -> Entry<Vec<u8>, Vec<u8>> {
    Entry {
        key: serde_json::to_vec(key).unwrap(),
        value: value.map(|v| serde_json::to_vec(v).unwrap()),
        expire_at_ms,
    }
}

#[test]
fn encoding_has_the_documented_layout() {
    let e = byte_entry("a", Some("b"), 1);
    let expected: Vec<u8> = vec![
        1, 0, 0, 0, 0, 0, 0, 0, b'a', 2, 0, 0, 0, 0, 0, 0, 0, 1, b'b', 1, 0, 0, 0, 0, 0, 0, 0,
    ];
    assert_eq!(e.encode(), expected);
}

#[test]
fn tombstone_payload_is_a_single_zero() {
    assert_eq!(encode_payload(&None), vec![0u8]);
    assert_eq!(encode_payload(&Some(vec![7u8, 8])), vec![1u8, 7, 8]);
}

#[test]
fn negative_expiry_is_stored_as_its_bit_pattern() {
    let e = byte_entry("", None, -1);
    let bytes = e.encode();
    assert_eq!(&bytes[bytes.len() - 8..], &[0xffu8; 8]);
    assert_eq!(Entry::decode(&bytes).unwrap(), e);
}

#[test]
fn round_trip_keeps_key_value_and_expiry() {
    for e in [
        byte_entry("k", Some("v"), 0),
        byte_entry("", Some(""), i64::MAX),
        byte_entry("some key", None, i64::MIN),
        json_entry("user:42", Some("active"), 1_700_000_000_000),
    ] {
        let d = Entry::decode(&e.encode()).unwrap();
        assert_eq!(d, e);
    }
}

#[test]
fn tombstone_survives_round_trip() {
    let e = byte_entry("gone", None, 5);
    let d = Entry::decode(&e.encode()).unwrap();
    assert!(d.value.is_none());
    assert_eq!(d.key, b"gone".to_vec());
    assert_eq!(d.expire_at_ms, 5);
}

#[test]
fn empty_value_is_not_a_tombstone() {
    let e = byte_entry("k", Some(""), 5);
    let d = Entry::decode(&e.encode()).unwrap();
    assert_eq!(d.value, Some(Vec::new()));
}

#[test]
fn truncated_encoding_fails_to_decode() {
    for e in [
        byte_entry("k", Some("v"), 9),
        byte_entry("", None, 0),
        json_entry("user:42", Some("active"), 1_700_000_000_000),
    ] {
        let mut bytes = e.encode();
        bytes.pop();
        assert_eq!(Entry::decode(&bytes), Err(EntryError::Decoding));
    }
}

#[test]
fn extra_trailing_byte_fails_to_decode() {
    let mut bytes = byte_entry("k", Some("v"), 9).encode();
    bytes.push(0);
    assert_eq!(Entry::decode(&bytes), Err(EntryError::Decoding));
}

#[test]
fn empty_input_fails_to_decode() {
    assert_eq!(Entry::decode(&[]), Err(EntryError::Decoding));
}

#[test]
fn oversized_key_length_fails_to_decode() {
    let mut bytes = byte_entry("k", Some("v"), 9).encode();
    bytes[0] = 200;
    assert_eq!(Entry::decode(&bytes), Err(EntryError::Decoding));
    bytes[7] = 0xff;
    assert_eq!(Entry::decode(&bytes), Err(EntryError::Decoding));
}

#[test]
fn unknown_payload_tag_fails_to_decode() {
    let envelope = encode_envelope(b"k", &[2u8, 1], 3);
    assert!(decode_envelope(&envelope).is_ok());
    assert_eq!(Entry::decode(&envelope), Err(EntryError::Decoding));
    let empty_payload = encode_envelope(b"k", &[], 3);
    assert_eq!(Entry::decode(&empty_payload), Err(EntryError::Decoding));
}

#[test]
fn payload_decoding_is_exact() {
    assert_eq!(decode_payload(&[0]), Ok(None));
    assert_eq!(decode_payload(&[1, 4, 5]), Ok(Some(vec![4u8, 5])));
    assert_eq!(decode_payload(&[1]), Ok(Some(Vec::new())));
    assert_eq!(decode_payload(&[0, 0]), Err(EntryError::Decoding));
    assert_eq!(decode_payload(&[]), Err(EntryError::Decoding));
}

#[test]
fn envelope_round_trip() {
    let bytes = encode_envelope(b"key", b"data", 42);
    let env = decode_envelope(&bytes).unwrap();
    assert_eq!(env.key, b"key".to_vec());
    assert_eq!(env.value_data, b"data".to_vec());
    assert_eq!(env.expire_at_ms, 42);
}

#[test]
fn user_scenario_round_trips_and_expires() {
    let e = json_entry("user:42", Some("active"), 1_700_000_000_000);
    let d = Entry::decode(&e.encode()).unwrap();
    assert_eq!(d, e);
    let key: String = serde_json::from_slice(&d.key).unwrap();
    let value: String = serde_json::from_slice(d.value.as_ref().unwrap()).unwrap();
    assert_eq!(key, "user:42");
    assert_eq!(value, "active");
    assert!(d.is_outdated_at(1_800_000_000_000));
    assert!(!d.is_outdated_at(1_600_000_000_000));
}

#[test]
fn expiry_boundary_counts_as_expired() {
    let e = byte_entry("k", None, 1000);
    assert!(!e.is_outdated_at(999));
    assert!(e.is_outdated_at(1000));
    assert!(e.is_outdated_at(1001));
    assert!(!e.is_outdated_at(i64::MIN));
    assert!(e.is_outdated_at(i64::MAX));
}

#[test]
fn expiry_is_monotone_in_time() {
    let e = byte_entry("k", Some("v"), 0);
    let mut seen_outdated = false;
    for now in [-5i64, -1, 0, 1, 7, 1_000_000] {
        let r = e.is_outdated_at(now);
        assert!(!seen_outdated || r);
        seen_outdated = r;
    }
    assert!(seen_outdated);
}

#[test]
fn is_outdated_reads_the_clock() {
    let past: Entry<String, String> = Entry { key: "a".to_string(), value: None, expire_at_ms: 1_600_000_000_000 };
    let future: Entry<String, String> =
        Entry { key: "b".to_string(), value: None, expire_at_ms: i64::MAX };
    assert!(past.is_outdated());
    assert!(!future.is_outdated());
}

#[test]
fn get_key_returns_an_independent_copy() {
    let e: Entry<String, String> = Entry {
        key: "user:42".to_string(),
        value: Some("active".to_string()),
        expire_at_ms: 1_700_000_000_000,
    };
    let mut k = e.get_key();
    assert_eq!(k, "user:42");
    k.push_str(":changed");
    assert_eq!(e.key, "user:42");
    drop(k);
    assert_eq!(e.get_key(), "user:42");
}

#[test]
fn earliest_expiry_has_always_passed() {
    let m: Entry<String, String> = Entry { key: "k".to_string(), value: None, expire_at_ms: i64::MIN };
    assert!(m.is_outdated());
}

#[test]
fn clock_readings_become_signed_timestamps() {
    assert_eq!(timestamp_parts(Ok((1_700_000_000, 250_000_000))), Some((1_700_000_000, 250_000_000)));
    assert_eq!(timestamp_parts(Err((5, 0))), Some((-5, 0)));
    assert_eq!(timestamp_parts(Err((5, 250_000_000))), Some((-6, 750_000_000)));
    assert_eq!(timestamp_parts(Ok((i64::MAX as u64, 0))), Some((i64::MAX, 0)));
    assert_eq!(timestamp_parts(Ok((i64::MAX as u64 + 1, 0))), None);
    assert_eq!(timestamp_parts(Err((u64::MAX, 1))), None);
}

#[test]
fn unrepresentable_readings_saturate() {
    assert_eq!(saturated_millis(true, Some(42)), 42);
    assert_eq!(saturated_millis(false, Some(-42)), -42);
    assert_eq!(saturated_millis(true, None), i64::MAX);
    assert_eq!(saturated_millis(false, None), i64::MIN);
}

#[test]
fn clock_reading_is_recent() {
    let now = now_millis();
    assert!(now > 1_600_000_000_000);
    assert!(now < 10_000_000_000_000);
}
