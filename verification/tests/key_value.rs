use bytes::Bytes;
use mcpg_cluster_api::{
    counter_overflow, parse_counter, ClusterError, Entry, KvEntryWire, Timestamp,
};

#[test]
fn entry_wire_round_trip_preserves_bytes_and_ttl() {
    let at = Timestamp { unix_nanos: 1_700_000_000_123 * 1_000_000 };
    let entry = Entry { bytes: Bytes::from_static(b"hello"), expires_at: Some(at) };
    let wire = KvEntryWire::from_entry(&entry);
    assert_eq!(wire.expires_at_unix_ms, Some(1_700_000_000_123));
    let decoded = wire.into_entry();
    assert_eq!(decoded.bytes.as_ref(), b"hello");
    assert_eq!(decoded.expires_at, Some(at));
}

#[test]
fn entry_wire_no_ttl_round_trips_as_none() {
    let entry = Entry { bytes: Bytes::from_static(b"x"), expires_at: None };
    let wire = KvEntryWire::from_entry(&entry);
    assert_eq!(wire.expires_at_unix_ms, None);
    assert_eq!(wire.into_entry().expires_at, None);
}

fn wire_ms(unix_nanos: i128) -> Option<u64> {
    let entry = Entry { bytes: Bytes::new(), expires_at: Some(Timestamp { unix_nanos }) };
    KvEntryWire::from_entry(&entry).expires_at_unix_ms
}

#[test]
fn expiry_before_the_epoch_clamps_to_zero() {
    assert_eq!(wire_ms(-1), Some(0));
    assert_eq!(wire_ms(-5_000_000_000), Some(0));
    assert_eq!(wire_ms(i128::MIN), Some(0));
    assert_eq!(wire_ms(0), Some(0));
}

#[test]
fn expiry_beyond_the_wire_clamps_to_the_largest() {
    let largest = u64::MAX as i128 * 1_000_000;
    assert_eq!(wire_ms(largest), Some(u64::MAX));
    assert_eq!(wire_ms(largest + 1_000_000), Some(u64::MAX));
    assert_eq!(wire_ms(largest - 1), Some(u64::MAX - 1));
    assert_eq!(wire_ms(i128::MAX), Some(u64::MAX));
}

#[test]
fn expiry_rounds_down_to_the_millisecond() {
    assert_eq!(wire_ms(999_999), Some(0));
    assert_eq!(wire_ms(1_000_000), Some(1));
    assert_eq!(wire_ms(1_999_999), Some(1));
}

#[test]
fn wire_form_survives_decoding() {
    for ms in [None, Some(0), Some(1), Some(1_700_000_000_123), Some(u64::MAX)] {
        let wire = KvEntryWire { bytes: vec![1, 2, 3], expires_at_unix_ms: ms };
        assert_eq!(KvEntryWire::from_entry(&wire.clone().into_entry()), wire);
    }
}

#[test]
fn entry_clone_keeps_bytes_and_expiry() {
    let entry = Entry {
        bytes: Bytes::from_static(b"v"),
        expires_at: Some(Timestamp { unix_nanos: 7 }),
    };
    let copy = entry.clone();
    assert_eq!(copy.bytes.as_ref(), b"v");
    assert_eq!(copy.expires_at, Some(Timestamp { unix_nanos: 7 }));
}

#[test]
fn counters_read_back_as_stored() {
    for v in [0, 7, -7, 10, 1234567890, i64::MAX, i64::MIN, i64::MAX - 1, i64::MIN + 1] {
        assert_eq!(parse_counter("ctr", v.to_string().as_bytes()), Ok(v));
    }
    assert_eq!(parse_counter("ctr", b"+12"), Ok(12));
    assert_eq!(parse_counter("ctr", b"-0"), Ok(0));
    assert_eq!(parse_counter("ctr", b"000000000000000000000000000000000042"), Ok(42));
}

#[test]
fn other_bytes_are_no_counter() {
    let refused = Err(ClusterError::Precondition {
        reason: "value of `ctr` is not a base-10 integer".into(),
    });
    for bytes in [
        &b""[..],
        b"-",
        b"+",
        b"not-a-number",
        b" 1",
        b"1 ",
        b"1.5",
        b"--1",
        b"0x10",
        b"9223372036854775808",
        b"-9223372036854775809",
        b"99999999999999999999999999999999999999999999999999",
        &[0xff, 0xfe],
    ] {
        assert_eq!(parse_counter("ctr", bytes), refused);
    }
}

#[test]
fn counter_overflow_is_a_precondition() {
    let e = counter_overflow("ctr");
    assert_eq!(e.kind_label(), "precondition");
    assert!(e.to_string().contains("`ctr`"));
}
