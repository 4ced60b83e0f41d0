use velamq_bench::payload_stamp::{build_payload, parse_payload_timestamp};

#[test]
fn timestamp_payload_round_trips() {
    let ts = 1_775_000_000_000_000_000_i64;
    let payload = build_payload(64, 7, Some(ts));
    assert_eq!(payload.len(), 64);
    assert_eq!(parse_payload_timestamp(&payload), Some(ts));
}

#[test]
fn timestamp_payload_grows_when_size_is_too_small() {
    let ts = 1_775_000_000_000_000_000_i64;
    let payload = build_payload(4, 7, Some(ts));
    assert!(payload.len() > 4);
    assert_eq!(parse_payload_timestamp(&payload), Some(ts));
}

#[test]
fn payload_without_timestamp_has_exact_size_and_no_stamp() {
    let payload = build_payload(32, 3, None);
    assert_eq!(payload.len(), 32);
    assert_eq!(parse_payload_timestamp(&payload), None);
}

#[test]
fn stamp_round_trips_for_negative_and_zero_timestamps() {
    for ts in [0_i64, -1, i64::MIN, i64::MAX, 42] {
        let payload = build_payload(100, 9, Some(ts));
        assert_eq!(parse_payload_timestamp(&payload), Some(ts));
    }
}

#[test]
fn garbage_payload_has_no_timestamp() {
    assert_eq!(parse_payload_timestamp(b"hello world"), None);
    assert_eq!(parse_payload_timestamp(b""), None);
}
