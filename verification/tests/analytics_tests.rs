use packet_pipeline::analytics::{
    compute_total_size, FetchedRecord, IndexError, IndexRegistry,
};
use packet_pipeline::timestamp::{parse_timestamp, validate_interval, Timestamp};

fn doc(ts: &str, length: Option<&str>) -> FetchedRecord {
    FetchedRecord {
        timestamp: ts.as_bytes().to_vec(),
        length: length.map(|s| s.as_bytes().to_vec()),
    }
}

#[test]
fn create_index_is_idempotent() {
    let mut registry = IndexRegistry::new();
    assert_eq!(registry.create_index(String::from("timestamp"), 1), Ok(()));
    // The identical request succeeds again and raises no error.
    assert_eq!(registry.create_index(String::from("timestamp"), 1), Ok(()));
}

#[test]
fn create_timestamp_index_is_idempotent() {
    let mut registry = IndexRegistry::new();
    assert_eq!(registry.create_timestamp_index(), Ok(()));
    assert_eq!(registry.create_timestamp_index(), Ok(()));
}

#[test]
fn create_index_accepts_whitelisted_fields() {
    let mut registry = IndexRegistry::new();
    for field in [
        "_id", "number", "timestamp", "protocol", "source_mac", "source_ip", "source_port",
        "dest_mac", "dest_ip", "dest_port", "length", "payload",
    ] {
        assert_eq!(registry.create_index(String::from(field), 1), Ok(()));
        assert_eq!(registry.create_index(String::from(field), -1), Ok(()));
    }
}

#[test]
fn create_index_rejects_bad_direction() {
    let mut registry = IndexRegistry::new();
    assert_eq!(
        registry.create_index(String::from("timestamp"), 2),
        Err(IndexError::InvalidDirection)
    );
    assert_eq!(
        registry.create_index(String::from("timestamp"), 0),
        Err(IndexError::InvalidDirection)
    );
}

#[test]
fn create_index_rejects_unknown_field() {
    let mut registry = IndexRegistry::new();
    assert_eq!(
        registry.create_index(String::from("checksum"), 1),
        Err(IndexError::InvalidField)
    );
}

#[test]
fn create_index_checks_direction_first() {
    let mut registry = IndexRegistry::new();
    assert_eq!(
        registry.create_index(String::from("checksum"), 9),
        Err(IndexError::InvalidDirection)
    );
}

#[test]
fn total_of_three_records_skips_the_unparseable_one() {
    // Lengths 64, 128 and "bad", all inside the interval: the total is
    // 192 and the bad record is skipped without error.
    let t0 = "2024-03-18 10:00:00.000000000";
    let t1 = "2024-03-18 12:00:00.000000000";
    let docs = vec![
        doc("2024-03-18 10:30:00.000000000", Some("64")),
        doc("2024-03-18 11:00:00.000000000", Some("128")),
        doc("2024-03-18 11:30:00.000000000", Some("bad")),
    ];
    let (total, metric) = compute_total_size(&docs, &t0.as_bytes().to_vec(), &t1.as_bytes().to_vec());
    assert_eq!(total, 192);
    assert_eq!(metric.value, 192);
    assert_eq!(metric.start_timestamp, t0.as_bytes().to_vec());
    assert_eq!(metric.end_timestamp, t1.as_bytes().to_vec());
    assert_eq!(metric.metric_name, b"size".to_vec());
}

#[test]
fn empty_interval_totals_zero_and_still_yields_a_metric() {
    let t0 = "2024-03-18 10:00:00.000000000";
    let t1 = "2024-03-18 12:00:00.000000000";
    let docs = vec![
        doc("2024-03-18 09:00:00.000000000", Some("64")),
        doc("2024-03-18 13:00:00.000000000", Some("128")),
    ];
    let (total, metric) = compute_total_size(&docs, &t0.as_bytes().to_vec(), &t1.as_bytes().to_vec());
    assert_eq!(total, 0);
    assert_eq!(metric.value, 0);
    assert_eq!(metric.metric_name, b"size".to_vec());
}

#[test]
fn no_documents_totals_zero() {
    let t0 = "2024-03-18 10:00:00.000000000";
    let t1 = "2024-03-18 12:00:00.000000000";
    let docs = Vec::new();
    let (total, metric) = compute_total_size(&docs, &t0.as_bytes().to_vec(), &t1.as_bytes().to_vec());
    assert_eq!(total, 0);
    assert_eq!(metric.value, 0);
}

#[test]
fn interval_boundaries_are_inclusive() {
    let t0 = "2024-03-18 10:00:00.000000000";
    let t1 = "2024-03-18 12:00:00.000000000";
    let docs = vec![doc(t0, Some("5")), doc(t1, Some("7"))];
    let (total, _) = compute_total_size(&docs, &t0.as_bytes().to_vec(), &t1.as_bytes().to_vec());
    assert_eq!(total, 12);
}

#[test]
fn missing_length_field_is_skipped() {
    let t0 = "2024-03-18 10:00:00.000000000";
    let t1 = "2024-03-18 12:00:00.000000000";
    let docs = vec![
        doc("2024-03-18 11:00:00.000000000", None),
        doc("2024-03-18 11:00:00.000000000", Some("40")),
    ];
    let (total, _) = compute_total_size(&docs, &t0.as_bytes().to_vec(), &t1.as_bytes().to_vec());
    assert_eq!(total, 40);
}

#[test]
fn negative_and_oversized_lengths_are_unparseable() {
    let t0 = "2024-03-18 10:00:00.000000000";
    let t1 = "2024-03-18 12:00:00.000000000";
    let docs = vec![
        doc("2024-03-18 11:00:00.000000000", Some("-5")),
        doc("2024-03-18 11:00:00.000000000", Some("9223372036854775808")),
        doc("2024-03-18 11:00:00.000000000", Some("9")),
    ];
    let (total, _) = compute_total_size(&docs, &t0.as_bytes().to_vec(), &t1.as_bytes().to_vec());
    assert_eq!(total, 9);
}

#[test]
fn total_saturates_instead_of_overflowing() {
    let t0 = "2024-03-18 10:00:00.000000000";
    let t1 = "2024-03-18 12:00:00.000000000";
    let docs = vec![
        doc("2024-03-18 11:00:00.000000000", Some("9223372036854775807")),
        doc("2024-03-18 11:00:00.000000000", Some("2")),
    ];
    let (total, _) = compute_total_size(&docs, &t0.as_bytes().to_vec(), &t1.as_bytes().to_vec());
    assert_eq!(total, i64::MAX);
}

#[test]
fn validate_interval_needs_both_boundaries() {
    let good = "2024-03-18 10:00:00".as_bytes().to_vec();
    let bad = "2024-03-18".as_bytes().to_vec();
    assert!(validate_interval(&good, &good).is_some());
    assert!(validate_interval(&good, &bad).is_none());
    assert!(validate_interval(&bad, &good).is_none());
    let (a, b) = validate_interval(&good, &good).unwrap();
    let expect = Timestamp {
        year: 2024,
        month: 3,
        day: 18,
        hour: 10,
        minute: 0,
        second: 0,
        nanosecond: 0,
    };
    assert_eq!(a, expect);
    assert_eq!(b, expect);
    // The parser agrees with itself.
    assert_eq!(parse_timestamp(&good), Some(expect));
}
