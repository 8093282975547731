use packet_pipeline::addr::{format_ip, format_mac, IpAddress, MacAddress};
use packet_pipeline::bytes::{bytes_le, format_u64, parse_dec_i64};
use packet_pipeline::clock::current_timestamp;
use packet_pipeline::timestamp::{format_timestamp, parse_timestamp, Timestamp};

#[test]
fn decimal_formatting_is_exact() {
    assert_eq!(format_u64(0), b"0".to_vec());
    assert_eq!(format_u64(7), b"7".to_vec());
    assert_eq!(format_u64(12345), b"12345".to_vec());
    assert_eq!(format_u64(u64::MAX), b"18446744073709551615".to_vec());
}

#[test]
fn decimal_parsing_accepts_exactly_digit_runs() {
    assert_eq!(parse_dec_i64(&b"0".to_vec()), Some(0));
    assert_eq!(parse_dec_i64(&b"123".to_vec()), Some(123));
    assert_eq!(parse_dec_i64(&b"0064".to_vec()), Some(64));
    assert_eq!(parse_dec_i64(&b"9223372036854775807".to_vec()), Some(i64::MAX));
    assert_eq!(parse_dec_i64(&b"9223372036854775808".to_vec()), None);
    assert_eq!(parse_dec_i64(&b"".to_vec()), None);
    assert_eq!(parse_dec_i64(&b"bad".to_vec()), None);
    assert_eq!(parse_dec_i64(&b"-5".to_vec()), None);
    assert_eq!(parse_dec_i64(&b"12 ".to_vec()), None);
}

#[test]
fn lexicographic_order_matches_the_store() {
    let a = b"2024-03-18 10:00:00".to_vec();
    let b = b"2024-03-18 11:00:00".to_vec();
    assert!(bytes_le(&a, &b));
    assert!(!bytes_le(&b, &a));
    assert!(bytes_le(&a, &a));
    // A prefix sorts before its extensions.
    let p = b"2024".to_vec();
    assert!(bytes_le(&p, &a));
    assert!(!bytes_le(&a, &p));
    let empty = Vec::new();
    assert!(bytes_le(&empty, &a));
}

#[test]
fn mac_text_is_colon_separated_hex() {
    let m = MacAddress { octets: [0x00, 0x1a, 0x2b, 0x3c, 0x4d, 0xff] };
    assert_eq!(format_mac(&m), b"00:1a:2b:3c:4d:ff".to_vec());
}

#[test]
fn ipv4_text_is_dotted_decimal() {
    let ip = IpAddress::V4([192, 168, 0, 1]);
    assert_eq!(format_ip(&ip), b"192.168.0.1".to_vec());
    let unspecified = IpAddress::V4([0, 0, 0, 0]);
    assert_eq!(format_ip(&unspecified), b"0.0.0.0".to_vec());
}

#[test]
fn ipv6_text_is_full_hex_groups() {
    let ip = IpAddress::V6([
        0x20, 0x01, 0x0d, 0xb8, 0, 0, 0, 0, 0, 0, 0, 0, 0, 0, 0, 0x01,
    ]);
    assert_eq!(
        format_ip(&ip),
        b"2001:0db8:0000:0000:0000:0000:0000:0001".to_vec()
    );
}

#[test]
fn timestamp_text_has_nine_fraction_digits() {
    let t = Timestamp {
        year: 2024,
        month: 3,
        day: 8,
        hour: 9,
        minute: 5,
        second: 7,
        nanosecond: 120,
    };
    assert_eq!(format_timestamp(&t), b"2024-03-08 09:05:07.000000120".to_vec());
}

#[test]
fn timestamp_parses_its_own_text() {
    let t = Timestamp {
        year: 1999,
        month: 12,
        day: 31,
        hour: 23,
        minute: 59,
        second: 59,
        nanosecond: 999_999_999,
    };
    assert_eq!(parse_timestamp(&format_timestamp(&t)), Some(t));
}

#[test]
fn timestamp_fraction_is_scaled_up() {
    let t = parse_timestamp(&b"2024-03-18 11:00:00.5".to_vec()).unwrap();
    assert_eq!(t.nanosecond, 500_000_000);
    let t = parse_timestamp(&b"2024-03-18 11:00:00.000000001".to_vec()).unwrap();
    assert_eq!(t.nanosecond, 1);
    let t = parse_timestamp(&b"2024-03-18 11:00:00".to_vec()).unwrap();
    assert_eq!(t.nanosecond, 0);
}

#[test]
fn timestamp_rejects_malformed_text() {
    for bad in [
        "",
        "2024-03-18",
        "2024-03-18 11:00:00.",
        "2024-03-18 11:00:00.0000000000",
        "2024-03-18T11:00:00",
        "2024/03/18 11:00:00",
        "2024-13-01 00:00:00",
        "2024-00-01 00:00:00",
        "2024-03-00 00:00:00",
        "2024-03-32 00:00:00",
        "2024-03-18 24:00:00",
        "2024-03-18 11:60:00",
        "2024-03-18 11:00:60",
        "2024-03-18 11:00:0x",
        "x024-03-18 11:00:00",
    ] {
        assert_eq!(parse_timestamp(&bad.as_bytes().to_vec()), None, "accepted: {bad}");
    }
}

#[test]
fn timestamp_knows_leap_years() {
    assert!(parse_timestamp(&b"2024-02-29 00:00:00".to_vec()).is_some());
    assert_eq!(parse_timestamp(&b"2023-02-29 00:00:00".to_vec()), None);
    assert_eq!(parse_timestamp(&b"1900-02-29 00:00:00".to_vec()), None);
    assert!(parse_timestamp(&b"2000-02-29 00:00:00".to_vec()).is_some());
    assert_eq!(parse_timestamp(&b"2024-04-31 00:00:00".to_vec()), None);
    assert!(parse_timestamp(&b"2024-01-31 00:00:00".to_vec()).is_some());
}

#[test]
fn decimal_text_parses_back() {
    for n in [0u64, 1, 9, 10, 64, 999, 1000, 123456789] {
        assert_eq!(parse_dec_i64(&format_u64(n)), Some(n as i64));
    }
}

#[test]
fn timestamp_text_order_is_time_order() {
    // Chronologically ordered, with differences in each field.
    let ordered = [
        Timestamp { year: 1999, month: 12, day: 31, hour: 23, minute: 59, second: 59, nanosecond: 999_999_999 },
        Timestamp { year: 2024, month: 3, day: 18, hour: 11, minute: 0, second: 0, nanosecond: 0 },
        Timestamp { year: 2024, month: 3, day: 18, hour: 11, minute: 0, second: 0, nanosecond: 1 },
        Timestamp { year: 2024, month: 3, day: 18, hour: 11, minute: 0, second: 30, nanosecond: 0 },
        Timestamp { year: 2024, month: 3, day: 18, hour: 11, minute: 45, second: 0, nanosecond: 0 },
        Timestamp { year: 2024, month: 3, day: 18, hour: 12, minute: 0, second: 0, nanosecond: 0 },
        Timestamp { year: 2024, month: 3, day: 19, hour: 0, minute: 0, second: 0, nanosecond: 0 },
        Timestamp { year: 2024, month: 4, day: 1, hour: 0, minute: 0, second: 0, nanosecond: 0 },
        Timestamp { year: 2025, month: 1, day: 1, hour: 0, minute: 0, second: 0, nanosecond: 0 },
    ];
    for i in 0..ordered.len() {
        for j in 0..ordered.len() {
            let a = format_timestamp(&ordered[i]);
            let b = format_timestamp(&ordered[j]);
            assert_eq!(bytes_le(&a, &b), i <= j, "texts {i} and {j} disagree with time order");
        }
    }
}

#[test]
fn clock_yields_a_valid_timestamp() {
    let t = current_timestamp();
    assert!(2020 <= t.year && t.year <= 9999);
    assert!(1 <= t.month && t.month <= 12);
    assert!(1 <= t.day && t.day <= 31);
    assert!(t.hour < 24 && t.minute < 60 && t.second < 60);
    assert!(t.nanosecond < 1_000_000_000);
}
