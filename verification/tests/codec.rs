use xtrace::codec::{
    decode_hex, otlp_span_id_to_uuid, otlp_trace_id_to_uuid, parse_i128_chars, parse_i64_chars,
    parse_unix_nano, ts_before, Timestamp, UuidVal,
};

#[test]
fn hex_decoding_accepts_case_and_whitespace() {
    assert_eq!(decode_hex("0aFf"), Some(vec![0x0a, 0xff]));
    assert_eq!(decode_hex("  00ff  "), Some(vec![0x00, 0xff]));
    assert_eq!(decode_hex(""), Some(vec![]));
}

#[test]
fn hex_decoding_rejects_odd_length_and_bad_digits() {
    assert_eq!(decode_hex("abc"), None);
    assert_eq!(decode_hex("zz"), None);
    assert_eq!(decode_hex("0g"), None);
}

#[test]
fn trace_id_round_trips_through_the_identifier() {
    let hex = "0123456789abcdef0123456789abcdef";
    let original = decode_hex(hex).unwrap();
    let u = otlp_trace_id_to_uuid(hex).unwrap();
    assert_eq!(u.to_bytes(), original);
}

#[test]
fn trace_id_requires_sixteen_bytes() {
    assert!(otlp_trace_id_to_uuid("abcd").is_none());
    assert!(otlp_trace_id_to_uuid("0123456789abcdef0123456789abcde").is_none());
    assert!(otlp_trace_id_to_uuid("").is_none());
}

#[test]
fn span_id_is_left_zero_padded() {
    let u = otlp_span_id_to_uuid("abcdef0123456789").unwrap();
    let bytes = u.to_bytes();
    assert_eq!(&bytes[..8], &[0u8; 8]);
    assert_eq!(&bytes[8..], &decode_hex("abcdef0123456789").unwrap()[..]);
}

#[test]
fn span_id_requires_eight_bytes() {
    assert!(otlp_span_id_to_uuid("0123456789abcdef0123456789abcdef").is_none());
    assert!(otlp_span_id_to_uuid("1234").is_none());
}

#[test]
fn identifier_renders_hyphenated() {
    let u = otlp_trace_id_to_uuid("0123456789abcdef0123456789abcdef").unwrap();
    assert_eq!(u.hyphenated(), "01234567-89ab-cdef-0123-456789abcdef");
    let zero = UuidVal { value: 0 };
    assert_eq!(zero.hyphenated(), "00000000-0000-0000-0000-000000000000");
}

#[test]
fn unix_nano_parses_positive_in_range() {
    let ts = parse_unix_nano("1700000000000000000").unwrap();
    assert_eq!(ts.secs, 1_700_000_000);
    assert_eq!(ts.nanos, 0);
    let ts2 = parse_unix_nano(" 1500000000123456789 ").unwrap();
    assert_eq!(ts2.secs, 1_500_000_000);
    assert_eq!(ts2.nanos, 123_456_789);
}

#[test]
fn unix_nano_rejects_unset_negative_and_out_of_range() {
    assert!(parse_unix_nano("0").is_none());
    assert!(parse_unix_nano("-5").is_none());
    assert!(parse_unix_nano("abc").is_none());
    assert!(parse_unix_nano("").is_none());
    assert!(parse_unix_nano("999999999999999999999999999999999").is_none());
}

#[test]
fn integer_parsing_matches_the_literal_grammar() {
    let chars: Vec<char> = "+1234".chars().collect();
    assert_eq!(parse_i128_chars(&chars), Some(1234));
    let neg: Vec<char> = "-170141183460469231731687303715884105728".chars().collect();
    assert_eq!(parse_i128_chars(&neg), Some(i128::MIN));
    let over: Vec<char> = "170141183460469231731687303715884105728".chars().collect();
    assert_eq!(parse_i128_chars(&over), None);
    let junk: Vec<char> = "12a".chars().collect();
    assert_eq!(parse_i128_chars(&junk), None);
    let empty: Vec<char> = Vec::new();
    assert_eq!(parse_i64_chars(&empty), None);
    let big: Vec<char> = "9223372036854775808".chars().collect();
    assert_eq!(parse_i64_chars(&big), None);
}

#[test]
fn timestamps_order_by_seconds_then_nanos() {
    let a = Timestamp { secs: 1, nanos: 5 };
    let b = Timestamp { secs: 1, nanos: 6 };
    let c = Timestamp { secs: 2, nanos: 0 };
    assert!(ts_before(a, b));
    assert!(ts_before(b, c));
    assert!(!ts_before(c, a));
    assert!(!ts_before(a, a));
}
