use dispatch_play::envelope::{
    build_analytics_v1, build_event, decode, encode, encode_event, timestamp_from_clock,
    AnalyticsEvent, Timestamp,
};
use dispatch_play::wire::MalformedEnvelope;

fn event(payload: &str, timestamp: Option<Timestamp>) -> AnalyticsEvent {
    AnalyticsEvent {
        event_id: "123".to_string(),
        event_name: "analytics.publish.v1".to_string(),
        service_name: "dispatch-play".to_string(),
        service_version: "0.1.0".to_string(),
        timestamp,
        payload: payload.to_string(),
    }
}

fn hello_bytes() -> Vec<u8> {
    let mut expected: Vec<u8> = Vec::new();
    expected.extend_from_slice(&[0x0a, 3]);
    expected.extend_from_slice(b"123");
    expected.extend_from_slice(&[0x12, 20]);
    expected.extend_from_slice(b"analytics.publish.v1");
    expected.extend_from_slice(&[0x1a, 13]);
    expected.extend_from_slice(b"dispatch-play");
    expected.extend_from_slice(&[0x22, 5]);
    expected.extend_from_slice(b"0.1.0");
    expected.extend_from_slice(&[0x2a, 4, 0x08, 1, 0x10, 2]);
    expected.extend_from_slice(&[0x32, 5]);
    expected.extend_from_slice(b"hello");
    expected
}

#[test]
fn round_trip_of_a_typed_line() {
    let event = build_analytics_v1("hello", Timestamp { seconds: 1_700_000_000, nanos: 42 });
    let bytes = encode_event(&event);
    assert_eq!(decode(&bytes), Ok(event));
}

#[test]
fn built_event_carries_the_fixed_fields() {
    let now = Timestamp { seconds: 7, nanos: 9 };
    let built = build_analytics_v1("some text", now);
    assert_eq!(built, event("some text", Some(now)));
}

#[test]
fn built_event_keeps_the_line_untrimmed() {
    let built = build_analytics_v1("  two  spaces \t", Timestamp { seconds: 0, nanos: 0 });
    assert_eq!(built.payload, "  two  spaces \t");
}

#[test]
fn encode_gives_the_exact_bytes() {
    let bytes = encode(
        "hello",
        "dispatch-play",
        "0.1.0",
        "analytics.publish.v1",
        Timestamp { seconds: 1, nanos: 2 },
    );
    assert_eq!(bytes, hello_bytes());
}

#[test]
fn encode_is_deterministic() {
    let now = Timestamp { seconds: 1_700_000_000, nanos: 999_999_999 };
    let first = encode("same", "svc", "1.2.3", "name.v1", now);
    let second = encode("same", "svc", "1.2.3", "name.v1", now);
    assert_eq!(first, second);
}

#[test]
fn encode_takes_the_names_it_is_given() {
    let now = Timestamp { seconds: 5, nanos: 0 };
    let bytes = encode("p", "other-service", "9.9", "other.event.v2", now);
    let back = decode(&bytes).unwrap();
    assert_eq!(back, build_event("p", "other-service", "9.9", "other.event.v2", now));
    assert_eq!(back.service_name, "other-service");
    assert_eq!(back.service_version, "9.9");
    assert_eq!(back.event_name, "other.event.v2");
    assert_eq!(back.event_id, "123");
}

#[test]
fn decode_reads_the_exact_bytes() {
    let back = decode(&hello_bytes()).unwrap();
    assert_eq!(back, event("hello", Some(Timestamp { seconds: 1, nanos: 2 })));
}

#[test]
fn round_trip_of_the_empty_payload() {
    let written = event("", Some(Timestamp { seconds: 3, nanos: 4 }));
    let bytes = encode_event(&written);
    assert_eq!(bytes[bytes.len() - 6..], [0x2a, 4, 0x08, 3, 0x10, 4]);
    assert_eq!(decode(&bytes), Ok(written));
}

#[test]
fn round_trip_of_the_empty_event() {
    let written = AnalyticsEvent {
        event_id: String::new(),
        event_name: String::new(),
        service_name: String::new(),
        service_version: String::new(),
        timestamp: None,
        payload: String::new(),
    };
    let bytes = encode_event(&written);
    assert_eq!(bytes, Vec::<u8>::new());
    assert_eq!(decode(&bytes), Ok(written));
}

#[test]
fn round_trip_of_a_zero_timestamp() {
    let written = event("x", Some(Timestamp { seconds: 0, nanos: 0 }));
    let bytes = encode_event(&written);
    assert!(bytes.windows(2).any(|w| w == [0x2a, 0]));
    assert_eq!(decode(&bytes), Ok(written));
}

#[test]
fn round_trip_of_negative_and_extreme_times() {
    for (seconds, nanos) in [
        (-1i64, -1i32),
        (i64::MIN, i32::MIN),
        (i64::MAX, i32::MAX),
        (0, 1),
        (1, 0),
        (-62_135_596_800, 999_999_999),
    ] {
        let written = event("t", Some(Timestamp { seconds, nanos }));
        assert_eq!(decode(&encode_event(&written)), Ok(written));
    }
}

#[test]
fn negative_values_take_ten_bytes() {
    let written = event("", Some(Timestamp { seconds: -1, nanos: 0 }));
    let bytes = encode_event(&written);
    let mut tail = vec![0x2a, 11, 0x08];
    tail.extend_from_slice(&[0xff; 9]);
    tail.push(0x01);
    assert_eq!(bytes[bytes.len() - 13..], tail[..]);
}

#[test]
fn round_trip_of_text_beyond_ascii() {
    let written = event("gr\u{fc}\u{df}e \u{4e16}\u{754c} \u{1f980}", None);
    assert_eq!(decode(&encode_event(&written)), Ok(written));
}

#[test]
fn round_trip_of_a_long_payload() {
    let text = "a".repeat(300);
    let written = event(&text, None);
    let bytes = encode_event(&written);
    let at = bytes.len() - 303;
    assert_eq!(bytes[at..at + 3], [0x32, 0xac, 0x02]);
    assert_eq!(decode(&bytes), Ok(written));
}

#[test]
fn round_trip_of_a_very_long_payload() {
    let text = "xyz".repeat(70_000);
    let written = event(&text, Some(Timestamp { seconds: 12, nanos: 34 }));
    assert_eq!(decode(&encode_event(&written)), Ok(written));
}

#[test]
fn fields_may_come_in_any_order() {
    let mut bytes: Vec<u8> = Vec::new();
    bytes.extend_from_slice(&[0x32, 2]);
    bytes.extend_from_slice(b"hi");
    bytes.extend_from_slice(&[0x2a, 2, 0x10, 5]);
    bytes.extend_from_slice(&[0x0a, 1]);
    bytes.extend_from_slice(b"7");
    let back = decode(&bytes).unwrap();
    assert_eq!(back.payload, "hi");
    assert_eq!(back.event_id, "7");
    assert_eq!(back.timestamp, Some(Timestamp { seconds: 0, nanos: 5 }));
    assert_eq!(back.event_name, "");
}

#[test]
fn the_last_value_of_a_text_wins() {
    let mut bytes: Vec<u8> = Vec::new();
    bytes.extend_from_slice(&[0x32, 5]);
    bytes.extend_from_slice(b"first");
    bytes.extend_from_slice(&[0x32, 6]);
    bytes.extend_from_slice(b"second");
    assert_eq!(decode(&bytes).unwrap().payload, "second");
}

#[test]
fn a_second_timestamp_is_merged_into_the_first() {
    let bytes = [0x2a, 4, 0x08, 9, 0x10, 8, 0x2a, 2, 0x10, 7];
    assert_eq!(decode(&bytes).unwrap().timestamp, Some(Timestamp { seconds: 9, nanos: 7 }));
}

#[test]
fn unknown_fields_are_passed_over() {
    let mut bytes: Vec<u8> = Vec::new();
    bytes.extend_from_slice(&[0x38, 0x96, 0x01]);
    bytes.extend_from_slice(&[0x45, 1, 2, 3, 4]);
    bytes.extend_from_slice(&[0x49, 1, 2, 3, 4, 5, 6, 7, 8]);
    bytes.extend_from_slice(&[0x52, 3, 9, 9, 9]);
    bytes.extend_from_slice(&[0x5b, 0x08, 0x01, 0x63, 0x64, 0x5c]);
    bytes.extend_from_slice(&[0x32, 2]);
    bytes.extend_from_slice(b"ok");
    bytes.extend_from_slice(&[0x2a, 4, 0x18, 0x07, 0x08, 0x2a]);
    let back = decode(&bytes).unwrap();
    assert_eq!(back.payload, "ok");
    assert_eq!(back.timestamp, Some(Timestamp { seconds: 42, nanos: 0 }));
}

#[test]
fn varints_need_not_be_shortest() {
    let bytes = [0x2a, 0x80, 0x00, 0x32, 0x81, 0x00, b'z'];
    let back = decode(&bytes).unwrap();
    assert_eq!(back.timestamp, Some(Timestamp { seconds: 0, nanos: 0 }));
    assert_eq!(back.payload, "z");
}

#[test]
fn wide_values_are_cut_to_the_field() {
    let mut bytes = vec![0x2a, 11, 0x10];
    bytes.extend_from_slice(&[0x81, 0x80, 0x80, 0x80, 0xf0, 0xff, 0xff, 0xff, 0xff, 0x01]);
    assert_eq!(decode(&bytes).unwrap().timestamp, Some(Timestamp { seconds: 0, nanos: 1 }));
}

#[test]
fn malformed_invalid_varint() {
    assert_eq!(decode(&[0x80]), Err(MalformedEnvelope::InvalidVarint));
    assert_eq!(decode(&[0x0a]), Err(MalformedEnvelope::InvalidVarint));
    assert_eq!(decode(&[0x0a, 0x80]), Err(MalformedEnvelope::InvalidVarint));
    assert_eq!(decode(&[0xff; 10]), Err(MalformedEnvelope::InvalidVarint));
    let mut overflow = vec![0x38];
    overflow.extend_from_slice(&[0xff; 9]);
    overflow.push(0x02);
    assert_eq!(decode(&overflow), Err(MalformedEnvelope::InvalidVarint));
    let mut largest = vec![0x38];
    largest.extend_from_slice(&[0xff; 9]);
    largest.push(0x01);
    assert!(decode(&largest).is_ok());
}

#[test]
fn malformed_invalid_key() {
    assert_eq!(decode(&[0x80, 0x80, 0x80, 0x80, 0x10]), Err(MalformedEnvelope::InvalidKey));
    assert_eq!(
        decode(&[0xf8, 0xff, 0xff, 0xff, 0x0f, 0x00]).map(|e| e.payload),
        Ok(String::new())
    );
}

#[test]
fn malformed_invalid_wire_type() {
    assert_eq!(decode(&[0x0e]), Err(MalformedEnvelope::InvalidWireType));
    assert_eq!(decode(&[0x0f]), Err(MalformedEnvelope::InvalidWireType));
    assert_eq!(decode(&[0x06]), Err(MalformedEnvelope::InvalidWireType));
}

#[test]
fn malformed_invalid_tag() {
    assert_eq!(decode(&[0x00]), Err(MalformedEnvelope::InvalidTag));
    assert_eq!(decode(&[0x02, 0x00]), Err(MalformedEnvelope::InvalidTag));
}

#[test]
fn malformed_unexpected_wire_type() {
    assert_eq!(decode(&[0x08, 0x01]), Err(MalformedEnvelope::UnexpectedWireType));
    assert_eq!(decode(&[0x30, 0x01]), Err(MalformedEnvelope::UnexpectedWireType));
    assert_eq!(decode(&[0x28, 0x01]), Err(MalformedEnvelope::UnexpectedWireType));
    assert_eq!(decode(&[0x0c]), Err(MalformedEnvelope::UnexpectedWireType));
    assert_eq!(decode(&[0x2a, 2, 0x0a, 0]), Err(MalformedEnvelope::UnexpectedWireType));
}

#[test]
fn malformed_buffer_underflow() {
    assert_eq!(decode(&[0x0a, 5, b'a']), Err(MalformedEnvelope::BufferUnderflow));
    assert_eq!(decode(&[0x2a, 3, 0x08, 1]), Err(MalformedEnvelope::BufferUnderflow));
    assert_eq!(decode(&[0x3d, 1, 2, 3]), Err(MalformedEnvelope::BufferUnderflow));
    assert_eq!(decode(&[0x39, 1, 2, 3, 4, 5, 6, 7]), Err(MalformedEnvelope::BufferUnderflow));
    assert_eq!(decode(&[0x3a, 2, 1]), Err(MalformedEnvelope::BufferUnderflow));
}

#[test]
fn malformed_delimited_length_exceeded() {
    assert_eq!(
        decode(&[0x2a, 1, 0x08, 0x01]),
        Err(MalformedEnvelope::DelimitedLengthExceeded)
    );
    assert_eq!(
        decode(&[0x2a, 3, 0x08, 0x01, 0x1a, 0x02, 0, 0]),
        Err(MalformedEnvelope::DelimitedLengthExceeded)
    );
}

#[test]
fn malformed_unexpected_end_group() {
    assert_eq!(decode(&[0x3c]), Err(MalformedEnvelope::UnexpectedEndGroupTag));
    assert_eq!(decode(&[0x3b, 0x44]), Err(MalformedEnvelope::UnexpectedEndGroupTag));
    assert_eq!(decode(&[0x3b, 0x43, 0x3c]), Err(MalformedEnvelope::UnexpectedEndGroupTag));
    assert_eq!(decode(&[0x2a, 1, 0x1c]), Err(MalformedEnvelope::UnexpectedEndGroupTag));
}

#[test]
fn malformed_invalid_string() {
    assert_eq!(decode(&[0x0a, 1, 0xff]), Err(MalformedEnvelope::InvalidString));
    assert_eq!(decode(&[0x32, 2, 0xc3, 0x28]), Err(MalformedEnvelope::InvalidString));
    assert_eq!(decode(&[0x32, 3, 0xed, 0xa0, 0x80]), Err(MalformedEnvelope::InvalidString));
    assert_eq!(decode(&[0x32, 2, 0xc0, 0x80]), Err(MalformedEnvelope::InvalidString));
}

#[test]
fn malformed_recursion_limit() {
    let mut nested = vec![0x3b; 100];
    nested.extend_from_slice(&[0x3c; 100]);
    assert!(decode(&nested).is_ok());
    let mut deeper = vec![0x3b; 101];
    deeper.extend_from_slice(&[0x3c; 101]);
    assert_eq!(decode(&deeper), Err(MalformedEnvelope::RecursionLimitReached));
    let mut scalar_inside = vec![0x3b; 100];
    scalar_inside.extend_from_slice(&[0x38, 0x01]);
    scalar_inside.extend_from_slice(&[0x3c; 100]);
    assert_eq!(decode(&scalar_inside), Err(MalformedEnvelope::RecursionLimitReached));
    let mut inside_timestamp = vec![0x2a, 198];
    inside_timestamp.push(0x01);
    inside_timestamp.extend_from_slice(&[0x3b; 99]);
    inside_timestamp.extend_from_slice(&[0x3c; 99]);
    assert!(decode(&inside_timestamp).is_ok());
    let mut too_deep_in_timestamp = vec![0x2a, 200];
    too_deep_in_timestamp.push(0x01);
    too_deep_in_timestamp.extend_from_slice(&[0x3b; 100]);
    too_deep_in_timestamp.extend_from_slice(&[0x3c; 100]);
    assert_eq!(
        decode(&too_deep_in_timestamp),
        Err(MalformedEnvelope::RecursionLimitReached)
    );
}

#[test]
fn truncation_inside_a_field_is_rejected() {
    let bytes = hello_bytes();
    let boundaries = [0usize, 5, 27, 42, 49, 55, 62];
    for cut in 0..bytes.len() {
        let outcome = decode(&bytes[..cut]);
        if boundaries.contains(&cut) {
            assert!(outcome.is_ok(), "cut at {}", cut);
        } else {
            assert!(outcome.is_err(), "cut at {}", cut);
        }
    }
}

#[test]
fn clock_reading_becomes_a_timestamp() {
    assert_eq!(
        timestamp_from_clock(1_700_000_000, 123_456_789),
        Timestamp { seconds: 1_700_000_000, nanos: 123_456_789 }
    );
    assert_eq!(timestamp_from_clock(0, 0), Timestamp { seconds: 0, nanos: 0 });
    assert_eq!(timestamp_from_clock(u64::MAX, 0), Timestamp { seconds: -1, nanos: 0 });
    assert_eq!(
        timestamp_from_clock(1 << 63, u32::MAX),
        Timestamp { seconds: i64::MIN, nanos: -1 }
    );
}

#[test]
fn what_is_read_can_be_written_and_read_again() {
    let inputs: Vec<Vec<u8>> = vec![
        vec![0x32, 0x81, 0x00, b'z', 0x2a, 0x80, 0x00],
        vec![0x32, 1, b'a', 0x38, 0x07, 0x32, 1, b'b', 0x0a, 0],
        vec![0x2a, 4, 0x08, 9, 0x10, 8, 0x2a, 2, 0x10, 7],
        vec![0x3b, 0x3c, 0x12, 2, 0xc3, 0xb6],
        hello_bytes(),
        Vec::new(),
    ];
    for bytes in inputs {
        let first = decode(&bytes).unwrap();
        let again = decode(&encode_event(&first)).unwrap();
        assert_eq!(first, again);
    }
}
