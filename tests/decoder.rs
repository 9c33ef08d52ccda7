use isolate::deserializer::{encode_u64, from_str, value_from_str};
use isolate::CGroupErrorKind;
use isolate::CpuStat;
use isolate::DecodeError;

const CPU_FIELDS: [&str; 3] = ["usage_usec", "user_usec", "system_usec"];

fn decode_error(s: &str) -> DecodeError {
    match from_str(s, &CPU_FIELDS) {
        Err(e) => match e.inner {
            Some(CGroupErrorKind::ParseErr(d)) => d,
            other => panic!("not a parse error: {:?}", other),
        },
        Ok(v) => panic!("decoded: {:?}", v),
    }
}

#[test]
fn deserializer_test() {
    let input = "usage_usec 9304127
user_usec 7523033
system_usec 1781093";
    let expected = vec![9304127u64, 7523033, 1781093];
    assert_eq!(expected, from_str(input, &CPU_FIELDS).unwrap());

    let input = "usage_usec 9304127
user_usec 7523033
system_usec 1781093
nr_periods 0
nr_throttled 0
throttled_usec 0";
    let expected = vec![9304127u64, 7523033, 1781093];
    assert_eq!(expected, from_str(input, &CPU_FIELDS).unwrap());
}

#[test]
fn cpu_stat_three_fields() {
    let c = CpuStat::from_str("usage_usec 9304127\nuser_usec 7523033\nsystem_usec 1781093").unwrap();
    assert_eq!(c.usage.as_micros(), 9304127);
    assert_eq!(c.user.as_micros(), 7523033);
    assert_eq!(c.system.as_micros(), 1781093);
}

#[test]
fn cpu_stat_extra_trailing_fields() {
    let c = CpuStat::from_str(
        "usage_usec 9304127\nuser_usec 7523033\nsystem_usec 1781093\nnr_periods 0\nnr_throttled 0\nthrottled_usec 0",
    )
    .unwrap();
    assert_eq!(c.usage.as_micros(), 9304127);
    assert_eq!(c.user.as_micros(), 7523033);
    assert_eq!(c.system.as_micros(), 1781093);
}

#[test]
fn fields_in_any_order_among_others() {
    let v = from_str("nr_periods 3\nsystem_usec 5\nx y z\nusage_usec 12\nuser_usec 7", &CPU_FIELDS).unwrap();
    assert_eq!(v, vec![12, 7, 5]);
}

#[test]
fn empty_schema_takes_any_lines() {
    let v = from_str("a 1\nb word", &[]).unwrap();
    assert!(v.is_empty());
}

#[test]
fn missing_field_is_reported() {
    assert_eq!(
        decode_error("usage_usec 1\nsystem_usec 3\nnr_periods 0"),
        DecodeError::MissingField(1)
    );
    assert_eq!(decode_error(""), DecodeError::MissingField(0));
}

#[test]
fn line_without_space_fails() {
    assert_eq!(
        decode_error("usage_usec 1\nuser_usec\nsystem_usec 3"),
        DecodeError::ExpectedWhitespace
    );
    assert_eq!(decode_error("usage_usec 1\nuser_usec"), DecodeError::Eof);
    assert_eq!(decode_error("usage_usec\t1"), DecodeError::ExpectedWhitespace);
}

#[test]
fn non_numeric_value_fails() {
    assert_eq!(
        decode_error("usage_usec abc\nuser_usec 2\nsystem_usec 3"),
        DecodeError::ExpectedInteger
    );
    assert_eq!(decode_error("usage_usec "), DecodeError::Eof);
}

#[test]
fn trailing_input_fails() {
    assert_eq!(
        decode_error("usage_usec 1\nuser_usec 2\nsystem_usec 3x"),
        DecodeError::ExpectedNewline
    );
    assert_eq!(
        decode_error("usage_usec 1\nuser_usec 2\nsystem_usec 3\n"),
        DecodeError::Eof
    );
    assert_eq!(
        decode_error("usage_usec 1\nuser_usec 2\nsystem_usec 3 4"),
        DecodeError::ExpectedNewline
    );
}

#[test]
fn bad_keys_fail() {
    assert_eq!(decode_error(" 5"), DecodeError::ExpectedString);
    assert_eq!(decode_error("usage_usec 1\n\nuser_usec 2"), DecodeError::ExpectedString);
    assert_eq!(decode_error("-x 1"), DecodeError::ExpectedString);
}

#[test]
fn duplicate_field_fails() {
    assert_eq!(
        decode_error("usage_usec 1\nuser_usec 2\nusage_usec 3\nsystem_usec 4"),
        DecodeError::DuplicateField(0)
    );
}

#[test]
fn too_large_value_fails() {
    assert_eq!(
        decode_error("usage_usec 18446744073709551616\nuser_usec 2\nsystem_usec 3"),
        DecodeError::Overflow
    );
    let v = from_str("usage_usec 18446744073709551615\nuser_usec 2\nsystem_usec 3", &CPU_FIELDS).unwrap();
    assert_eq!(v[0], u64::MAX);
}

#[test]
fn error_description_names_field() {
    let e = from_str("usage_usec 1", &CPU_FIELDS).unwrap_err();
    assert_eq!(e.description, "Parse error: missing field `user_usec`");
    let e = from_str("usage_usec x", &CPU_FIELDS).unwrap_err();
    assert_eq!(e.description, "Parse error: Expected integer");
    let e = from_str("usage_usec 1\nusage_usec 2", &CPU_FIELDS).unwrap_err();
    assert_eq!(e.description, "Parse error: duplicate field `usage_usec`");
}

#[test]
fn single_value_decodes() {
    assert_eq!(value_from_str("4096\n").unwrap(), 4096);
    assert_eq!(value_from_str("0").unwrap(), 0);
    assert_eq!(value_from_str("12 ").unwrap(), 12);
    assert_eq!(value_from_str("12\r\n\t \n").unwrap(), 12);
    for (s, d) in [
        ("", DecodeError::Eof),
        ("max\n", DecodeError::ExpectedInteger),
        (" 12", DecodeError::ExpectedInteger),
        ("12 x", DecodeError::TrailingCharacters),
        ("12a", DecodeError::TrailingCharacters),
        ("99999999999999999999", DecodeError::Overflow),
    ] {
        let e = value_from_str(s).unwrap_err();
        assert_eq!(e.inner, Some(CGroupErrorKind::ParseErr(d)));
    }
}

#[test]
fn failed_lines_after_any_prefix() {
    assert_eq!(decode_error("junk\nusage_usec\t9304127"), DecodeError::ExpectedWhitespace);
    assert_eq!(decode_error("x 1\nusage_usec 12a\nuser_usec 2\nsystem_usec 3"), DecodeError::ExpectedNewline);
    assert_eq!(decode_error("usage_usec -1\nuser_usec 2\nsystem_usec 3"), DecodeError::ExpectedInteger);
    assert_eq!(decode_error("user_usec 2\nusage_usec \nsystem_usec 3"), DecodeError::ExpectedInteger);
}

#[test]
fn encoding_round_trips() {
    for n in [0u64, 7, 10, 1234567890, u64::MAX] {
        let bytes = encode_u64(n);
        assert_eq!(bytes, n.to_string().into_bytes());
        let text = String::from_utf8(bytes).unwrap();
        assert_eq!(value_from_str(&text).unwrap(), n);
    }
}
