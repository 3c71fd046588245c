use tar_async::decode::time::parse_from;
use tar_async::decode::time::FileTime;
use tar_async::decode::time::ParseError;

fn parsed(text: &[u8]) -> (u64, u32) {
    let t = parse_from(text).unwrap();
    (t.secs(), t.subsec_nanos())
}

#[test]
fn time_test_parse() {
    assert_eq!(parsed(b"123"), (123, 0));
    assert_eq!(parsed(b"   556677.2"), (556677, 200000000));
    assert!(parse_from(b"   1546952073.491116718").unwrap().into_system_time().is_some());
}

#[test]
fn fraction_is_cut_after_nanoseconds() {
    assert_eq!(parsed(b"1.123456789012"), (1, 123456789));
}

#[test]
fn invalid_char_after_point() {
    assert_eq!(parse_from(b"1.x"), Err(ParseError::InvalidChar(b'x')));
}

#[test]
fn from_secs_has_no_fraction() {
    let t = FileTime::from_secs(7);
    assert_eq!((t.secs(), t.subsec_nanos()), (7, 0));
}

#[test]
fn seconds_overflow() {
    assert_eq!(parsed(b"18446744073709551615"), (u64::MAX, 0));
    assert_eq!(parse_from(b"18446744073709551616"), Err(ParseError::Overflow));
    assert_eq!(parse_from(b"99999999999999999999999x"), Err(ParseError::Overflow));
    assert_eq!(parsed(b"000000000000000000000000000001"), (1, 0));
}

#[test]
fn a_byte_that_is_no_digit_is_invalid() {
    assert_eq!(parse_from(b"12a"), Err(ParseError::InvalidChar(b'a')));
    assert_eq!(parse_from(b"abc"), Err(ParseError::InvalidChar(b'a')));
    assert_eq!(parse_from(b"1.5 "), Err(ParseError::InvalidChar(b' ')));
    assert_eq!(parse_from(b"1 "), Err(ParseError::InvalidChar(b' ')));
    assert_eq!(parse_from(b"1.2.3"), Err(ParseError::InvalidChar(b'.')));
    assert_eq!(parse_from(b"-1"), Err(ParseError::InvalidChar(b'-')));
}

#[test]
fn blanks_lead_and_digits_may_be_missing() {
    assert_eq!(parsed(b"\t\n\x0b\x0c\r 7"), (7, 0));
    assert_eq!(parsed(&[0x85, 0xa0, b'7']), (7, 0));
    assert_eq!(parsed(b""), (0, 0));
    assert_eq!(parsed(b"   "), (0, 0));
    assert_eq!(parsed(b"1."), (1, 0));
    assert_eq!(parsed(b".5"), (0, 500000000));
}

#[test]
fn fraction_is_padded_to_nine_digits() {
    assert_eq!(parsed(b"1.000000001"), (1, 1));
    assert_eq!(parsed(b"1.999999999"), (1, 999999999));
    assert_eq!(parsed(b"1.9999999999999999999999999999"), (1, 999999999));
    assert_eq!(parsed(b"1.05"), (1, 50000000));
}

#[test]
fn text_is_parsed_like_bytes() {
    let t: FileTime = "12.5".parse().unwrap();
    assert_eq!((t.secs(), t.subsec_nanos()), (12, 500000000));
    assert_eq!("x".parse::<FileTime>(), Err(ParseError::InvalidChar(b'x')));
    assert_eq!(FileTime::from(3u64), FileTime::from_secs(3));
}
