use reminder_bot::text::{bytes_eq, find_token_end, has_prefix, parse_bool, parse_u64, NumError};

#[test]
fn parse_u64_simple() {
    assert_eq!(parse_u64(b"1000"), Ok(1000));
    assert_eq!(parse_u64(b"0"), Ok(0));
    assert_eq!(parse_u64(b"007"), Ok(7));
}

#[test]
fn parse_u64_max_value() {
    assert_eq!(parse_u64(b"18446744073709551615"), Ok(u64::MAX));
}

#[test]
fn parse_u64_overflow() {
    assert_eq!(parse_u64(b"18446744073709551616"), Err(NumError::Overflow));
    assert_eq!(parse_u64(b"99999999999999999999999"), Err(NumError::Overflow));
}

#[test]
fn parse_u64_malformed() {
    assert_eq!(parse_u64(b""), Err(NumError::Malformed));
    assert_eq!(parse_u64(b"12a"), Err(NumError::Malformed));
    assert_eq!(parse_u64(b"-5"), Err(NumError::Malformed));
    assert_eq!(parse_u64(b" 12"), Err(NumError::Malformed));
}

#[test]
fn parse_u64_overflow_wins_only_on_all_digits() {
    // A huge digit string with a trailing letter is malformed, not too large.
    assert_eq!(parse_u64(b"99999999999999999999x"), Err(NumError::Malformed));
}

#[test]
fn parse_bool_words() {
    assert_eq!(parse_bool(b"true"), Some(true));
    assert_eq!(parse_bool(b"false"), Some(false));
    assert_eq!(parse_bool(b"TRUE"), None);
    assert_eq!(parse_bool(b""), None);
    assert_eq!(parse_bool(b"yes"), None);
}

#[test]
fn token_end_at_first_space() {
    assert_eq!(find_token_end(b"rm 1000 false"), 2);
    assert_eq!(find_token_end(b"rm"), 2);
    assert_eq!(find_token_end(b""), 0);
    assert_eq!(find_token_end(b" lead"), 0);
}

#[test]
fn byte_equality_and_prefix() {
    assert!(bytes_eq(b"abc", b"abc"));
    assert!(!bytes_eq(b"abc", b"abd"));
    assert!(!bytes_eq(b"abc", b"ab"));
    assert!(has_prefix(b"!hi there", b"!"));
    assert!(has_prefix(b"!hi", b""));
    assert!(!has_prefix(b"hi", b"!"));
    assert!(!has_prefix(b"!", b"!!"));
}
