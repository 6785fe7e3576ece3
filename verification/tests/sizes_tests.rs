use icondec::sizes::parse_size_from_name;

#[test]
fn plain_number_parses() {
    assert_eq!(parse_size_from_name(b"16"), Some(16));
}

#[test]
fn first_digit_run_wins() {
    assert_eq!(parse_size_from_name(b"icon-32x32"), Some(32));
}

#[test]
fn no_digits_gives_none() {
    assert_eq!(parse_size_from_name(b"favicon"), None);
}

#[test]
fn zero_is_skipped() {
    assert_eq!(parse_size_from_name(b"0"), None);
    assert_eq!(parse_size_from_name(b"0-12"), Some(12));
}

#[test]
fn leading_zeros_are_fine() {
    assert_eq!(parse_size_from_name(b"00128"), Some(128));
}

#[test]
fn overflowing_run_is_skipped() {
    assert_eq!(parse_size_from_name(b"99999999999999999999-64"), Some(64));
    assert_eq!(parse_size_from_name(b"4294967296"), None);
    assert_eq!(parse_size_from_name(b"4294967295"), Some(4294967295));
}

#[test]
fn empty_name_gives_none() {
    assert_eq!(parse_size_from_name(b""), None);
}
