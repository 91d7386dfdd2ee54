use rodo::digits::parse_usize;
use rodo::record::Record;

#[test]
fn parse_plain_number() {
    assert_eq!(parse_usize(b"42"), Some(42));
}

#[test]
fn parse_leading_zeros() {
    assert_eq!(parse_usize(b"007"), Some(7));
}

#[test]
fn parse_leading_plus_sign() {
    assert_eq!(parse_usize(b"+5"), Some(5));
}

#[test]
fn parse_rejects_empty_and_sign_only() {
    assert_eq!(parse_usize(b""), None);
    assert_eq!(parse_usize(b"+"), None);
}

#[test]
fn parse_rejects_non_digits() {
    assert_eq!(parse_usize(b"-1"), None);
    assert_eq!(parse_usize(b"1a"), None);
    assert_eq!(parse_usize(b"abc"), None);
}

#[test]
fn parse_value_bounds() {
    let max = usize::MAX.to_string();
    assert_eq!(parse_usize(max.as_bytes()), Some(usize::MAX));
    let over = format!("{}0", usize::MAX);
    assert_eq!(parse_usize(over.as_bytes()), None);
}

#[test]
fn record_new_keeps_fields() {
    let r = Record::new(3, "milk");
    assert_eq!(r.sequence, 3);
    assert_eq!(r.content, b"milk".to_vec());
}

#[test]
fn record_encodes_as_number_space_content() {
    let r = Record::new(3, "milk");
    assert_eq!(r.encode(), b"3 milk".to_vec());
}

#[test]
fn record_from_reads_a_line_back() {
    let r = Record::from("12 task").unwrap();
    assert_eq!(r.sequence, 12);
    assert_eq!(r.content, b"task".to_vec());
}

#[test]
fn record_from_rejects_missing_space() {
    assert!(Record::from("7").is_none());
    assert!(Record::from("").is_none());
}

#[test]
fn record_from_rejects_two_spaces() {
    assert!(Record::from("1 a b").is_none());
}

#[test]
fn record_from_rejects_non_numeric_sequence() {
    assert!(Record::from("x y").is_none());
    assert!(Record::from("1x y").is_none());
}

#[test]
fn record_from_accepts_plus_and_zeros() {
    let r = Record::from("+08 a").unwrap();
    assert_eq!(r.sequence, 8);
    assert_eq!(r.content, b"a".to_vec());
}

#[test]
fn record_from_rejects_overflowing_sequence() {
    assert!(Record::from("99999999999999999999999999 a").is_none());
}

#[test]
fn record_from_allows_empty_content() {
    let r = Record::from("0 ").unwrap();
    assert_eq!(r.sequence, 0);
    assert_eq!(r.content, b"".to_vec());
}

#[test]
fn record_round_trip_through_encoding() {
    let r = Record::new(17, "water");
    let line = r.encode();
    let back = Record::from(std::str::from_utf8(&line).unwrap()).unwrap();
    assert_eq!(back.sequence, 17);
    assert_eq!(back.content, b"water".to_vec());
}
