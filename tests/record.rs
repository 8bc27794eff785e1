use market_ticker::record::{decode_position, encode_position};
use market_ticker::scroll::ScrollStore;

#[test]
fn encode_writes_decimal_digits() {
    assert_eq!(encode_position(0), "0");
    assert_eq!(encode_position(7), "7");
    assert_eq!(encode_position(10), "10");
    assert_eq!(encode_position(43), "43");
    assert_eq!(encode_position(usize::MAX), usize::MAX.to_string());
}

#[test]
fn decode_reads_decimal_digits() {
    assert_eq!(decode_position("0"), Some(0));
    assert_eq!(decode_position("43"), Some(43));
    assert_eq!(decode_position("007"), Some(7));
    assert_eq!(decode_position(&usize::MAX.to_string()), Some(usize::MAX));
}

#[test]
fn decode_refuses_other_text() {
    assert_eq!(decode_position(""), None);
    assert_eq!(decode_position("4 3"), None);
    assert_eq!(decode_position("-1"), None);
    assert_eq!(decode_position("12\n"), None);
    assert_eq!(decode_position("18446744073709551616"), None);
    assert_eq!(decode_position("99999999999999999999999"), None);
}

#[test]
fn position_round_trips() {
    for n in [0usize, 1, 9, 10, 99, 100, 12345, usize::MAX - 1, usize::MAX] {
        assert_eq!(decode_position(&encode_position(n)), Some(n));
    }
}

#[test]
fn store_round_trips_through_records() {
    let mut s = ScrollStore::new();
    assert_eq!(s.position_record(), None);
    s.save(12, "d1990bee");
    let pos = s.position_record().unwrap();
    assert_eq!(pos, "12");
    let back = ScrollStore::from_records(&pos, "d1990bee");
    assert_eq!(back.load("d1990bee", 44), 12);
    assert_eq!(back.load("other", 44), 0);
}

#[test]
fn unreadable_position_record_saves_nothing() {
    let back = ScrollStore::from_records("twelve", "d1990bee");
    assert!(back.saved.is_none());
    assert_eq!(back.load("d1990bee", 44), 0);
}
