use xmodits::bytes::{has_tag, read_string, read_u16_be, read_u16_le, read_u32_le};
use xmodits::Error;

fn truncated<T: std::fmt::Debug>(r: Result<T, Error>) -> bool {
    matches!(r, Err(Error::TruncatedFile))
}

#[test]
fn integer_reads_in_both_byte_orders() {
    let b = [0x01u8, 0x02, 0x03, 0x04, 0x05];
    assert_eq!(read_u16_le(&b, 0).unwrap(), 0x0201);
    assert_eq!(read_u16_be(&b, 0).unwrap(), 0x0102);
    assert_eq!(read_u32_le(&b, 1).unwrap(), 0x0504_0302);
    assert_eq!(read_u16_le(&b, 3).unwrap(), 0x0504);
}

#[test]
fn reads_past_the_end_are_truncated() {
    let b = [0u8; 4];
    assert!(truncated(read_u16_le(&b, 3)));
    assert!(truncated(read_u16_be(&b, 4)));
    assert!(truncated(read_u32_le(&b, 1)));
    assert!(truncated(read_u32_le(&b, usize::MAX)));
    assert!(truncated(read_string(&b, 2, 3)));
    assert!(truncated(read_u16_le(&[], 0)));
}

#[test]
fn text_fields_stop_at_nul_and_drop_surrounding_whitespace() {
    let b = b"xx\t name \0junk".to_vec();
    assert_eq!(read_string(&b, 2, 12).unwrap(), "name");
    assert_eq!(read_string(&b, 0, 2).unwrap(), "xx");
    assert_eq!(read_string(&b, 9, 0).unwrap(), "");
    assert_eq!(read_string(&[b' ', 0xff, b'a'], 0, 3).unwrap(), "\u{fffd}a");
}

#[test]
fn tags_match_only_in_bounds() {
    let b = b"..SCRM";
    assert!(has_tag(b, 2, b"SCRM"));
    assert!(!has_tag(b, 1, b"SCRM"));
    assert!(!has_tag(b, 3, b"SCRM"));
}
