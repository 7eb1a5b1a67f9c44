use psptool::text::{
    ascii_or_hex_4, format_dec, format_hex_u64, hex16, join, magic_string, push_dec_padded,
    push_hex_padded, push_padded_right, push_upper_hex,
};
use psptool::wire::{read_be32, read_le16, read_le32, read_le64, write_le32};

#[test]
fn numbers_become_digits() {
    assert_eq!(format_dec(0), "0");
    assert_eq!(format_dec(u64::MAX), "18446744073709551615");
    assert_eq!(format_hex_u64(0), "0x0");
    assert_eq!(format_hex_u64(0xA7000), "0xa7000");
    let mut out = String::new();
    push_upper_hex(0xAB, &mut out);
    push_hex_padded(0xAB, 4, &mut out);
    push_dec_padded(7, '0', 2, &mut out);
    push_padded_right("x", ' ', 3, &mut out);
    assert_eq!(out, "AB00ab07x  ");
}

#[test]
fn bytes_become_digits() {
    assert_eq!(hex16(&[0xA1; 16]), "a1a1a1a1a1a1a1a1a1a1a1a1a1a1a1a1");
    assert_eq!(ascii_or_hex_4(b"$PS1"), "$PS1");
    assert_eq!(ascii_or_hex_4(&[0x24, 0x50, 0x20, 0x31]), "24502031");
    assert_eq!(magic_string(&[0x01, 0x02, 0xFF, 0x00]), "0102ff00");
}

#[test]
fn parts_are_joined() {
    let parts: Vec<String> = vec!["a".to_string(), "b".to_string(), "c".to_string()];
    assert_eq!(join(&parts, ", "), "a, b, c");
    assert_eq!(join(&Vec::new(), ", "), "");
}

#[test]
fn words_are_read_in_both_orders() {
    let bytes = [0x01u8, 0x02, 0x03, 0x04, 0x05, 0x06, 0x07, 0x08];
    assert_eq!(read_le16(&bytes, 1), 0x0302);
    assert_eq!(read_le32(&bytes, 0), 0x0403_0201);
    assert_eq!(read_be32(&bytes, 0), 0x0102_0304);
    assert_eq!(read_le64(&bytes, 0), 0x0807_0605_0403_0201);
    assert_eq!(write_le32(0x0403_0201), vec![1, 2, 3, 4]);
    assert_eq!(read_le32(&write_le32(0xDEAD_BEEF), 0), 0xDEAD_BEEF);
}
