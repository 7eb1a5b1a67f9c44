use psptool::address::FlashOffset;
use psptool::directory::Directory;
use psptool::error::ParseError;
use psptool::fet::Fet;
use psptool::source::SourceBytes;

#[test]
fn truncation_is_described() {
    let e = ParseError::Truncated {
        what: "FET magic",
        offset: FlashOffset(0x20000),
        expected: 4,
        available: 2,
    };
    assert_eq!(
        e.text(),
        "truncated FET magic at 0x00020000: expected 4 bytes, only 2 available"
    );
}

#[test]
fn wrong_table_tag_is_described() {
    let blob = SourceBytes::from_blob(b"NOPE".to_vec());
    let e = Fet::parse_at(&blob, FlashOffset(0)).unwrap_err();
    assert!(
        e.text()
            .starts_with("bad magic at 0x00000000: got Magic(\"NOPE\"), expected one of ["),
        "{}",
        e.text()
    );
}

#[test]
fn wrong_directory_tag_is_described() {
    let blob = SourceBytes::from_blob(vec![0x01u8; 0x20]);
    let e = Directory::parse_at(&blob, FlashOffset(0)).unwrap_err();
    let text = e.text();
    assert!(text.starts_with("bad magic at 0x00000000: got "), "{text}");
    assert!(text.contains("Magic(\"$PSP\")"), "{text}");
}

#[test]
fn missing_terminator_is_described() {
    let e = ParseError::FetUnterminated {
        offset: FlashOffset(0xFA0000),
    };
    assert_eq!(
        e.text(),
        "FET at 0x00fa0000 has no terminator within the remaining bytes"
    );
}

#[test]
fn reserved_bytes_are_described() {
    let e = ParseError::ComboReservedNonZero {
        offset: FlashOffset(0x1000),
    };
    assert_eq!(
        e.text(),
        "combo directory at 0x00001000 has non-zero reserved bytes at +0x10..+0x20"
    );
}

#[test]
fn missing_entry_is_described() {
    let e = ParseError::EntryIndexOutOfRange {
        offset: FlashOffset(0x40),
        index: 5,
        count: 1,
    };
    assert_eq!(
        e.text(),
        "entry index 5 out of range for directory at 0x00000040 (1 entries)"
    );
}
