use psptool::id::{DirectoryId, EntryType, PspGenerationId, ZenGeneration};

#[test]
fn entry_type_secondary_directory_pointer() {
    for t in [0x40u8, 0x49, 0x70] {
        assert!(EntryType(t).is_secondary_directory_pointer());
    }
    assert!(!EntryType(0x00).is_secondary_directory_pointer());
    assert!(!EntryType(0x48).is_secondary_directory_pointer());
    assert!(!EntryType(0x4A).is_secondary_directory_pointer());
}

#[test]
fn entry_type_tertiary_directory_pointer() {
    assert!(EntryType(0x48).is_tertiary_directory_pointer());
    assert!(EntryType(0x4A).is_tertiary_directory_pointer());
    assert!(!EntryType(0x40).is_tertiary_directory_pointer());
}

#[test]
fn entry_type_pubkey_set() {
    for t in [
        0x00u8, 0x05, 0x09, 0x0A, 0x0D, 0x43, 0x4E, 0x53, 0x81, 0x97, 0xAD,
    ] {
        assert!(EntryType(t).is_pubkey(), "0x{t:02x} should be pubkey");
    }
    assert!(!EntryType(0x01).is_pubkey());
    assert!(!EntryType(0x44).is_pubkey());
}

#[test]
fn entry_type_key_store() {
    assert!(EntryType(0x50).is_key_store());
    assert!(EntryType(0x51).is_key_store());
    assert!(!EntryType(0x52).is_key_store());
}

#[test]
fn entry_type_no_header_set() {
    for t in [
        0x04u8, 0x06, 0x07, 0x0B, 0x1A, 0x21, 0x22, 0x38, 0x40, 0x46, 0x48, 0x49, 0x4A, 0x54,
        0x5F, 0x60, 0x61, 0x62, 0x63, 0x66, 0x67, 0x68, 0x69, 0x6D, 0x70, 0x7C, 0x82, 0x84,
        0x8D, 0x98,
    ] {
        assert!(
            EntryType(t).has_no_header(),
            "0x{t:02x} should be no-header"
        );
    }
    assert!(!EntryType(0x05).has_no_header());
    assert!(!EntryType(0x50).has_no_header());
}

#[test]
fn entry_type_soft_fuse_chain() {
    assert!(EntryType(0x0B).is_soft_fuse_chain());
    assert!(EntryType(0x0B).has_no_size());
    assert!(!EntryType(0x0C).is_soft_fuse_chain());
}

#[test]
fn entry_type_wrapped_ikek_and_apob() {
    assert!(EntryType(0x21).is_wrapped_ikek());
    assert!(EntryType(0x61).is_bios_apob());
    assert!(!EntryType(0x60).is_wrapped_ikek());
    assert!(!EntryType(0x21).is_bios_apob());
}

#[test]
fn psp_generation_zen2_match() {
    assert_eq!(
        PspGenerationId(0xBC0B_0500).zen_generation(),
        Some(ZenGeneration::Zen2)
    );
    // `BC 0A 01` is also Zen 2.
    assert_eq!(
        PspGenerationId(0xBC0A_0100).zen_generation(),
        Some(ZenGeneration::Zen2)
    );
}

#[test]
fn psp_generation_zen1_match() {
    assert_eq!(
        PspGenerationId(0xBC09_0000).zen_generation(),
        Some(ZenGeneration::Zen1)
    );
    assert_eq!(
        PspGenerationId(0xBC0A_0000).zen_generation(),
        Some(ZenGeneration::Zen1)
    );
}

#[test]
fn psp_generation_low_byte_ignored() {
    // Only the high three bytes are matched — sub-revision in the low
    // byte must not change the generation.
    assert_eq!(
        PspGenerationId(0xBC0B_0500).zen_generation(),
        PspGenerationId(0xBC0B_05FF).zen_generation(),
    );
}

#[test]
fn psp_generation_unknown() {
    assert_eq!(PspGenerationId(0x0000_0000).zen_generation(), None);
    assert_eq!(PspGenerationId(0xDEAD_BEEF).zen_generation(), None);
}

#[test]
fn psp_generation_high24_extracts_top_three_bytes() {
    assert_eq!(PspGenerationId(0xBC0B_05FF).high24(), 0x00BC_0B05);
}

#[test]
fn directory_id_roundtrip() {
    let id = DirectoryId::new(7);
    assert_eq!(id.get(), 7);
    let s = format!("{id:?}");
    assert!(s.contains('7'), "{s}");
}
