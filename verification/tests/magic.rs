use psptool::magic::{
    directory_family, DirectoryFamily, Magic, BHD_MAGIC, BL2_MAGIC, COMBO_BHD_MAGIC,
    COMBO_PSP_MAGIC, FET_MAGIC, KDB_MAGIC, PL2_MAGIC, PS1_MAGIC, PSP_MAGIC,
};

#[test]
fn ascii_magics_match_disk_layout() {
    // PSP-family magics are stored ASCII bytes-as-written.
    assert_eq!(Magic(PSP_MAGIC).as_bytes(), b"$PSP");
    assert_eq!(Magic(PL2_MAGIC).as_bytes(), b"$PL2");
    assert_eq!(Magic(BHD_MAGIC).as_bytes(), b"$BHD");
    assert_eq!(Magic(BL2_MAGIC).as_bytes(), b"$BL2");
    assert_eq!(Magic(COMBO_PSP_MAGIC).as_bytes(), b"2PSP");
    assert_eq!(Magic(COMBO_BHD_MAGIC).as_bytes(), b"2BHD");
    assert_eq!(Magic(PS1_MAGIC).as_bytes(), b"$PS1");
    assert_eq!(Magic(KDB_MAGIC).as_bytes(), b"$KDB");
}

#[test]
fn fet_magic_byte_order() {
    // `55 AA 55 AA` stands at the start of the FET on disk. The u32 little-endian read is therefore 0xAA55_AA55.
    assert_eq!(Magic(FET_MAGIC).as_bytes(), &[0x55, 0xAA, 0x55, 0xAA]);
    assert_eq!(Magic(FET_MAGIC).as_u32_le(), 0xAA55_AA55);
}

#[test]
fn psp_magic_u32() {
    // `$PSP` little-endian = 0x50_53_50_24 (P S P $).
    assert_eq!(Magic(PSP_MAGIC).as_u32_le(), 0x5053_5024);
}

#[test]
fn directory_family_dispatch() {
    assert_eq!(directory_family(Magic(PSP_MAGIC)), Some(DirectoryFamily::Psp));
    assert_eq!(directory_family(Magic(PL2_MAGIC)), Some(DirectoryFamily::Psp));
    assert_eq!(directory_family(Magic(BHD_MAGIC)), Some(DirectoryFamily::Bios));
    assert_eq!(directory_family(Magic(BL2_MAGIC)), Some(DirectoryFamily::Bios));
    assert_eq!(
        directory_family(Magic(COMBO_PSP_MAGIC)),
        Some(DirectoryFamily::Combo)
    );
    assert_eq!(
        directory_family(Magic(COMBO_BHD_MAGIC)),
        Some(DirectoryFamily::Combo)
    );

    // Unknown magic
    assert_eq!(directory_family(Magic::new([0, 0, 0, 0])), None);
    assert_eq!(directory_family(Magic::from_ascii(b"$KDB")), None);
    assert_eq!(directory_family(Magic(FET_MAGIC)), None);
}

#[test]
fn debug_format_ascii() {
    let s = Magic(PSP_MAGIC).debug_text();
    assert!(s.contains("$PSP"), "{s}");
}

#[test]
fn debug_format_binary() {
    let s = Magic(FET_MAGIC).debug_text();
    assert!(s.contains("0x55"), "{s}");
    assert!(s.contains("0xaa"), "{s}");
}
