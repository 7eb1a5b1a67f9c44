use psptool::id::EntryType;
use psptool::types::readable_type;

#[test]
fn psp_named_type_uses_name_tilde_hex() {
    assert_eq!(readable_type(EntryType(0x21), false), "WRAPPED_IKEK~0x21");
    assert_eq!(
        readable_type(EntryType(0x01), false),
        "PSP_FW_BOOT_LOADER~0x1"
    );
}

#[test]
fn unknown_type_falls_back_to_hex() {
    assert_eq!(readable_type(EntryType(0xEE), false), "0xee");
    assert_eq!(readable_type(EntryType(0x11), false), "0x11");
}

#[test]
fn bios_override_for_0x62_is_bare_bios() {
    assert_eq!(readable_type(EntryType(0x62), true), "BIOS");
}

#[test]
fn bios_override_for_0x61_is_bare_apob() {
    assert_eq!(readable_type(EntryType(0x61), true), "APOB");
}

#[test]
fn bios_override_for_other_uses_name_tilde_hex() {
    assert_eq!(readable_type(EntryType(0x66), true), "MICROCODE_PATCH~0x66");
    assert_eq!(readable_type(EntryType(0x60), true), "APCB~0x60");
}

#[test]
fn bios_override_does_not_apply_to_psp_directory() {
    // 0x66 is in BIOS overrides, but in a PSP directory it falls through
    // to the PSP table — which has no entry for 0x66, so it's unknown.
    assert_eq!(readable_type(EntryType(0x66), false), "0x66");
    // 0x60 likewise: not in the PSP table → unknown.
    assert_eq!(readable_type(EntryType(0x60), false), "0x60");
}
