use psptool::micro;

fn u32_le(buf: &[u8], off: usize) -> u32 {
    u32::from_le_bytes(buf[off..off + 4].try_into().unwrap())
}

#[test]
fn fet_starts_with_magic_and_terminates_with_four_ff_dwords() {
    let bytes = micro::fet();
    assert_eq!(&bytes[0..4], &[0xAA, 0x55, 0xAA, 0x55], "FET magic");
    // Last 16 bytes are the 4-dword 0xFFFFFFFF terminator.
    let tail = &bytes[bytes.len() - 16..];
    assert_eq!(tail, &[0xFF; 16], "FET terminator");
}

#[test]
fn psp_directory_has_dollar_psp_magic_and_one_entry() {
    let bytes = micro::psp_directory();
    assert_eq!(&bytes[0..4], b"$PSP");
    assert_eq!(u32_le(&bytes, 0x08), 1, "count == 1");
    // Body sits past header (0x10) + 1 entry (0x10) = 0x20.
    assert!(bytes.len() >= 0x20);
}

#[test]
fn bhd_directory_has_dollar_bhd_magic_and_24byte_entry() {
    let bytes = micro::bhd_directory();
    assert_eq!(&bytes[0..4], b"$BHD");
    assert_eq!(u32_le(&bytes, 0x08), 1, "count == 1");
    // Header (0x10) + 1 BIOS entry (0x18) = 0x28; body sits past that.
    assert!(bytes.len() >= 0x28);
}

#[test]
fn combo_psp_has_combo_magic_and_one_entry() {
    let bytes = micro::combo_psp();
    assert_eq!(&bytes[0..4], b"2PSP");
    assert_eq!(u32_le(&bytes, 0x08), 1, "count == 1");
    // Combo header is 0x20 bytes (4 dwords + 16-byte reserved); 1 combo
    // entry is 0x10 bytes.
    assert_eq!(bytes.len(), 0x20 + 0x10);
    // 16-byte reserved at +0x10..+0x20 must be zero.
    assert!(bytes[0x10..0x20].iter().all(|&b| b == 0));
}

#[test]
fn header_signed_has_signed_flag_and_correct_total_length() {
    let bytes = micro::header_signed();
    assert_eq!(bytes.len(), 0x100 + 0x10 + 0x100, "header + body + sig");
    assert_eq!(u32_le(&bytes, 0x18), 0, "is_encrypted == 0");
    assert_eq!(u32_le(&bytes, 0x30), 1, "is_signed == 1");
    assert_eq!(u32_le(&bytes, 0x34), 0, "signature_type == RSA-2048");
    assert_eq!(u32_le(&bytes, 0x48), 0, "is_compressed == 0");
}

#[test]
fn header_encrypted_has_iv_and_wrapped_key_set() {
    let bytes = micro::header_encrypted();
    assert_eq!(u32_le(&bytes, 0x18), 1, "is_encrypted == 1");
    // IV (0x20..0x30) and wrapped_key (0x80..0x90) MUST be non-zero.
    assert!(bytes[0x20..0x30].iter().any(|&b| b != 0), "non-zero IV");
    assert!(
        bytes[0x80..0x90].iter().any(|&b| b != 0),
        "non-zero wrapped key"
    );
}

#[test]
fn header_compressed_has_zlib_magic_in_body() {
    let bytes = micro::header_compressed();
    assert_eq!(u32_le(&bytes, 0x48), 1, "is_compressed == 1");
    let zlib_size = u32_le(&bytes, 0x54) as usize;
    let size_unc = u32_le(&bytes, 0x50) as usize;
    assert!(zlib_size > 0 && size_unc > 0);
    // Body starts at 0x100; first two bytes are a zlib header.
    let zlib_first = bytes[0x100];
    let zlib_magics = [0x78u8];
    assert!(
        zlib_magics.contains(&zlib_first),
        "zlib magic at body start"
    );
    let zlib_second = bytes[0x101];
    assert!(matches!(zlib_second, 0xDA | 0x9C | 0x5E | 0x01));
}

#[test]
fn pubkey_v1_has_correct_version_and_sizes() {
    let bytes = micro::pubkey_v1();
    assert_eq!(u32_le(&bytes, 0x00), 1, "version == 1");
    let pubexp_bits = u32_le(&bytes, 0x38);
    let modulus_bits = u32_le(&bytes, 0x3C);
    assert_eq!(pubexp_bits, 2048);
    assert_eq!(modulus_bits, 2048);
    let pubexp_size = (pubexp_bits as usize) / 8;
    let modulus_size = (modulus_bits as usize) / 8;
    // No embedded signature.
    assert_eq!(bytes.len(), 0x40 + pubexp_size + modulus_size);
    // pubexp low 4 bytes = 0x10001 little-endian, rest zero.
    assert_eq!(&bytes[0x40..0x44], &[0x01, 0x00, 0x01, 0x00]);
    assert!(bytes[0x44..0x40 + pubexp_size].iter().all(|&b| b == 0));
}
