use psptool::address::{FlashOffset, RomSize};
use psptool::directory::{
    Directory, PspDirectory, BIOS_ENTRY_SIZE, DIRECTORY_HEADER_SIZE, PSP_ENTRY_SIZE,
};
use psptool::entry::Entry;
use psptool::replace::{
    replace_bios_entry_body, replace_entry_body, replace_psp_entry_body, ReplaceError,
};
use psptool::source::SourceBytes;
use psptool::writer::BlobEditor;

/// Where a record keeps its size, and in how many bytes.
const ENTRY_RECORD_SIZE_OFFSET: usize = 0x04;
const ENTRY_RECORD_SIZE_LEN: usize = 4;

// ------------------------------------------------------------------
// Helpers — handcrafted single-entry directories.
// ------------------------------------------------------------------

/// Build a `$PSP` directory containing one entry of `entry_type` with
/// `body` placed immediately after the entry record.
fn psp_dir_with_entry(entry_type: u8, body: &[u8]) -> Vec<u8> {
    let body_off = (DIRECTORY_HEADER_SIZE + PSP_ENTRY_SIZE) as u32;
    let size = body.len() as u32;
    let additional_info = (1u32 << 31) | (0b10u32 << 24);
    let mut entry = [0u8; PSP_ENTRY_SIZE];
    entry[0x00] = entry_type;
    entry[0x04..0x08].copy_from_slice(&size.to_le_bytes());
    entry[0x08..0x0C].copy_from_slice(&body_off.to_le_bytes());
    let entry_rsv0: u32 = 0b10u32 << 30;
    entry[0x0C..0x10].copy_from_slice(&entry_rsv0.to_le_bytes());

    let mut out = Vec::new();
    out.extend_from_slice(b"$PSP");
    out.extend_from_slice(&0u32.to_le_bytes());
    out.extend_from_slice(&1u32.to_le_bytes());
    out.extend_from_slice(&additional_info.to_le_bytes());
    out.extend_from_slice(&entry);
    out.extend_from_slice(body);
    out
}

/// Build a `$PSP` directory containing two entries placed back-to-back.
/// Both bodies live after the (1 header + 2 records) prologue.
fn psp_dir_with_two_entries(types: [u8; 2], bodies: [&[u8]; 2]) -> (Vec<u8>, [usize; 2]) {
    let prologue = DIRECTORY_HEADER_SIZE + 2 * PSP_ENTRY_SIZE;
    let body0_off = prologue as u32;
    let body1_off = (prologue + bodies[0].len()) as u32;
    let additional_info = (1u32 << 31) | (0b10u32 << 24);
    let entry_rsv0: u32 = 0b10u32 << 30;

    let mut e0 = [0u8; PSP_ENTRY_SIZE];
    e0[0] = types[0];
    e0[4..8].copy_from_slice(&(bodies[0].len() as u32).to_le_bytes());
    e0[8..12].copy_from_slice(&body0_off.to_le_bytes());
    e0[12..16].copy_from_slice(&entry_rsv0.to_le_bytes());

    let mut e1 = [0u8; PSP_ENTRY_SIZE];
    e1[0] = types[1];
    e1[4..8].copy_from_slice(&(bodies[1].len() as u32).to_le_bytes());
    e1[8..12].copy_from_slice(&body1_off.to_le_bytes());
    e1[12..16].copy_from_slice(&entry_rsv0.to_le_bytes());

    let mut out = Vec::new();
    out.extend_from_slice(b"$PSP");
    out.extend_from_slice(&0u32.to_le_bytes());
    out.extend_from_slice(&2u32.to_le_bytes());
    out.extend_from_slice(&additional_info.to_le_bytes());
    out.extend_from_slice(&e0);
    out.extend_from_slice(&e1);
    out.extend_from_slice(bodies[0]);
    out.extend_from_slice(bodies[1]);

    let abs0 = body0_off as usize;
    let abs1 = body1_off as usize;
    (out, [abs0, abs1])
}

fn parse_psp(blob_bytes: Vec<u8>) -> (SourceBytes, PspDirectory) {
    let blob = SourceBytes::from_blob(blob_bytes);
    let dir = match Directory::parse_at(&blob, FlashOffset(0)).unwrap() {
        Directory::Psp(p) => p,
        _ => unreachable!(),
    };
    (blob, dir)
}

// ------------------------------------------------------------------
// Equal-length replacement (the locality property's headline case).
// ------------------------------------------------------------------

#[test]
fn equal_length_replacement_locality() {
    // Two adjacent entries; replace the first; sibling and surrounding
    // bytes must be byte-identical to the source.
    let body0 = vec![0xAAu8; 0x20];
    let body1 = vec![0xBBu8; 0x10];
    let (bytes, [abs0, abs1]) = psp_dir_with_two_entries([0x21, 0x21], [&body0, &body1]);
    let original = bytes.clone();
    let (blob, dir) = parse_psp(bytes);

    let replacement = vec![0xCCu8; 0x20];
    let mut editor = BlobEditor::from_blob(blob);
    replace_psp_entry_body(
        &mut editor,
        &dir,
        0,
        RomSize::MIB_16,
        FlashOffset(0),
        &replacement,
    )
    .unwrap();
    let out = editor.serialize();

    assert_eq!(out.len(), original.len());
    // First body is overwritten.
    assert_eq!(&out[abs0..abs0 + 0x20], &replacement[..]);
    // Sibling body untouched.
    assert_eq!(&out[abs1..abs1 + 0x10], &body1[..]);
    // Everything outside the patched body matches the source byte-for-byte.
    assert_eq!(&out[..abs0], &original[..abs0]);
    assert_eq!(&out[abs0 + 0x20..], &original[abs0 + 0x20..]);
}

#[test]
fn equal_length_replacement_does_not_touch_record_size_field() {
    // When the replacement length matches the original, the entry record
    // bytes (including the `size` field) stay verbatim.
    let body = vec![0xAAu8; 0x10];
    let bytes = psp_dir_with_entry(0x21, &body);
    let original = bytes.clone();
    let (blob, dir) = parse_psp(bytes);

    let mut editor = BlobEditor::from_blob(blob);
    replace_psp_entry_body(
        &mut editor,
        &dir,
        0,
        RomSize::MIB_16,
        FlashOffset(0),
        &[0xCC; 0x10],
    )
    .unwrap();
    // Exactly one patch — only the body. The record was untouched.
    assert_eq!(editor.patch_count(), 1);

    let out = editor.serialize();
    let record_offset = DIRECTORY_HEADER_SIZE;
    assert_eq!(
        &out[record_offset..record_offset + PSP_ENTRY_SIZE],
        &original[record_offset..record_offset + PSP_ENTRY_SIZE]
    );
}

// ------------------------------------------------------------------
// Shrinking — record.size rewritten with exact length, NO 0x10 rounding.
// ------------------------------------------------------------------

#[test]
fn shrinking_rewrites_size_field_to_exact_length() {
    // Original body 0x40 long. Shrink to 0x33 — a deliberately
    // non-`0x10`-aligned length so a buggy "round to ENTRY_ALIGNMENT"
    // implementation would fail this test.
    let body = vec![0xAAu8; 0x40];
    let bytes = psp_dir_with_entry(0x21, &body);
    let original = bytes.clone();
    let (blob, dir) = parse_psp(bytes);

    let replacement = vec![0xCCu8; 0x33];
    let mut editor = BlobEditor::from_blob(blob);
    replace_psp_entry_body(
        &mut editor,
        &dir,
        0,
        RomSize::MIB_16,
        FlashOffset(0),
        &replacement,
    )
    .unwrap();
    let out = editor.serialize();

    // 1) The record's `size` field is now exactly 0x33 (NOT 0x40, NOT
    //    rounded up to 0x10).
    let record_off = DIRECTORY_HEADER_SIZE;
    let size_field_off = record_off + ENTRY_RECORD_SIZE_OFFSET;
    let written_size = u32::from_le_bytes(
        out[size_field_off..size_field_off + ENTRY_RECORD_SIZE_LEN]
            .try_into()
            .unwrap(),
    );
    assert_eq!(written_size, 0x33);

    // 2) The first 0x33 bytes of the body slot are the replacement.
    let body_off = DIRECTORY_HEADER_SIZE + PSP_ENTRY_SIZE;
    assert_eq!(&out[body_off..body_off + 0x33], &replacement[..]);

    // 3) The trailing 0x40 - 0x33 = 0xD bytes of the original slot are
    //    unchanged from the source. We deliberately do NOT zero them.
    assert_eq!(
        &out[body_off + 0x33..body_off + 0x40],
        &original[body_off + 0x33..body_off + 0x40]
    );

    // 4) The record bytes other than the `size` field are unchanged.
    // type byte
    assert_eq!(out[record_off], original[record_off]);
    // offset field at +0x08..+0x0C
    assert_eq!(
        &out[record_off + 8..record_off + 12],
        &original[record_off + 8..record_off + 12]
    );
    // rsv0 at +0x0C..+0x10
    assert_eq!(
        &out[record_off + 12..record_off + 16],
        &original[record_off + 12..record_off + 16]
    );
}

// ------------------------------------------------------------------
// Rejection cases.
// ------------------------------------------------------------------

#[test]
fn rejects_growth_with_typed_error() {
    let body = vec![0xAAu8; 0x10];
    let bytes = psp_dir_with_entry(0x21, &body);
    let (blob, dir) = parse_psp(bytes);

    let mut editor = BlobEditor::from_blob(blob);
    let err = replace_psp_entry_body(
        &mut editor,
        &dir,
        0,
        RomSize::MIB_16,
        FlashOffset(0),
        &[0; 0x11],
    )
    .unwrap_err();
    assert!(matches!(
        err,
        ReplaceError::BodyTooLarge {
            available: 0x10,
            requested: 0x11,
        }
    ));
    // Failed validation must not leave dangling patches.
    assert!(editor.is_clean());
}

#[test]
fn rejects_soft_fuse_chain_entry() {
    // Type 0x0B with the no-size sentinel size — the parser returns an
    // `Entry` whose body aliases the record bytes.
    let mut entry = [0u8; PSP_ENTRY_SIZE];
    entry[0x00] = 0x0B;
    entry[0x04..0x08].copy_from_slice(&0xFFFF_FFFFu32.to_le_bytes());
    entry[0x08..0x0C].copy_from_slice(&0xDEAD_BEEFu32.to_le_bytes());
    entry[0x0C..0x10].copy_from_slice(&0xCAFE_BABEu32.to_le_bytes());

    let additional_info: u32 = (1u32 << 31) | (0b10u32 << 24);
    let mut bytes = Vec::new();
    bytes.extend_from_slice(b"$PSP");
    bytes.extend_from_slice(&0u32.to_le_bytes());
    bytes.extend_from_slice(&1u32.to_le_bytes());
    bytes.extend_from_slice(&additional_info.to_le_bytes());
    bytes.extend_from_slice(&entry);
    let (blob, dir) = parse_psp(bytes);

    let mut editor = BlobEditor::from_blob(blob);
    let err = replace_psp_entry_body(
        &mut editor,
        &dir,
        0,
        RomSize::MIB_16,
        FlashOffset(0),
        &[0u8; PSP_ENTRY_SIZE],
    )
    .unwrap_err();
    assert!(matches!(err, ReplaceError::SoftFuseChainEntry));
    assert!(editor.is_clean());
}

#[test]
fn empty_replacement_still_rewrites_size_to_zero() {
    // Edge case: replacing with an empty body. The size field becomes 0
    // and no body bytes are patched (writer rejects empty patches as a
    // no-op so this exercises that path).
    let body = vec![0xAAu8; 0x10];
    let bytes = psp_dir_with_entry(0x21, &body);
    let original = bytes.clone();
    let (blob, dir) = parse_psp(bytes);

    let mut editor = BlobEditor::from_blob(blob);
    replace_psp_entry_body(
        &mut editor,
        &dir,
        0,
        RomSize::MIB_16,
        FlashOffset(0),
        &[],
    )
    .unwrap();
    let out = editor.serialize();

    // Size field is 0.
    let size_off = DIRECTORY_HEADER_SIZE + ENTRY_RECORD_SIZE_OFFSET;
    let written = u32::from_le_bytes(out[size_off..size_off + 4].try_into().unwrap());
    assert_eq!(written, 0);
    // Original body bytes still present (we only touched the size field).
    let body_off = DIRECTORY_HEADER_SIZE + PSP_ENTRY_SIZE;
    assert_eq!(
        &out[body_off..body_off + 0x10],
        &original[body_off..body_off + 0x10]
    );
}

// ------------------------------------------------------------------
// BIOS-family parity check.
// ------------------------------------------------------------------

fn bios_dir_with_entry(entry_type: u8, body: &[u8]) -> Vec<u8> {
    let body_off = (DIRECTORY_HEADER_SIZE + BIOS_ENTRY_SIZE) as u32;
    let size = body.len() as u32;
    let additional_info = (1u32 << 31) | (0b10u32 << 24);
    let mut entry = [0u8; BIOS_ENTRY_SIZE];
    entry[0x00] = entry_type;
    entry[0x04..0x08].copy_from_slice(&size.to_le_bytes());
    entry[0x08..0x0C].copy_from_slice(&body_off.to_le_bytes());
    let entry_rsv0: u32 = 0b10u32 << 30;
    entry[0x0C..0x10].copy_from_slice(&entry_rsv0.to_le_bytes());
    entry[0x10..0x18].copy_from_slice(&[0xFFu8; 8]); // destination = unused

    let mut out = Vec::new();
    out.extend_from_slice(b"$BHD");
    out.extend_from_slice(&0u32.to_le_bytes());
    out.extend_from_slice(&1u32.to_le_bytes());
    out.extend_from_slice(&additional_info.to_le_bytes());
    out.extend_from_slice(&entry);
    out.extend_from_slice(body);
    out
}

#[test]
fn bios_replace_works_and_size_field_at_same_offset() {
    let body = vec![0x55u8; 0x20];
    let bytes = bios_dir_with_entry(0x62, &body);
    let original = bytes.clone();
    let blob = SourceBytes::from_blob(bytes);
    let dir = match Directory::parse_at(&blob, FlashOffset(0)).unwrap() {
        Directory::Bios(b) => b,
        _ => unreachable!(),
    };

    let replacement = vec![0xEEu8; 0x15]; // shrink to 0x15 — non-aligned
    let mut editor = BlobEditor::from_blob(blob);
    replace_bios_entry_body(
        &mut editor,
        &dir,
        0,
        RomSize::MIB_16,
        FlashOffset(0),
        &replacement,
    )
    .unwrap();
    let out = editor.serialize();

    // BIOS records ALSO put `size` at +0x04 — the same constant we use.
    let size_off = DIRECTORY_HEADER_SIZE + ENTRY_RECORD_SIZE_OFFSET;
    let written = u32::from_le_bytes(out[size_off..size_off + 4].try_into().unwrap());
    assert_eq!(written, 0x15);
    // Tail of slot unchanged.
    let body_off = DIRECTORY_HEADER_SIZE + BIOS_ENTRY_SIZE;
    assert_eq!(
        &out[body_off + 0x15..body_off + 0x20],
        &original[body_off + 0x15..body_off + 0x20]
    );
}

// ------------------------------------------------------------------
// Locality across a layered ROM (FET → directory → entry → body).
// ------------------------------------------------------------------

#[test]
fn replace_via_entry_handle_preserves_everything_else() {
    let body0 = vec![0x11u8; 0x40];
    let body1 = vec![0x22u8; 0x30];
    let (bytes, [abs0, abs1]) = psp_dir_with_two_entries([0x21, 0x21], [&body0, &body1]);
    let original = bytes.clone();
    let (blob, dir) = parse_psp(bytes);
    let entry = Entry::parse_psp(&blob, &dir, 1, RomSize::MIB_16, FlashOffset(0)).unwrap();

    let mut editor = BlobEditor::from_blob(blob);
    let replacement = vec![0x33u8; 0x30];
    replace_entry_body(&mut editor, &entry, &replacement).unwrap();
    let out = editor.serialize();

    assert_eq!(&out[abs0..abs0 + body0.len()], &body0[..]);
    assert_eq!(&out[abs1..abs1 + 0x30], &replacement[..]);
    // First record + first body untouched.
    assert_eq!(&out[..abs1], &original[..abs1]);
}

#[test]
fn replaced_body_reads_back() {
    for len in [0x40usize, 0x33, 1] {
        let bytes = psp_dir_with_entry(0x21, &[0xAA; 0x40]);
        let (blob, dir) = parse_psp(bytes);
        let new_body: Vec<u8> = (0..len).map(|i| i as u8).collect();
        let mut editor = BlobEditor::from_blob(blob);
        replace_psp_entry_body(&mut editor, &dir, 0, RomSize::MIB_16, FlashOffset(0), &new_body)
            .unwrap();
        let (blob, dir) = parse_psp(editor.serialize());
        let entry = Entry::parse_psp(&blob, &dir, 0, RomSize::MIB_16, FlashOffset(0)).unwrap();
        assert_eq!(entry.body.as_bytes(), new_body.as_slice());
    }
}

#[test]
fn missing_entry_is_a_parse_error() {
    let (blob, dir) = parse_psp(psp_dir_with_entry(0x21, &[0xAA; 0x10]));
    let mut editor = BlobEditor::from_blob(blob);
    let e = replace_psp_entry_body(&mut editor, &dir, 3, RomSize::MIB_16, FlashOffset(0), &[])
        .unwrap_err();
    assert_eq!(
        e.text(),
        "entry index 3 out of range for directory at 0x00000000 (1 entries)"
    );
    assert!(editor.is_clean());
}

#[test]
fn refused_replacements_are_described() {
    let e = ReplaceError::BodyTooLarge { available: 0x10, requested: 0x11 };
    assert_eq!(
        e.text(),
        "new body length 17 exceeds original entry slot 16 (growing entries is not supported by replace_entry_body)"
    );
    assert_eq!(
        ReplaceError::SoftFuseChainEntry.text(),
        "entry is a soft-fuse-chain — replace_entry_body has no slot to write"
    );
}

#[test]
fn second_replacement_overlaps_the_first() {
    let (blob, dir) = parse_psp(psp_dir_with_entry(0x21, &[0xAA; 0x10]));
    let mut editor = BlobEditor::from_blob(blob);
    let mut replace = |body: &[u8]| {
        replace_psp_entry_body(&mut editor, &dir, 0, RomSize::MIB_16, FlashOffset(0), body)
    };
    replace(&[1; 0x10]).unwrap();
    let e = replace(&[2; 0x10]).unwrap_err();
    assert!(matches!(e, ReplaceError::Patch(_)), "{e:?}");
    assert_eq!(
        e.text(),
        "patch at 0x00000020..0x00000030 overlaps existing patch at 0x00000020..0x00000030"
    );
}

#[test]
fn refused_shorter_replacement_records_nothing() {
    let (blob, dir) = parse_psp(psp_dir_with_entry(0x21, &[0xAA; 0x10]));
    let body = FlashOffset(0x20);

    // The body is taken, the size field is not.
    let mut editor = BlobEditor::from_blob(blob.clone());
    editor.patch(FlashOffset(body.0 + 2), vec![7; 4]).unwrap();
    let image = editor.serialize();
    let e = replace_psp_entry_body(
        &mut editor,
        &dir,
        0,
        RomSize::MIB_16,
        FlashOffset(0),
        &[1; 8],
    )
    .unwrap_err();
    assert_eq!(
        e.text(),
        "patch at 0x00000020..0x00000028 overlaps existing patch at 0x00000022..0x00000026"
    );
    assert_eq!(editor.patch_count(), 1);
    assert_eq!(editor.serialize(), image);

    // The size field is taken.
    let mut editor = BlobEditor::from_blob(blob);
    editor.patch(FlashOffset(0x14), vec![7; 4]).unwrap();
    let e = replace_psp_entry_body(
        &mut editor,
        &dir,
        0,
        RomSize::MIB_16,
        FlashOffset(0),
        &[1; 8],
    )
    .unwrap_err();
    assert_eq!(
        e.text(),
        "patch at 0x00000014..0x00000018 overlaps existing patch at 0x00000014..0x00000018"
    );
    assert_eq!(editor.patch_count(), 1);
    assert_eq!(editor.patches()[0].0, FlashOffset(0x14));
}
