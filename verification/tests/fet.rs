use psptool::address::{Address, FlashOffset, RomSize};
use psptool::error::ParseError;
use psptool::fet::{
    detect_rom_layout, scan_fet_candidates, Fet, FetSlot, FET_MAGIC_SIZE, FET_SLOT_SIZE,
    FET_TERMINATOR_SIZE,
};
use psptool::magic::FET_MAGIC;
use psptool::micro;
use psptool::source::SourceBytes;

fn empty_blob() -> SourceBytes {
    SourceBytes::from_blob(Vec::<u8>::new())
}

#[test]
fn parse_micro_fixture_fet() {
    // The fixture is: magic + slot 0 (0x00000000) + slot 1
    // (0xFFFFFFFE) + 16-byte terminator. Total 28 bytes.
    let bytes = micro::fet();
    assert_eq!(
        bytes.len(),
        FET_MAGIC_SIZE + 2 * FET_SLOT_SIZE + FET_TERMINATOR_SIZE
    );
    let blob = SourceBytes::from_blob(bytes);
    let fet = Fet::parse_at(&blob, FlashOffset(0)).expect("parse fixture FET");

    assert_eq!(fet.source.offset(), FlashOffset(0));
    assert_eq!(fet.source.len(), 28);
    assert_eq!(fet.slots.len(), 2);

    // Slot 0: 0x00000000 → sentinel
    assert!(matches!(fet.slots[0].slot, FetSlot::Sentinel(a) if a == Address(0)));
    assert_eq!(fet.slots[0].source.offset(), FlashOffset(4));
    assert_eq!(fet.slots[0].source.len(), 4);

    // Slot 1: 0xFFFFFFFE → sentinel
    assert!(matches!(fet.slots[1].slot, FetSlot::Sentinel(a) if a == Address(0xFFFF_FFFE)));
    assert_eq!(fet.slots[1].source.offset(), FlashOffset(8));

    // No pointers in this fixture.
    assert_eq!(fet.pointers().len(), 0);
}

#[test]
fn parse_at_with_offset_root() {
    // Place the fixture at flash offset 0xFA0000 (a Zen 2 FET site) and parse from a `SourceBytes::with_offset` blob.
    let bytes = micro::fet();
    let blob = SourceBytes::with_offset(bytes, FlashOffset(0xFA_0000));
    let fet = Fet::parse_at(&blob, FlashOffset(0xFA_0000)).expect("parse offset FET");
    assert_eq!(fet.source.offset(), FlashOffset(0xFA_0000));
    assert_eq!(fet.slots[0].source.offset(), FlashOffset(0xFA_0004));
}

#[test]
fn parse_synthetic_fet_with_pointer_and_single_ff_sentinel() {
    // magic | 0xAABBCCDD (pointer) | 0xFFFFFFFF (single sentinel — NOT
    // the terminator) | 0x12345678 (pointer) | 16-byte terminator
    let mut buf = Vec::new();
    buf.extend_from_slice(&FET_MAGIC);
    buf.extend_from_slice(&0xAABB_CCDDu32.to_le_bytes());
    buf.extend_from_slice(&0xFFFF_FFFFu32.to_le_bytes()); // sentinel mid-FET
    buf.extend_from_slice(&0x1234_5678u32.to_le_bytes());
    buf.extend_from_slice(&[0xFF; FET_TERMINATOR_SIZE]);

    let blob = SourceBytes::from_blob(buf);
    let fet = Fet::parse_at(&blob, FlashOffset(0)).expect("parse synthetic FET");

    assert_eq!(fet.slots.len(), 3);
    assert!(matches!(fet.slots[0].slot, FetSlot::Pointer(a) if a == Address(0xAABB_CCDD)));
    assert!(matches!(fet.slots[1].slot, FetSlot::Sentinel(a) if a == Address(0xFFFF_FFFF)));
    assert!(matches!(fet.slots[2].slot, FetSlot::Pointer(a) if a == Address(0x1234_5678)));

    // Pointers skips the sentinel.
    let ptrs: Vec<Address> = fet.pointers().iter().map(|r| r.slot.address()).collect();
    assert_eq!(ptrs, vec![Address(0xAABB_CCDD), Address(0x1234_5678)]);
}

#[test]
fn bad_magic_is_rejected() {
    let mut buf = Vec::new();
    buf.extend_from_slice(b"NOPE");
    buf.extend_from_slice(&[0xFF; FET_TERMINATOR_SIZE]);
    let blob = SourceBytes::from_blob(buf);
    let err = Fet::parse_at(&blob, FlashOffset(0)).unwrap_err();
    assert!(matches!(err, ParseError::BadMagic { what: "FET", .. }));
}

#[test]
fn unterminated_fet_is_rejected() {
    // Magic + 1 dword pointer + EOF (no terminator).
    let mut buf = Vec::new();
    buf.extend_from_slice(&FET_MAGIC);
    buf.extend_from_slice(&0x1234_5678u32.to_le_bytes());
    let blob = SourceBytes::from_blob(buf);
    let err = Fet::parse_at(&blob, FlashOffset(0)).unwrap_err();
    assert!(matches!(err, ParseError::FetUnterminated { .. }));
}

#[test]
fn truncated_at_magic_is_rejected() {
    let blob = SourceBytes::from_blob(vec![0xAA, 0x55]);
    let err = Fet::parse_at(&blob, FlashOffset(0)).unwrap_err();
    assert!(matches!(
        err,
        ParseError::Truncated {
            what: "FET magic",
            ..
        }
    ));
}

#[test]
fn magic_offset_outside_blob_is_truncated() {
    let blob = SourceBytes::with_offset(vec![0u8; 4], FlashOffset(0x100));
    let err = Fet::parse_at(&blob, FlashOffset(0x80)).unwrap_err();
    assert!(matches!(err, ParseError::Truncated { .. }));
}

#[test]
fn scan_finds_zero_padded_candidate() {
    // pad (0x00000000) | FET magic | trailing junk
    let mut buf = vec![0xDEu8, 0xAD, 0xBE, 0xEF]; // unrelated prefix
    buf.extend_from_slice(&[0x00, 0x00, 0x00, 0x00]);
    buf.extend_from_slice(&FET_MAGIC);
    buf.extend_from_slice(&[0x99u8; 32]);

    let blob = SourceBytes::from_blob(buf);
    let cands = scan_fet_candidates(&blob);
    assert_eq!(cands, vec![FlashOffset(8)]);
}

#[test]
fn scan_finds_ff_padded_candidate() {
    let mut buf = vec![0u8; 0x100];
    // pad of 0xFF dwords + FET magic at flash offset 0x100.
    buf.extend_from_slice(&[0xFF, 0xFF, 0xFF, 0xFF]);
    buf.extend_from_slice(&FET_MAGIC);

    let blob = SourceBytes::from_blob(buf);
    let cands = scan_fet_candidates(&blob);
    assert_eq!(cands, vec![FlashOffset(0x104)]);
}

#[test]
fn scan_finds_multiple_candidates() {
    // Multi-FET case: two FETs in the same blob.
    let mut buf = Vec::new();
    // ROM A
    buf.extend_from_slice(&[0xFF, 0xFF, 0xFF, 0xFF]);
    buf.extend_from_slice(&FET_MAGIC);
    buf.extend_from_slice(&[0u8; 0x100]);
    // ROM B
    buf.extend_from_slice(&[0x00, 0x00, 0x00, 0x00]);
    buf.extend_from_slice(&FET_MAGIC);
    buf.extend_from_slice(&[0u8; 0x100]);

    let blob = SourceBytes::from_blob(buf);
    let cands = scan_fet_candidates(&blob);
    assert_eq!(cands.len(), 2);
    // First candidate magic is at offset 4 (after the 4-byte FF pad).
    assert_eq!(cands[0], FlashOffset(4));
    // ROM A occupies bytes [0..0x108] (4 pad + 4 magic + 0x100 trailing).
    // ROM B starts at 0x108: 4 zero pad, then magic at 0x10C.
    assert_eq!(cands[1], FlashOffset(0x10C));
}

#[test]
fn scan_ignores_unpadded_magic() {
    // FET magic at offset 0 with no pad before it → not a valid candidate.
    let mut buf = Vec::new();
    buf.extend_from_slice(&FET_MAGIC);
    buf.extend_from_slice(&[0u8; 16]);
    let blob = SourceBytes::from_blob(buf);
    assert!(scan_fet_candidates(&blob).is_empty());
}

#[test]
fn scan_respects_blob_root_offset() {
    // Blob rooted at 0x20_0000 (capsule envelope offset) — candidates
    // must be reported in absolute flash space.
    let mut buf = Vec::new();
    buf.extend_from_slice(&[0xFF, 0xFF, 0xFF, 0xFF]);
    buf.extend_from_slice(&FET_MAGIC);
    let blob = SourceBytes::with_offset(buf, FlashOffset(0x20_0000));
    let cands = scan_fet_candidates(&blob);
    assert_eq!(cands, vec![FlashOffset(0x20_0004)]);
}

#[test]
fn scan_empty_blob() {
    assert!(scan_fet_candidates(&empty_blob()).is_empty());
}

// ---------------------------------------------------------------------
// detect_rom_layout: ROM-origin discovery.
// ---------------------------------------------------------------------

#[test]
fn detect_rom_layout_bare_16mib() {
    // 16 MiB ROM, FET at 0x20000 (Zen 1 / PSPTrace boot location).
    // rom_origin must be 0.
    let mut buf = vec![0u8; 0x100_0000];
    let fet_off = 0x20_000usize;
    buf[fet_off..fet_off + FET_MAGIC_SIZE].copy_from_slice(&FET_MAGIC);
    buf[fet_off + FET_MAGIC_SIZE..fet_off + FET_MAGIC_SIZE + FET_TERMINATOR_SIZE]
        .copy_from_slice(&[0xFFu8; FET_TERMINATOR_SIZE]);

    let blob = SourceBytes::from_blob(buf);
    let layout =
        detect_rom_layout(&blob, FlashOffset(fet_off as u64)).expect("detect bare 16 MiB");
    assert_eq!(layout.rom_origin, FlashOffset(0));
    assert_eq!(layout.rom_size, RomSize::MIB_16);
}

#[test]
fn detect_rom_layout_capsule_wrapped_16mib() {
    // 16 MiB + 0x800 capsule envelope. FET at file-offset 0x20800; matching the
    // known offset 0x020000 yields rom_origin = 0x800.
    let envelope: usize = 0x800;
    let mut buf = vec![0u8; envelope + 0x100_0000];
    let fet_file_off = envelope + 0x20_000;
    buf[fet_file_off..fet_file_off + FET_MAGIC_SIZE].copy_from_slice(&FET_MAGIC);
    buf[fet_file_off + FET_MAGIC_SIZE..fet_file_off + FET_MAGIC_SIZE + FET_TERMINATOR_SIZE]
        .copy_from_slice(&[0xFFu8; FET_TERMINATOR_SIZE]);

    let blob = SourceBytes::from_blob(buf);
    let layout = detect_rom_layout(&blob, FlashOffset(fet_file_off as u64))
        .expect("detect capsule-wrapped");
    assert_eq!(layout.rom_origin, FlashOffset(envelope as u64));
    assert_eq!(layout.rom_size, RomSize::MIB_16);
}

#[test]
fn detect_rom_layout_returns_none_when_no_offset_fits() {
    // Tiny blob — no known offset can give a valid rom_origin where the
    // ROM also fits.
    let mut buf = vec![0u8; 0x40];
    buf[0x10..0x14].copy_from_slice(&FET_MAGIC);
    let blob = SourceBytes::from_blob(buf);
    assert!(detect_rom_layout(&blob, FlashOffset(0x10)).is_none());
}

#[test]
fn detect_rom_layout_underflow_when_fet_below_offset_table() {
    // FET at file offset 0x100 — smaller than every entry in the table,
    // so no rom_origin can be derived without underflow.
    let mut buf = vec![0u8; 0x100_0000];
    let fet_off = 0x100usize;
    buf[fet_off..fet_off + FET_MAGIC_SIZE].copy_from_slice(&FET_MAGIC);
    buf[fet_off + FET_MAGIC_SIZE..fet_off + FET_MAGIC_SIZE + FET_TERMINATOR_SIZE]
        .copy_from_slice(&[0xFFu8; FET_TERMINATOR_SIZE]);

    let blob = SourceBytes::from_blob(buf);
    assert!(detect_rom_layout(&blob, FlashOffset(fet_off as u64)).is_none());
}

#[test]
fn detect_rom_layout_zen_plus_fa0000() {
    // Zen+/Zen 2 layout: bare 16 MiB image with FET at 0xFA0000.
    let mut buf = vec![0u8; 0x100_0000];
    let fet_off = 0xFA_0000usize;
    buf[fet_off..fet_off + FET_MAGIC_SIZE].copy_from_slice(&FET_MAGIC);
    buf[fet_off + FET_MAGIC_SIZE..fet_off + FET_MAGIC_SIZE + FET_TERMINATOR_SIZE]
        .copy_from_slice(&[0xFFu8; FET_TERMINATOR_SIZE]);

    let blob = SourceBytes::from_blob(buf);
    let layout =
        detect_rom_layout(&blob, FlashOffset(fet_off as u64)).expect("detect 0xFA0000 FET");
    assert_eq!(layout.rom_origin, FlashOffset(0));
    assert_eq!(layout.rom_size, RomSize::MIB_16);
}

#[test]
fn both_byte_orders_of_the_tag_are_read() {
    for tag in [[0x55u8, 0xAA, 0x55, 0xAA], [0xAA, 0x55, 0xAA, 0x55]] {
        let mut buf = vec![0u8; 4];
        buf.extend_from_slice(&tag);
        buf.extend_from_slice(&0x0004_0000u32.to_le_bytes());
        buf.extend_from_slice(&[0xFF; FET_TERMINATOR_SIZE]);
        let blob = SourceBytes::from_blob(buf);
        assert_eq!(scan_fet_candidates(&blob), vec![FlashOffset(4)]);
        let fet = Fet::parse_at(&blob, FlashOffset(4)).unwrap();
        assert_eq!(fet.pointers().len(), 1);
        assert_eq!(fet.pointers()[0].slot.address(), Address(0x0004_0000));
    }
}

#[test]
fn classifying_a_slot_keeps_its_value() {
    for raw in [0u32, 0xFFFF_FFFE, 0xFFFF_FFFF, 0x0004_0000] {
        assert_eq!(FetSlot::classify(Address(raw)).address(), Address(raw));
    }
    assert!(matches!(FetSlot::classify(Address(1)), FetSlot::Pointer(_)));
    assert!(matches!(FetSlot::classify(Address(0)), FetSlot::Sentinel(_)));
}

#[test]
fn candidates_ascend() {
    let mut buf = vec![0u8; 0x40];
    for at in [0x04usize, 0x10, 0x24] {
        buf[at..at + 4].copy_from_slice(&FET_MAGIC);
    }
    let blob = SourceBytes::from_blob(buf);
    assert_eq!(
        scan_fet_candidates(&blob),
        vec![FlashOffset(0x04), FlashOffset(0x10), FlashOffset(0x24)]
    );
}

#[test]
fn tag_at_the_very_end_is_a_candidate() {
    let mut buf = vec![0u8; 8];
    buf[4..8].copy_from_slice(&FET_MAGIC);
    assert_eq!(
        scan_fet_candidates(&SourceBytes::from_blob(buf)),
        vec![FlashOffset(4)]
    );
}
