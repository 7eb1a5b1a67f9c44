use psptool::address::{Address, AddressMode, FlashOffset, RomSize};
use psptool::directory::{
    Directory, BIOS_ENTRY_SIZE, COMBO_ENTRY_SIZE, COMBO_RESERVED_SIZE, DIRECTORY_HEADER_SIZE,
    PSP_ENTRY_SIZE,
};
use psptool::error::ParseError;
use psptool::fet::{Fet, FET_MAGIC_SIZE, FET_SLOT_SIZE, FET_TERMINATOR_SIZE};
use psptool::id::{EntryType, PspGenerationId, ZenGeneration};
use psptool::magic::{directory_family, Magic, BHD_MAGIC, COMBO_PSP_MAGIC, FET_MAGIC, PL2_MAGIC, PSP_MAGIC};
use psptool::micro;
use psptool::source::SourceBytes;
use psptool::walk::{walk_directories, DirectoryProvenance, DirectoryRef};

// ------------------------------------------------------------------
// Standalone parse tests using the micro-fixtures.
// ------------------------------------------------------------------

#[test]
fn parse_psp_directory_fixture() {
    let bytes = micro::psp_directory();
    let blob = SourceBytes::from_blob(bytes);
    let dir = Directory::parse_at(&blob, FlashOffset(0)).expect("parse $PSP");
    let psp = match dir {
        Directory::Psp(p) => p,
        other => panic!("expected PSP, got {other:?}"),
    };

    assert_eq!(psp.header.magic, Magic(PSP_MAGIC));
    assert_eq!(psp.header.count, 1);
    // The fixture sets `additional_info = 0x02000000` (bit 31 = 0 → v2),
    // so address_mode reads bits[30:29] = 00 → PhysicalX86. The bits at
    // [25:24] = 10 are dormant in v2 mode.
    assert!(!psp.header.is_v1());
    assert_eq!(psp.header.address_mode(), AddressMode::PhysicalX86);
    assert_eq!(psp.entries.len(), 1);

    let entry = &psp.entries[0];
    assert_eq!(entry.entry_type, EntryType(0x21)); // WRAPPED_IKEK
    assert_eq!(entry.subprogram, 0);
    assert_eq!(entry.size, 0x10);
    assert_eq!(entry.offset, Address(0x20));
    assert_eq!(entry.rsv0, 0);
    assert_eq!(entry.source.len(), PSP_ENTRY_SIZE);

    // Entry source comes right after the header.
    assert_eq!(
        entry.source.offset(),
        FlashOffset(DIRECTORY_HEADER_SIZE as u64)
    );

    // Source covers header + entry table only — not the trailing 16-byte
    // entry body (which is *not* covered by the directory fletcher).
    assert_eq!(psp.source.len(), DIRECTORY_HEADER_SIZE + PSP_ENTRY_SIZE);
}

#[test]
fn parse_bhd_directory_fixture() {
    let bytes = micro::bhd_directory();
    let blob = SourceBytes::from_blob(bytes);
    let dir = Directory::parse_at(&blob, FlashOffset(0)).expect("parse $BHD");
    let bhd = match dir {
        Directory::Bios(b) => b,
        other => panic!("expected BIOS, got {other:?}"),
    };

    assert_eq!(bhd.header.magic, Magic(BHD_MAGIC));
    assert_eq!(bhd.entries.len(), 1);

    let entry = &bhd.entries[0];
    assert_eq!(entry.entry_type, EntryType(0x62));
    assert_eq!(entry.region_type, 0);
    assert_eq!(entry.size, 0x10);
    assert_eq!(entry.offset, Address(0x28));
    // Fixture sets the destination sentinel.
    assert!(entry.destination_is_unused());
    assert_eq!(entry.source.len(), BIOS_ENTRY_SIZE);
    assert_eq!(
        entry.source.offset(),
        FlashOffset(DIRECTORY_HEADER_SIZE as u64)
    );

    assert_eq!(bhd.source.len(), DIRECTORY_HEADER_SIZE + BIOS_ENTRY_SIZE);
}

#[test]
fn parse_combo_psp_fixture() {
    let bytes = micro::combo_psp();
    let blob = SourceBytes::from_blob(bytes);
    let dir = Directory::parse_at(&blob, FlashOffset(0)).expect("parse 2PSP");
    let combo = match dir {
        Directory::Combo(c) => c,
        other => panic!("expected combo, got {other:?}"),
    };

    assert_eq!(combo.header.magic, Magic(COMBO_PSP_MAGIC));
    assert_eq!(combo.header.count, 1);
    assert_eq!(combo.header.lookup_mode(), 0);
    assert_eq!(combo.reserved.len(), COMBO_RESERVED_SIZE);
    assert!(combo.reserved.as_bytes().iter().all(|&b| b == 0));
    assert_eq!(combo.entries.len(), 1);

    let entry = &combo.entries[0];
    assert_eq!(entry.entry_flags, 0);
    assert_eq!(entry.psp_generation, PspGenerationId(0xBC0B_0500));
    assert_eq!(
        entry.psp_generation.zen_generation(),
        Some(ZenGeneration::Zen2)
    );
    assert_eq!(entry.pointer, Address(0x0000_1000));
    assert_eq!(entry.reserved, 0);
    assert_eq!(entry.source.len(), COMBO_ENTRY_SIZE);

    assert_eq!(
        combo.source.len(),
        DIRECTORY_HEADER_SIZE + COMBO_RESERVED_SIZE + COMBO_ENTRY_SIZE
    );
}

#[test]
fn parse_at_with_blob_root_offset() {
    // Place the PSP fixture inside a larger buffer rooted at flash offset
    // 0xA7000 — the parser must use absolute offsets correctly.
    let mut buf = vec![0u8; 0xA7000];
    buf.extend_from_slice(&micro::psp_directory());
    let blob = SourceBytes::from_blob(buf);
    let dir = Directory::parse_at(&blob, FlashOffset(0xA7000)).expect("parse offset PSP");
    let psp = match dir {
        Directory::Psp(p) => p,
        other => panic!("{other:?}"),
    };
    assert_eq!(psp.source.offset(), FlashOffset(0xA7000));
    assert_eq!(
        psp.entries[0].source.offset(),
        FlashOffset(0xA7000 + DIRECTORY_HEADER_SIZE as u64),
    );
}

#[test]
fn parse_at_unknown_magic_is_bad_magic() {
    // Random 16 bytes not starting with a directory magic.
    let mut buf = vec![0u8; 0x100];
    buf[0..4].copy_from_slice(b"NOPE");
    let blob = SourceBytes::from_blob(buf);
    let err = Directory::parse_at(&blob, FlashOffset(0)).unwrap_err();
    assert!(matches!(
        err,
        ParseError::BadMagic {
            what: "directory",
            ..
        }
    ));
}

#[test]
fn parse_at_truncated_returns_truncated() {
    // 8 bytes — half a header.
    let blob = SourceBytes::from_blob(vec![0u8; 8]);
    let err = Directory::parse_at(&blob, FlashOffset(0)).unwrap_err();
    assert!(matches!(
        err,
        ParseError::Truncated {
            what: "directory header",
            ..
        }
    ));
}

#[test]
fn parse_at_truncated_body_returns_truncated() {
    // Header claims 5 entries but the buffer only holds 1.
    let mut buf = Vec::new();
    buf.extend_from_slice(b"$PSP");
    buf.extend_from_slice(&0u32.to_le_bytes()); // checksum
    buf.extend_from_slice(&5u32.to_le_bytes()); // count = 5
    buf.extend_from_slice(&0u32.to_le_bytes()); // additional_info
    buf.extend_from_slice(&[0u8; PSP_ENTRY_SIZE]); // 1 entry only
    let blob = SourceBytes::from_blob(buf);
    let err = Directory::parse_at(&blob, FlashOffset(0)).unwrap_err();
    assert!(
        matches!(
            err,
            ParseError::Truncated {
                what: "PSP directory body",
                ..
            }
        ),
        "got {err:?}",
    );
}

// ------------------------------------------------------------------
// Address-mode field decoding sanity check
// ------------------------------------------------------------------

#[test]
fn psp_entry_address_mode_uses_rsv0_high_bits() {
    let bytes = micro::psp_directory();
    let blob = SourceBytes::from_blob(bytes);
    let psp = match Directory::parse_at(&blob, FlashOffset(0)).unwrap() {
        Directory::Psp(p) => p,
        _ => unreachable!(),
    };
    // Fixture uses rsv0 = 0 → entry-mode bits[31:30] = 00 → PhysicalX86.
    assert_eq!(
        psp.entries[0].entry_address_mode(),
        AddressMode::PhysicalX86
    );
}

// ------------------------------------------------------------------
// FET → directory traversal.
// ------------------------------------------------------------------

/// Build a synthetic 16 MiB-ish blob with a FET at flash offset 0x20000
/// pointing at the PSP directory fixture placed at flash offset
/// 0xA7000.
fn synthetic_blob_with_psp_at(rom_size: usize) -> SourceBytes {
    let mut buf = vec![0u8; rom_size];

    // FET magic + 1 pointer slot (flash offset 0xA7000) + terminator.
    let fet_off = 0x20_000usize;
    buf[fet_off..fet_off + FET_MAGIC_SIZE].copy_from_slice(&FET_MAGIC);
    buf[fet_off + FET_MAGIC_SIZE..fet_off + FET_MAGIC_SIZE + FET_SLOT_SIZE]
        .copy_from_slice(&0x000A_7000u32.to_le_bytes());
    let term_off = fet_off + FET_MAGIC_SIZE + FET_SLOT_SIZE;
    buf[term_off..term_off + FET_TERMINATOR_SIZE].copy_from_slice(&[0xFF; FET_TERMINATOR_SIZE]);

    // PSP directory at 0xA7000.
    let dir_off = 0xA_7000usize;
    let dir_bytes = micro::psp_directory();
    buf[dir_off..dir_off + dir_bytes.len()].copy_from_slice(&dir_bytes);

    SourceBytes::from_blob(buf)
}

#[test]
fn walk_directories_via_single_fet_pointer() {
    let blob = synthetic_blob_with_psp_at(0x100_0000); // 16 MiB
    let fet = Fet::parse_at(&blob, FlashOffset(0x20_000)).expect("parse FET");
    let dirs = walk_directories(&blob, &fet, RomSize::MIB_16, FlashOffset(0));
    assert_eq!(dirs.len(), 1);
    let DirectoryRef {
        directory,
        provenance,
    } = &dirs[0];
    assert!(matches!(directory, Directory::Psp(_)));
    assert_eq!(*provenance, DirectoryProvenance::FetSlot { index: 0 });
}

#[test]
fn walk_directories_skips_non_directory_pointers() {
    // FET pointer to a region that does NOT contain a directory magic →
    // walk silently skips it.
    let mut buf = vec![0u8; 0x100_0000];
    let fet_off = 0x20_000usize;
    buf[fet_off..fet_off + 4].copy_from_slice(&FET_MAGIC);
    buf[fet_off + 4..fet_off + 8].copy_from_slice(&0x000A_7000u32.to_le_bytes());
    buf[fet_off + 8..fet_off + 24].copy_from_slice(&[0xFF; 16]);
    // Leave 0xA7000 zeroed — no directory there.
    let blob = SourceBytes::from_blob(buf);
    let fet = Fet::parse_at(&blob, FlashOffset(0x20_000)).expect("parse FET");
    let dirs = walk_directories(&blob, &fet, RomSize::MIB_16, FlashOffset(0));
    assert!(dirs.is_empty());
}

#[test]
fn walk_directories_via_combo_to_psp() {
    // FET → 2PSP combo → $PSP directory (one combo entry pointing at the
    // PSP fixture at flash offset 0x10000).
    let mut buf = vec![0u8; 0x100_0000];

    // FET at 0x20000 with one pointer to 0xA7000 (the combo header).
    let fet_off = 0x20_000usize;
    buf[fet_off..fet_off + 4].copy_from_slice(&FET_MAGIC);
    buf[fet_off + 4..fet_off + 8].copy_from_slice(&0x000A_7000u32.to_le_bytes());
    buf[fet_off + 8..fet_off + 24].copy_from_slice(&[0xFF; 16]);

    // Build a combo header with one entry pointing at flash offset 0x1_0000.
    // The fixture combo points to 0x1000 — overwrite to 0x1_0000 so we
    // place the PSP fixture there.
    let mut combo_bytes = micro::combo_psp();
    // Combo header is 0x20; first combo entry's pointer lives at +0x28.
    combo_bytes[0x28..0x2C].copy_from_slice(&0x0001_0000u32.to_le_bytes());
    // Note: we don't recompute fletcher because traversal doesn't verify it.

    let combo_off = 0xA_7000usize;
    buf[combo_off..combo_off + combo_bytes.len()].copy_from_slice(&combo_bytes);

    // Drop the PSP fixture at 0x1_0000.
    let psp_bytes = micro::psp_directory();
    let psp_off = 0x1_0000usize;
    buf[psp_off..psp_off + psp_bytes.len()].copy_from_slice(&psp_bytes);

    let blob = SourceBytes::from_blob(buf);
    let fet = Fet::parse_at(&blob, FlashOffset(0x20_000)).unwrap();
    let dirs = walk_directories(&blob, &fet, RomSize::MIB_16, FlashOffset(0));

    assert_eq!(dirs.len(), 2, "combo + child PSP");
    assert!(matches!(dirs[0].directory, Directory::Combo(_)));
    assert_eq!(
        dirs[0].provenance,
        DirectoryProvenance::FetSlot { index: 0 }
    );
    assert!(matches!(dirs[1].directory, Directory::Psp(_)));
    assert_eq!(
        dirs[1].provenance,
        DirectoryProvenance::ComboEntry {
            combo_offset: FlashOffset(combo_off as u64),
            index: 0,
        }
    );
}

#[test]
fn walk_directories_dedups_repeat_pointers() {
    // Two FET pointers, both to the same PSP directory. The walker
    // visits each absolute offset at most once.
    let mut buf = vec![0u8; 0x100_0000];
    let fet_off = 0x20_000usize;
    buf[fet_off..fet_off + 4].copy_from_slice(&FET_MAGIC);
    buf[fet_off + 4..fet_off + 8].copy_from_slice(&0x000A_7000u32.to_le_bytes());
    buf[fet_off + 8..fet_off + 12].copy_from_slice(&0x000A_7000u32.to_le_bytes());
    buf[fet_off + 12..fet_off + 28].copy_from_slice(&[0xFF; 16]);

    let psp_bytes = micro::psp_directory();
    let psp_off = 0xA_7000usize;
    buf[psp_off..psp_off + psp_bytes.len()].copy_from_slice(&psp_bytes);

    let blob = SourceBytes::from_blob(buf);
    let fet = Fet::parse_at(&blob, FlashOffset(0x20_000)).unwrap();
    let dirs = walk_directories(&blob, &fet, RomSize::MIB_16, FlashOffset(0));
    assert_eq!(dirs.len(), 1);
    // First pointer wins — provenance records slot 0.
    assert_eq!(
        dirs[0].provenance,
        DirectoryProvenance::FetSlot { index: 0 }
    );
}

#[test]
fn walk_directories_follows_l2_pointer() {
    // PSP directory whose only entry is type 0x40 (PSP_FW_L2_PTR), pointing
    // (mode 10 = directory-relative) at a $PL2 directory placed
    // immediately after the parent header.
    let mut buf = vec![0u8; 0x100_0000];

    // FET at 0x20000 → parent PSP at 0xA7000.
    let fet_off = 0x20_000usize;
    buf[fet_off..fet_off + 4].copy_from_slice(&FET_MAGIC);
    buf[fet_off + 4..fet_off + 8].copy_from_slice(&0x000A_7000u32.to_le_bytes());
    buf[fet_off + 8..fet_off + 24].copy_from_slice(&[0xFF; 16]);

    // Parent PSP header: count=1, address_mode=10 (directory-relative).
    // Set bit 31 (v1 layout) so `from_additional_info` reads bits[25:24].
    let parent_off = 0xA_7000usize;
    let additional_info: u32 = (1u32 << 31) | (0b10u32 << 24); // v1, mode 10
    buf[parent_off..parent_off + 4].copy_from_slice(b"$PSP");
    buf[parent_off + 4..parent_off + 8].copy_from_slice(&0u32.to_le_bytes()); // checksum
    buf[parent_off + 8..parent_off + 12].copy_from_slice(&1u32.to_le_bytes()); // count=1
    buf[parent_off + 12..parent_off + 16].copy_from_slice(&additional_info.to_le_bytes());

    // Single PSP entry: type 0x40, offset 0x100 (directory-relative).
    // Directory mode 10/11 defers to entry-level mode (rsv0[31:30]); set
    // those bits to 10 so resolve_with_entry adds directory_base + 0x100.
    let entry_off = parent_off + 0x10;
    let entry_rsv0: u32 = 0b10u32 << 30;
    buf[entry_off] = 0x40;
    buf[entry_off + 1] = 0x00;
    buf[entry_off + 2..entry_off + 4].copy_from_slice(&0u16.to_le_bytes()); // flags
    buf[entry_off + 4..entry_off + 8].copy_from_slice(&0x100u32.to_le_bytes()); // size
    buf[entry_off + 8..entry_off + 12].copy_from_slice(&0x100u32.to_le_bytes()); // offset
    buf[entry_off + 12..entry_off + 16].copy_from_slice(&entry_rsv0.to_le_bytes()); // rsv0

    // Child $PL2 at parent_off + 0x100. Use a 0-entry PL2 — bookkeeping only.
    let child_off = parent_off + 0x100;
    buf[child_off..child_off + 4].copy_from_slice(b"$PL2");
    buf[child_off + 4..child_off + 8].copy_from_slice(&0u32.to_le_bytes()); // checksum
    buf[child_off + 8..child_off + 12].copy_from_slice(&0u32.to_le_bytes()); // count = 0
    buf[child_off + 12..child_off + 16].copy_from_slice(&((0b10u32) << 24).to_le_bytes());

    let blob = SourceBytes::from_blob(buf);
    let fet = Fet::parse_at(&blob, FlashOffset(0x20_000)).unwrap();
    let dirs = walk_directories(&blob, &fet, RomSize::MIB_16, FlashOffset(0));

    assert_eq!(dirs.len(), 2, "parent + L2 child");
    assert!(matches!(&dirs[0].directory, Directory::Psp(p) if p.header.magic == Magic(PSP_MAGIC)));
    assert!(matches!(&dirs[1].directory, Directory::Psp(p) if p.header.magic == Magic(PL2_MAGIC)));
    assert_eq!(
        dirs[1].provenance,
        DirectoryProvenance::L2Pointer {
            parent_offset: FlashOffset(parent_off as u64),
            index: 0,
        }
    );
}

/// Capsule-wrapped images: the ROM origin is `0x800` inside the file. The FET pointer
/// `0xFF158000` must resolve to file offset `0x800 + 0x158000 = 0x158800`,
/// not `0x158000`.
#[test]
fn walk_directories_traverses_capsule_wrapped_image() {
    // 16 MiB ROM + 0x800 capsule envelope.
    let envelope: usize = 0x800;
    let rom_size_bytes: usize = 0x100_0000;
    let mut buf = vec![0u8; envelope + rom_size_bytes];

    // FET in the ROM at ROM-relative offset 0x20000 → file offset 0x20800.
    let fet_off_in_rom = 0x20_000usize;
    let fet_file_off = envelope + fet_off_in_rom;
    buf[fet_file_off..fet_file_off + 4].copy_from_slice(&FET_MAGIC);
    // FET slot 0: x86 physical pointer 0xFF158000 → ROM-flash 0x158000
    // → file offset envelope + 0x158000.
    buf[fet_file_off + 4..fet_file_off + 8].copy_from_slice(&0xFF15_8000u32.to_le_bytes());
    // 16-byte terminator.
    buf[fet_file_off + 8..fet_file_off + 24].copy_from_slice(&[0xFF; 16]);

    // Place a $PSP directory at ROM-relative 0x158000 → file 0x158800.
    let dir_file_off = envelope + 0x158_000;
    let dir_bytes = micro::psp_directory();
    buf[dir_file_off..dir_file_off + dir_bytes.len()].copy_from_slice(&dir_bytes);

    let blob = SourceBytes::from_blob(buf);
    let fet = Fet::parse_at(&blob, FlashOffset(fet_file_off as u64)).expect("parse FET");

    // With origin 0, walk_directories reads the directory at
    // file offset 0x158000 (envelope bytes — zeros) and yields nothing.
    let dirs_without_origin = walk_directories(&blob, &fet, RomSize::MIB_16, FlashOffset(0));
    assert!(
        dirs_without_origin.is_empty(),
        "control: walk without rom_origin must miss the directory"
    );

    // With the correct rom_origin = 0x800, the directory is found.
    let dirs = walk_directories(&blob, &fet, RomSize::MIB_16, FlashOffset(envelope as u64));
    assert_eq!(
        dirs.len(),
        1,
        "capsule-wrapped image must yield 1 directory"
    );
    assert!(matches!(&dirs[0].directory, Directory::Psp(p) if p.header.magic == Magic(PSP_MAGIC)));
    assert_eq!(
        dirs[0].directory.source().offset(),
        FlashOffset(dir_file_off as u64)
    );
}

/// A ROM of 16 MiB whose table has the given pointers.
fn rom_with_slots(slots: &[u32]) -> Vec<u8> {
    let mut buf = vec![0u8; 0x100_0000];
    let mut at = 0x20_000usize;
    buf[at..at + 4].copy_from_slice(&FET_MAGIC);
    for slot in slots {
        at += 4;
        buf[at..at + 4].copy_from_slice(&slot.to_le_bytes());
    }
    buf[at + 4..at + 20].copy_from_slice(&[0xFF; 16]);
    buf
}

/// Put a directory at `at` whose entries have the given types and flash
/// offsets.
fn put_directory(buf: &mut [u8], at: usize, tag: &[u8; 4], entries: &[(u8, u32)]) {
    let record = if tag[1] == b'B' { BIOS_ENTRY_SIZE } else { PSP_ENTRY_SIZE };
    buf[at..at + 4].copy_from_slice(tag);
    buf[at + 8..at + 12].copy_from_slice(&(entries.len() as u32).to_le_bytes());
    let info: u32 = (1u32 << 31) | (0b01u32 << 24);
    buf[at + 12..at + 16].copy_from_slice(&info.to_le_bytes());
    for (i, (kind, offset)) in entries.iter().enumerate() {
        let e = at + DIRECTORY_HEADER_SIZE + i * record;
        buf[e] = *kind;
        buf[e + 8..e + 12].copy_from_slice(&offset.to_le_bytes());
    }
}

fn walked(buf: Vec<u8>) -> Vec<DirectoryRef> {
    let blob = SourceBytes::from_blob(buf);
    let fet = Fet::parse_at(&blob, FlashOffset(0x20_000)).unwrap();
    walk_directories(&blob, &fet, RomSize::MIB_16, FlashOffset(0))
}

#[test]
fn walk_ends_on_directories_that_point_to_each_other() {
    let mut buf = rom_with_slots(&[0x3_0000]);
    put_directory(&mut buf, 0x3_0000, b"$PSP", &[(0x40, 0x4_0000), (0x40, 0x3_0000)]);
    put_directory(&mut buf, 0x4_0000, b"$PL2", &[(0x40, 0x3_0000)]);
    let dirs = walked(buf);
    let at: Vec<u64> = dirs.iter().map(|d| d.directory.source().offset().get()).collect();
    assert_eq!(at, vec![0x3_0000, 0x4_0000]);
}

#[test]
fn walk_finds_each_directory_once_and_misses_none() {
    let mut buf = rom_with_slots(&[0x3_0000, 0x5_0000, 0x3_0000]);
    put_directory(&mut buf, 0x3_0000, b"$PSP", &[(0x01, 0x6_0000), (0x40, 0x4_0000)]);
    put_directory(&mut buf, 0x4_0000, b"$PL2", &[]);
    put_directory(&mut buf, 0x5_0000, b"$BHD", &[(0x70, 0x7_0000), (0x40, 0x4_0000)]);
    put_directory(&mut buf, 0x7_0000, b"$BL2", &[]);
    // A body that is no pointer is not followed.
    put_directory(&mut buf, 0x6_0000, b"$PSP", &[]);
    let dirs = walked(buf);
    let mut at: Vec<u64> = dirs.iter().map(|d| d.directory.source().offset().get()).collect();
    at.sort();
    assert_eq!(at, vec![0x3_0000, 0x4_0000, 0x5_0000, 0x7_0000]);
}

#[test]
fn tertiary_pointers_are_not_followed() {
    let mut buf = rom_with_slots(&[0x3_0000]);
    put_directory(&mut buf, 0x3_0000, b"$PSP", &[(0x48, 0x4_0000), (0x4A, 0x5_0000)]);
    put_directory(&mut buf, 0x4_0000, b"$PL2", &[]);
    put_directory(&mut buf, 0x5_0000, b"$BL2", &[]);
    let dirs = walked(buf);
    assert_eq!(dirs.len(), 1);
    assert_eq!(dirs[0].directory.source().offset(), FlashOffset(0x3_0000));
}

#[test]
fn family_is_the_one_that_the_tag_names() {
    for (tag, bios) in [(b"$PSP", false), (b"$PL2", false), (b"$BHD", true), (b"$BL2", true)] {
        let mut buf = vec![0u8; 0x100];
        put_directory(&mut buf, 0, tag, &[]);
        let dir = Directory::parse_at(&SourceBytes::from_blob(buf), FlashOffset(0)).unwrap();
        assert_eq!(dir.is_bios(), bios);
        assert_eq!(dir.header().magic, Magic(*tag));
        assert_eq!(
            directory_family(dir.header().magic),
            Some(dir.family())
        );
    }
}

#[test]
fn impossible_count_is_truncated() {
    let mut buf = vec![0u8; 0x40];
    buf[0..4].copy_from_slice(b"$PSP");
    buf[8..12].copy_from_slice(&u32::MAX.to_le_bytes());
    let err = Directory::parse_at(&SourceBytes::from_blob(buf), FlashOffset(0)).unwrap_err();
    assert!(matches!(err, ParseError::Truncated { what: "PSP directory body", .. }), "{err:?}");
}
