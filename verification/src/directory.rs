//! PSP, BIOS and combo directories.

use vstd::prelude::*;

use crate::address::{
    directory_mode, entry_mode, Address, AddressMode, FlashOffset,
};
use crate::error::ParseError;
use crate::id::{EntryType, PspGenerationId};
use crate::magic::{
    directory_family, family_of, DirectoryFamily, Magic, BHD_MAGIC, BL2_MAGIC, COMBO_BHD_MAGIC,
    COMBO_PSP_MAGIC, PL2_MAGIC, PSP_MAGIC,
};
use crate::source::{SourceBytes, Window};
use crate::wire::{le16, le32, le64, read_array4, read_le16, read_le32, read_le64};

verus! {

/// Size of every directory header.
pub const DIRECTORY_HEADER_SIZE: usize = 0x10;

/// Size of an entry record of a `$PSP` or `$PL2` directory.
pub const PSP_ENTRY_SIZE: usize = 0x10;

/// Size of an entry record of a `$BHD` or `$BL2` directory.
pub const BIOS_ENTRY_SIZE: usize = 0x18;

/// Size of the reserved block behind the header of a combo directory.
pub const COMBO_RESERVED_SIZE: usize = 0x10;

/// Size of an entry record of a combo directory.
pub const COMBO_ENTRY_SIZE: usize = 0x10;

/// The header that all directories start with.
#[derive(Clone, Debug, PartialEq, Eq)]
pub struct DirectoryHeader {
    /// The sixteen bytes of the header.
    pub source: SourceBytes,
    pub magic: Magic,
    pub fletcher: u32,
    pub count: u32,
    /// Address mode and version of a PSP or BIOS directory, look-up mode of a
    /// combo directory.
    pub additional_info: u32,
}

impl DirectoryHeader {
    /// Whether this is the header in the window `w`.
    pub open spec fn decodes(self, w: Window) -> bool {
        &&& self.source@ == w
        &&& self.magic.0@ == w.bytes.subrange(0, 4)
        &&& self.fletcher == le32(w.bytes, 4)
        &&& self.count == le32(w.bytes, 8)
        &&& self.additional_info == le32(w.bytes, 12)
    }

    fn parse(source: SourceBytes) -> (r: Self)
        requires
            source@.bytes.len() == 16,
        ensures
            r.decodes(source@),
    {
        let b = source.as_bytes();
        let magic = Magic(read_array4(b, 0));
        let fletcher: u32 = read_le32(b, 4);
        let count: u32 = read_le32(b, 8);
        let additional_info: u32 = read_le32(b, 12);
        DirectoryHeader { source, magic, fletcher, count, additional_info }
    }

    /// Address mode of a PSP or BIOS directory.
    pub fn address_mode(&self) -> (r: AddressMode)
        ensures
            r == directory_mode(self.additional_info),
    {
        AddressMode::from_additional_info(self.additional_info)
    }

    /// Look-up mode of a combo directory.
    pub fn lookup_mode(&self) -> (r: u32)
        ensures
            r == self.additional_info,
    {
        self.additional_info
    }

    /// Whether the version bit is set.
    pub fn is_v1(&self) -> (r: bool)
        ensures
            r == (self.additional_info >= 0x8000_0000),
    {
        self.additional_info >= 0x8000_0000
    }
}

/// An entry record of a PSP directory.
#[derive(Debug, PartialEq, Eq)]
pub struct PspEntry {
    /// The sixteen bytes of the record.
    pub source: SourceBytes,
    pub entry_type: EntryType,
    pub subprogram: u8,
    pub flags: u16,
    pub size: u32,
    pub offset: Address,
    pub rsv0: u32,
}

impl Clone for PspEntry {
    fn clone(&self) -> (r: Self)
        ensures
            r.same_as(*self),
    {
        PspEntry {
            source: self.source.clone(),
            entry_type: self.entry_type,
            subprogram: self.subprogram,
            flags: self.flags,
            size: self.size,
            offset: self.offset,
            rsv0: self.rsv0,
        }
    }
}

impl PspEntry {
    /// Whether both records have the same fields and show the same bytes.
    pub open spec fn same_as(self, other: PspEntry) -> bool {
        &&& self.source@ == other.source@
        &&& self.entry_type == other.entry_type
        &&& self.subprogram == other.subprogram
        &&& self.flags == other.flags
        &&& self.size == other.size
        &&& self.offset == other.offset
        &&& self.rsv0 == other.rsv0
    }

    /// Whether this is the record in the window `w`.
    pub open spec fn decodes(self, w: Window) -> bool {
        &&& self.source@ == w
        &&& self.entry_type == EntryType(w.bytes[0])
        &&& self.subprogram == w.bytes[1]
        &&& self.flags == le16(w.bytes, 2)
        &&& self.size == le32(w.bytes, 4)
        &&& self.offset == Address(le32(w.bytes, 8))
        &&& self.rsv0 == le32(w.bytes, 12)
    }

    fn parse(source: SourceBytes) -> (r: Self)
        requires
            source@.bytes.len() == 16,
        ensures
            r.decodes(source@),
    {
        let b = source.as_bytes();
        let entry_type = EntryType(b[0]);
        let subprogram: u8 = b[1];
        let flags: u16 = read_le16(b, 2);
        let size: u32 = read_le32(b, 4);
        let offset = Address(read_le32(b, 8));
        let rsv0: u32 = read_le32(b, 12);
        PspEntry { source, entry_type, subprogram, flags, size, offset, rsv0 }
    }

    /// The mode that the record itself gives.
    pub fn entry_address_mode(&self) -> (r: AddressMode)
        ensures
            r == entry_mode(self.rsv0),
    {
        AddressMode::from_entry_rsv0(self.rsv0)
    }

    /// Bits `[6:3]` of the flags.
    pub fn instance(&self) -> (r: u8)
        ensures
            r == self.flags / 8 % 16,
    {
        (self.flags / 8 % 16) as u8
    }
}

/// An entry record of a BIOS directory.
#[derive(Debug, PartialEq, Eq)]
pub struct BiosEntry {
    /// The twenty-four bytes of the record.
    pub source: SourceBytes,
    pub entry_type: EntryType,
    pub region_type: u8,
    pub flags: u16,
    pub size: u32,
    pub offset: Address,
    pub rsv0: u32,
    /// Memory address that the body is copied to; all bits set means unused.
    pub destination: u64,
}

impl Clone for BiosEntry {
    fn clone(&self) -> (r: Self)
        ensures
            r.same_as(*self),
    {
        BiosEntry {
            source: self.source.clone(),
            entry_type: self.entry_type,
            region_type: self.region_type,
            flags: self.flags,
            size: self.size,
            offset: self.offset,
            rsv0: self.rsv0,
            destination: self.destination,
        }
    }
}

impl BiosEntry {
    /// Whether both records have the same fields and show the same bytes.
    pub open spec fn same_as(self, other: BiosEntry) -> bool {
        &&& self.source@ == other.source@
        &&& self.entry_type == other.entry_type
        &&& self.region_type == other.region_type
        &&& self.flags == other.flags
        &&& self.size == other.size
        &&& self.offset == other.offset
        &&& self.rsv0 == other.rsv0
        &&& self.destination == other.destination
    }

    /// Whether this is the record in the window `w`.
    pub open spec fn decodes(self, w: Window) -> bool {
        &&& self.source@ == w
        &&& self.entry_type == EntryType(w.bytes[0])
        &&& self.region_type == w.bytes[1]
        &&& self.flags == le16(w.bytes, 2)
        &&& self.size == le32(w.bytes, 4)
        &&& self.offset == Address(le32(w.bytes, 8))
        &&& self.rsv0 == le32(w.bytes, 12)
        &&& self.destination == le64(w.bytes, 16)
    }

    fn parse(source: SourceBytes) -> (r: Self)
        requires
            source@.bytes.len() == 24,
        ensures
            r.decodes(source@),
    {
        let b = source.as_bytes();
        let entry_type = EntryType(b[0]);
        let region_type: u8 = b[1];
        let flags: u16 = read_le16(b, 2);
        let size: u32 = read_le32(b, 4);
        let offset = Address(read_le32(b, 8));
        let rsv0: u32 = read_le32(b, 12);
        let destination: u64 = read_le64(b, 16);
        BiosEntry { source, entry_type, region_type, flags, size, offset, rsv0, destination }
    }

    /// The mode that the record itself gives.
    pub fn entry_address_mode(&self) -> (r: AddressMode)
        ensures
            r == entry_mode(self.rsv0),
    {
        AddressMode::from_entry_rsv0(self.rsv0)
    }

    /// Bit 3 of the flags.
    pub fn is_compressed(&self) -> (r: bool)
        ensures
            r == (self.flags / 8 % 2 == 1),
    {
        self.flags / 8 % 2 == 1
    }

    /// Bits `[7:4]` of the flags.
    pub fn instance(&self) -> (r: u8)
        ensures
            r == self.flags / 16 % 16,
    {
        (self.flags / 16 % 16) as u8
    }

    /// Bits `[10:8]` of the flags.
    pub fn subprogram(&self) -> (r: u8)
        ensures
            r == self.flags / 256 % 8,
    {
        (self.flags / 256 % 8) as u8
    }

    pub fn destination_is_unused(&self) -> (r: bool)
        ensures
            r == (self.destination == u64::MAX),
    {
        self.destination == u64::MAX
    }
}

/// An entry record of a combo directory.
#[derive(Clone, Debug, PartialEq, Eq)]
pub struct ComboEntry {
    /// The sixteen bytes of the record.
    pub source: SourceBytes,
    pub entry_flags: u32,
    pub psp_generation: PspGenerationId,
    pub pointer: Address,
    pub reserved: u32,
}

impl ComboEntry {
    /// Whether this is the record in the window `w`.
    pub open spec fn decodes(self, w: Window) -> bool {
        &&& self.source@ == w
        &&& self.entry_flags == le32(w.bytes, 0)
        &&& self.psp_generation == PspGenerationId(le32(w.bytes, 4))
        &&& self.pointer == Address(le32(w.bytes, 8))
        &&& self.reserved == le32(w.bytes, 12)
    }

    fn parse(source: SourceBytes) -> (r: Self)
        requires
            source@.bytes.len() == 16,
        ensures
            r.decodes(source@),
    {
        let b = source.as_bytes();
        let entry_flags: u32 = read_le32(b, 0);
        let psp_generation = PspGenerationId(read_le32(b, 4));
        let pointer = Address(read_le32(b, 8));
        let reserved: u32 = read_le32(b, 12);
        ComboEntry { source, entry_flags, psp_generation, pointer, reserved }
    }
}

/// A `$PSP` or `$PL2` directory.
#[derive(Clone, Debug, PartialEq, Eq)]
pub struct PspDirectory {
    /// Header and records.
    pub source: SourceBytes,
    pub header: DirectoryHeader,
    pub entries: Vec<PspEntry>,
}

/// A `$BHD` or `$BL2` directory.
#[derive(Clone, Debug, PartialEq, Eq)]
pub struct BiosDirectory {
    /// Header and records.
    pub source: SourceBytes,
    pub header: DirectoryHeader,
    pub entries: Vec<BiosEntry>,
}

/// A `2PSP` or `2BHD` directory.
#[derive(Clone, Debug, PartialEq, Eq)]
pub struct ComboDirectory {
    /// Header, reserved block and records.
    pub source: SourceBytes,
    pub header: DirectoryHeader,
    /// The sixteen bytes behind the header, kept as they are.
    pub reserved: SourceBytes,
    pub entries: Vec<ComboEntry>,
}

/// A directory of any family.
#[derive(Clone, Debug, PartialEq, Eq)]
pub enum Directory {
    Psp(PspDirectory),
    Bios(BiosDirectory),
    Combo(ComboDirectory),
}

/// The tag of the directory header at input offset `at`.
pub open spec fn tag_at(blob: Window, at: int) -> Seq<u8> {
    blob.at(at, 16).bytes.subrange(0, 4)
}

/// The number of records that the header at `at` announces.
pub open spec fn count_at(blob: Window, at: int) -> int {
    le32(blob.at(at, 16).bytes, 8) as int
}

/// The size of a directory of a family with `count` records.
pub open spec fn directory_size(family: DirectoryFamily, count: int) -> int {
    match family {
        DirectoryFamily::Psp => 0x10 + 0x10 * count,
        DirectoryFamily::Bios => 0x10 + 0x18 * count,
        DirectoryFamily::Combo => 0x20 + 0x10 * count,
    }
}

/// The window of record `i` of a directory of a family that starts at `at`.
pub open spec fn record_at(blob: Window, at: int, family: DirectoryFamily, i: int) -> Window {
    match family {
        DirectoryFamily::Psp => blob.at(at + 0x10 + 0x10 * i, 0x10),
        DirectoryFamily::Bios => blob.at(at + 0x10 + 0x18 * i, 0x18),
        DirectoryFamily::Combo => blob.at(at + 0x20 + 0x10 * i, 0x10),
    }
}

/// Whether a whole directory of a family starts at input offset `at`.
pub open spec fn directory_of_family_at(blob: Window, at: int, family: DirectoryFamily) -> bool {
    &&& blob.covers(at, 16)
    &&& family_of(tag_at(blob, at)) == Some(family)
    &&& blob.covers(at, directory_size(family, count_at(blob, at)))
}

/// Whether a whole directory starts at input offset `at`.
pub open spec fn directory_at(blob: Window, at: int) -> bool {
    exists|family: DirectoryFamily| #[trigger] directory_of_family_at(blob, at, family)
}

/// Where the text of an error places a directory body of a family.
pub open spec fn body_name(family: DirectoryFamily) -> &'static str {
    match family {
        DirectoryFamily::Psp => "PSP directory body",
        DirectoryFamily::Bios => "BIOS directory body",
        DirectoryFamily::Combo => "combo directory body",
    }
}

/// Why no directory was parsed at `at`.
pub open spec fn directory_error(e: ParseError, blob: Window, at: FlashOffset) -> bool {
    let here = at.0 as int;
    if !blob.covers(here, 16) {
        e == (ParseError::Truncated {
            what: "directory header",
            offset: at,
            expected: 16,
            available: (if blob.offset <= here <= blob.end() {
                blob.end() - here
            } else {
                0
            }) as usize,
        })
    } else {
        match family_of(tag_at(blob, here)) {
            None => e matches ParseError::BadMagic { what, offset, got, expected } && what@
                == "directory"@ && offset == at && got.0@ == tag_at(blob, here) && expected@
                == seq![
                Magic(PSP_MAGIC),
                Magic(PL2_MAGIC),
                Magic(BHD_MAGIC),
                Magic(BL2_MAGIC),
                Magic(COMBO_PSP_MAGIC),
                Magic(COMBO_BHD_MAGIC),
            ],
            Some(family) => {
                let size = directory_size(family, count_at(blob, here));
                e == (ParseError::Truncated {
                    what: body_name(family),
                    offset: at,
                    expected: (if size > usize::MAX {
                        usize::MAX as int
                    } else {
                        size
                    }) as usize,
                    available: (if size > usize::MAX {
                        0
                    } else {
                        blob.end() - here
                    }) as usize,
                })
            },
        }
    }
}

impl PspDirectory {
    /// Whether this is the directory at input offset `at`.
    pub open spec fn decodes(self, blob: Window, at: int) -> bool {
        &&& directory_of_family_at(blob, at, DirectoryFamily::Psp)
        &&& self.header.decodes(blob.at(at, 16))
        &&& self.entries@.len() == count_at(blob, at)
        &&& self.source@ == blob.at(at, directory_size(DirectoryFamily::Psp, count_at(blob, at)))
        &&& forall|i: int|
            0 <= i < self.entries@.len() ==> (#[trigger] self.entries@[i]).decodes(
                record_at(blob, at, DirectoryFamily::Psp, i),
            )
    }

    fn parse_with_header(blob: &SourceBytes, local: usize, header: DirectoryHeader) -> (r: Self)
        requires
            directory_of_family_at(blob@, blob@.offset + local, DirectoryFamily::Psp),
            header.decodes(blob@.at(blob@.offset + local, 16)),
        ensures
            r.decodes(blob@, blob@.offset + local),
    {
        proof {
            use_type_invariant(blob);
        }
        let count: usize = header.count as usize;
        let ghost at = blob@.offset + local;
        let mut entries: Vec<PspEntry> = Vec::new();
        while entries.len() < count
            invariant
                at == blob@.offset + local,
                count == count_at(blob@, at),
                entries@.len() <= count,
                blob@.bytes.len() <= usize::MAX,
                directory_of_family_at(blob@, at, DirectoryFamily::Psp),
                forall|i: int|
                    0 <= i < entries@.len() ==> (#[trigger] entries@[i]).decodes(
                        record_at(blob@, at, DirectoryFamily::Psp, i),
                    ),
            decreases count - entries@.len(),
        {
            let record_local: usize = local + DIRECTORY_HEADER_SIZE + entries.len()
                * PSP_ENTRY_SIZE;
            let source = blob.slice(record_local, PSP_ENTRY_SIZE).unwrap();
            let ghost before = entries@;
            entries.push(PspEntry::parse(source));
            assert forall|i: int| 0 <= i < entries@.len() implies (#[trigger] entries@[i]).decodes(
                record_at(blob@, at, DirectoryFamily::Psp, i),
            ) by {
                if i < before.len() {
                    assert(entries@[i] == before[i]);
                }
            }
        }
        let source = blob.slice(local, DIRECTORY_HEADER_SIZE + count * PSP_ENTRY_SIZE).unwrap();
        PspDirectory { source, header, entries }
    }
}

impl BiosDirectory {
    /// Whether this is the directory at input offset `at`.
    pub open spec fn decodes(self, blob: Window, at: int) -> bool {
        &&& directory_of_family_at(blob, at, DirectoryFamily::Bios)
        &&& self.header.decodes(blob.at(at, 16))
        &&& self.entries@.len() == count_at(blob, at)
        &&& self.source@ == blob.at(at, directory_size(DirectoryFamily::Bios, count_at(blob, at)))
        &&& forall|i: int|
            0 <= i < self.entries@.len() ==> (#[trigger] self.entries@[i]).decodes(
                record_at(blob, at, DirectoryFamily::Bios, i),
            )
    }

    fn parse_with_header(blob: &SourceBytes, local: usize, header: DirectoryHeader) -> (r: Self)
        requires
            directory_of_family_at(blob@, blob@.offset + local, DirectoryFamily::Bios),
            header.decodes(blob@.at(blob@.offset + local, 16)),
        ensures
            r.decodes(blob@, blob@.offset + local),
    {
        proof {
            use_type_invariant(blob);
        }
        let count: usize = header.count as usize;
        let ghost at = blob@.offset + local;
        let mut entries: Vec<BiosEntry> = Vec::new();
        while entries.len() < count
            invariant
                at == blob@.offset + local,
                count == count_at(blob@, at),
                entries@.len() <= count,
                blob@.bytes.len() <= usize::MAX,
                directory_of_family_at(blob@, at, DirectoryFamily::Bios),
                forall|i: int|
                    0 <= i < entries@.len() ==> (#[trigger] entries@[i]).decodes(
                        record_at(blob@, at, DirectoryFamily::Bios, i),
                    ),
            decreases count - entries@.len(),
        {
            let record_local: usize = local + DIRECTORY_HEADER_SIZE + entries.len()
                * BIOS_ENTRY_SIZE;
            let source = blob.slice(record_local, BIOS_ENTRY_SIZE).unwrap();
            let ghost before = entries@;
            entries.push(BiosEntry::parse(source));
            assert forall|i: int| 0 <= i < entries@.len() implies (#[trigger] entries@[i]).decodes(
                record_at(blob@, at, DirectoryFamily::Bios, i),
            ) by {
                if i < before.len() {
                    assert(entries@[i] == before[i]);
                }
            }
        }
        let source = blob.slice(local, DIRECTORY_HEADER_SIZE + count * BIOS_ENTRY_SIZE).unwrap();
        BiosDirectory { source, header, entries }
    }
}

impl ComboDirectory {
    /// Whether this is the directory at input offset `at`.
    pub open spec fn decodes(self, blob: Window, at: int) -> bool {
        &&& directory_of_family_at(blob, at, DirectoryFamily::Combo)
        &&& self.header.decodes(blob.at(at, 16))
        &&& self.reserved@ == blob.at(at + 0x10, 0x10)
        &&& self.entries@.len() == count_at(blob, at)
        &&& self.source@ == blob.at(at, directory_size(DirectoryFamily::Combo, count_at(blob, at)))
        &&& forall|i: int|
            0 <= i < self.entries@.len() ==> (#[trigger] self.entries@[i]).decodes(
                record_at(blob, at, DirectoryFamily::Combo, i),
            )
    }

    fn parse_with_header(blob: &SourceBytes, local: usize, header: DirectoryHeader) -> (r: Self)
        requires
            directory_of_family_at(blob@, blob@.offset + local, DirectoryFamily::Combo),
            header.decodes(blob@.at(blob@.offset + local, 16)),
        ensures
            r.decodes(blob@, blob@.offset + local),
    {
        proof {
            use_type_invariant(blob);
        }
        let count: usize = header.count as usize;
        let ghost at = blob@.offset + local;
        let entry_base: usize = local + DIRECTORY_HEADER_SIZE + COMBO_RESERVED_SIZE;
        let reserved = blob.slice(local + DIRECTORY_HEADER_SIZE, COMBO_RESERVED_SIZE).unwrap();
        let mut entries: Vec<ComboEntry> = Vec::new();
        while entries.len() < count
            invariant
                at == blob@.offset + local,
                entry_base == local + 0x20,
                count == count_at(blob@, at),
                entries@.len() <= count,
                blob@.bytes.len() <= usize::MAX,
                directory_of_family_at(blob@, at, DirectoryFamily::Combo),
                forall|i: int|
                    0 <= i < entries@.len() ==> (#[trigger] entries@[i]).decodes(
                        record_at(blob@, at, DirectoryFamily::Combo, i),
                    ),
            decreases count - entries@.len(),
        {
            let record_local: usize = entry_base + entries.len() * COMBO_ENTRY_SIZE;
            let source = blob.slice(record_local, COMBO_ENTRY_SIZE).unwrap();
            let ghost before = entries@;
            entries.push(ComboEntry::parse(source));
            assert forall|i: int| 0 <= i < entries@.len() implies (#[trigger] entries@[i]).decodes(
                record_at(blob@, at, DirectoryFamily::Combo, i),
            ) by {
                if i < before.len() {
                    assert(entries@[i] == before[i]);
                }
            }
        }
        let source = blob.slice(
            local,
            DIRECTORY_HEADER_SIZE + COMBO_RESERVED_SIZE + count * COMBO_ENTRY_SIZE,
        ).unwrap();
        ComboDirectory { source, header, reserved, entries }
    }
}

impl Directory {
    /// Whether this is the directory at input offset `at`.
    pub open spec fn decodes(self, blob: Window, at: int) -> bool {
        match self {
            Directory::Psp(d) => d.decodes(blob, at),
            Directory::Bios(d) => d.decodes(blob, at),
            Directory::Combo(d) => d.decodes(blob, at),
        }
    }

    /// The header.
    pub open spec fn head(self) -> DirectoryHeader {
        match self {
            Directory::Psp(d) => d.header,
            Directory::Bios(d) => d.header,
            Directory::Combo(d) => d.header,
        }
    }

    /// The bytes of the whole directory.
    pub open spec fn window(self) -> Window {
        match self {
            Directory::Psp(d) => d.source@,
            Directory::Bios(d) => d.source@,
            Directory::Combo(d) => d.source@,
        }
    }

    /// The family.
    pub open spec fn shape(self) -> DirectoryFamily {
        match self {
            Directory::Psp(_) => DirectoryFamily::Psp,
            Directory::Bios(_) => DirectoryFamily::Bios,
            Directory::Combo(_) => DirectoryFamily::Combo,
        }
    }

    /// Parse the directory whose header starts at `dir_offset`.
    pub fn parse_at(blob: &SourceBytes, dir_offset: FlashOffset) -> (r: Result<Self, ParseError>)
        ensures
            r is Ok <==> directory_at(blob@, dir_offset.0 as int),
            r matches Ok(dir) ==> dir.decodes(blob@, dir_offset.0 as int),
            r matches Err(e) ==> directory_error(e, blob@, dir_offset),
    {
        let len: u64 = blob.len() as u64;
        let blob_start: u64 = blob.offset().0;
        let at: u64 = dir_offset.0;
        let ghost here = at as int;
        if at < blob_start {
            return Err(
                ParseError::Truncated {
                    what: "directory header",
                    offset: dir_offset,
                    expected: DIRECTORY_HEADER_SIZE,
                    available: 0,
                },
            );
        }
        let gap: u64 = at - blob_start;
        if gap > len || len - gap < 16 {
            return Err(
                ParseError::Truncated {
                    what: "directory header",
                    offset: dir_offset,
                    expected: DIRECTORY_HEADER_SIZE,
                    available: if gap > len {
                        0
                    } else {
                        (len - gap) as usize
                    },
                },
            );
        }
        let local: usize = gap as usize;
        let header = DirectoryHeader::parse(blob.slice(local, DIRECTORY_HEADER_SIZE).unwrap());
        let count: u64 = header.count as u64;
        assert(count == count_at(blob@, here));
        assert(header.magic.0@ == tag_at(blob@, here));
        match directory_family(header.magic) {
            None => Err(
                ParseError::BadMagic {
                    what: "directory",
                    offset: dir_offset,
                    got: header.magic,
                    expected: &[
                        Magic(PSP_MAGIC),
                        Magic(PL2_MAGIC),
                        Magic(BHD_MAGIC),
                        Magic(BL2_MAGIC),
                        Magic(COMBO_PSP_MAGIC),
                        Magic(COMBO_BHD_MAGIC),
                    ],
                },
            ),
            Some(family) => {
                let (size, what): (u64, &'static str) = match family {
                    DirectoryFamily::Psp => (0x10 + 0x10 * count, "PSP directory body"),
                    DirectoryFamily::Bios => (0x10 + 0x18 * count, "BIOS directory body"),
                    DirectoryFamily::Combo => (0x20 + 0x10 * count, "combo directory body"),
                };
                if size > usize::MAX as u64 {
                    assert(!directory_at(blob@, here));
                    return Err(
                        ParseError::Truncated {
                            what,
                            offset: dir_offset,
                            expected: usize::MAX,
                            available: 0,
                        },
                    );
                }
                if size > len - gap {
                    assert(!directory_at(blob@, here));
                    return Err(
                        ParseError::Truncated {
                            what,
                            offset: dir_offset,
                            expected: size as usize,
                            available: (len - gap) as usize,
                        },
                    );
                }
                assert(directory_of_family_at(blob@, here, family));
                match family {
                    DirectoryFamily::Psp => Ok(
                        Directory::Psp(PspDirectory::parse_with_header(blob, local, header)),
                    ),
                    DirectoryFamily::Bios => Ok(
                        Directory::Bios(BiosDirectory::parse_with_header(blob, local, header)),
                    ),
                    DirectoryFamily::Combo => Ok(
                        Directory::Combo(ComboDirectory::parse_with_header(blob, local, header)),
                    ),
                }
            },
        }
    }

    pub fn header(&self) -> (r: &DirectoryHeader)
        ensures
            *r == self.head(),
    {
        match self {
            Directory::Psp(d) => &d.header,
            Directory::Bios(d) => &d.header,
            Directory::Combo(d) => &d.header,
        }
    }

    pub fn source(&self) -> (r: &SourceBytes)
        ensures
            r@ == self.window(),
    {
        match self {
            Directory::Psp(d) => &d.source,
            Directory::Bios(d) => &d.source,
            Directory::Combo(d) => &d.source,
        }
    }

    pub fn family(&self) -> (r: DirectoryFamily)
        ensures
            r == self.shape(),
    {
        match self {
            Directory::Psp(_) => DirectoryFamily::Psp,
            Directory::Bios(_) => DirectoryFamily::Bios,
            Directory::Combo(_) => DirectoryFamily::Combo,
        }
    }

    pub fn is_bios(&self) -> (r: bool)
        ensures
            r == (self is Bios),
    {
        match self {
            Directory::Bios(_) => true,
            _ => false,
        }
    }
}

/// The family of a parsed directory is the one that its tag names.
pub proof fn lemma_parsed_family(dir: Directory, blob: Window, at: int)
    requires
        dir.decodes(blob, at),
    ensures
        family_of(dir.head().magic.0@) == Some(dir.shape()),
        dir.window().offset == at,
{
}

} // verus!
