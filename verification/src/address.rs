//! Offsets, raw pointers, and how a pointer is turned into an offset.

use vstd::prelude::*;

use crate::text::{group_text, prefixed_hex_padded, push_prefixed_hex_padded};

verus! {

/// A byte offset into the loaded image. Offset 0 is the first byte of the
/// input, which is not the start of a ROM when an envelope precedes it.
#[derive(Copy, Clone, Debug, PartialEq, Eq, PartialOrd, Ord, Hash, Default, Structural)]
pub struct FlashOffset(pub u64);

impl FlashOffset {
    pub fn get(self) -> (r: u64)
        ensures
            r == self.0,
    {
        self.0
    }

    pub fn checked_add(self, rhs: u64) -> (r: Option<Self>)
        ensures
            r == (if self.0 + rhs <= u64::MAX {
                Some(FlashOffset((self.0 + rhs) as u64))
            } else {
                None
            }),
    {
        match self.0.checked_add(rhs) {
            Some(v) => Some(FlashOffset(v)),
            None => None,
        }
    }

    /// The offset as `0x` and at least eight hexadecimal digits.
    pub fn text(self) -> (r: String)
        ensures
            r@ == prefixed_hex_padded(self.0 as nat, 8),
    {
        broadcast use group_text;

        let mut out = String::new();
        push_prefixed_hex_padded(self.0, 8, &mut out);
        out
    }
}

/// Size of a ROM: 8, 16 or 32 MiB.
#[allow(non_camel_case_types)]
#[derive(Copy, Clone, Debug, PartialEq, Eq, PartialOrd, Ord, Hash, Structural)]
pub enum RomSize {
    MIB_8,
    MIB_16,
    MIB_32,
}

impl RomSize {
    /// The size in bytes.
    pub open spec fn size(self) -> u64 {
        match self {
            RomSize::MIB_8 => 0x80_0000,
            RomSize::MIB_16 => 0x100_0000,
            RomSize::MIB_32 => 0x200_0000,
        }
    }

    /// The ROM size of `bytes` bytes; `None` unless that is a power of two
    /// from 8 MiB to 32 MiB.
    pub fn new(bytes: u64) -> (r: Option<Self>)
        ensures
            r matches Some(size) ==> size.size() == bytes,
            r is None ==> forall|size: RomSize| (#[trigger] size.size()) != bytes,
    {
        if bytes == 0x80_0000 {
            Some(RomSize::MIB_8)
        } else if bytes == 0x100_0000 {
            Some(RomSize::MIB_16)
        } else if bytes == 0x200_0000 {
            Some(RomSize::MIB_32)
        } else {
            None
        }
    }

    pub fn bytes(self) -> (r: u64)
        ensures
            r == self.size(),
    {
        match self {
            RomSize::MIB_8 => 0x80_0000,
            RomSize::MIB_16 => 0x100_0000,
            RomSize::MIB_32 => 0x200_0000,
        }
    }

    /// The mask that keeps the offset inside a ROM of this size.
    pub fn addr_mask(self) -> (r: u64)
        ensures
            r == self.size() - 1,
    {
        self.bytes() - 1
    }
}

/// A raw 32-bit pointer as it stands in the image.
#[derive(Copy, Clone, Debug, PartialEq, Eq, Hash, Default, Structural)]
pub struct Address(pub u32);

impl Address {
    pub fn get(self) -> (r: u32)
        ensures
            r == self.0,
    {
        self.0
    }

    /// Values of a table slot that point nowhere.
    pub open spec fn sentinel(self) -> bool {
        self.0 == 0 || self.0 == 0xFFFF_FFFE || self.0 == 0xFFFF_FFFF
    }

    pub fn is_fet_sentinel(self) -> (r: bool)
        ensures
            r == self.sentinel(),
    {
        self.0 == 0 || self.0 == 0xFFFF_FFFE || self.0 == 0xFFFF_FFFF
    }
}

/// How a raw pointer is to be read; a two-bit field of directories and of
/// entry records.
#[derive(Copy, Clone, Debug, PartialEq, Eq, Hash, Structural)]
pub enum AddressMode {
    /// `00`: a physical address of the processor.
    PhysicalX86,
    /// `01`: an offset from the start of the ROM.
    FlashOffset,
    /// `10`: an offset from the directory header.
    DirectoryRelative,
    /// `11`: an offset from the partition, read as `10` is.
    PartitionRelative,
}

/// The mode that the number `n` (modulo 4) encodes.
pub open spec fn mode_of(n: int) -> AddressMode {
    if n % 4 == 0 {
        AddressMode::PhysicalX86
    } else if n % 4 == 1 {
        AddressMode::FlashOffset
    } else if n % 4 == 2 {
        AddressMode::DirectoryRelative
    } else {
        AddressMode::PartitionRelative
    }
}

/// The mode of a directory whose `additional_info` word is `info`: bits
/// `[25:24]` when bit 31 is set, bits `[30:29]` otherwise.
pub open spec fn directory_mode(info: u32) -> AddressMode {
    if info >= 0x8000_0000 {
        mode_of(info as int / 0x100_0000)
    } else {
        mode_of(info as int / 0x2000_0000)
    }
}

/// The mode that an entry record's `rsv0` word gives: bits `[31:30]`.
pub open spec fn entry_mode(rsv0: u32) -> AddressMode {
    mode_of(rsv0 as int / 0x4000_0000)
}

impl AddressMode {
    /// The encoding of the mode.
    pub open spec fn code(self) -> u8 {
        match self {
            AddressMode::PhysicalX86 => 0,
            AddressMode::FlashOffset => 1,
            AddressMode::DirectoryRelative => 2,
            AddressMode::PartitionRelative => 3,
        }
    }

    /// Whether the mode leaves the choice to the entry record.
    pub open spec fn defers(self) -> bool {
        self is DirectoryRelative || self is PartitionRelative
    }

    /// The mode in the two low bits of `bits`.
    pub fn from_bits(bits: u8) -> (r: Self)
        ensures
            r == mode_of(bits as int),
    {
        let low: u8 = bits % 4;
        if low == 0 {
            AddressMode::PhysicalX86
        } else if low == 1 {
            AddressMode::FlashOffset
        } else if low == 2 {
            AddressMode::DirectoryRelative
        } else {
            AddressMode::PartitionRelative
        }
    }

    pub fn bits(self) -> (r: u8)
        ensures
            r == self.code(),
    {
        match self {
            AddressMode::PhysicalX86 => 0,
            AddressMode::FlashOffset => 1,
            AddressMode::DirectoryRelative => 2,
            AddressMode::PartitionRelative => 3,
        }
    }

    pub fn from_additional_info(additional_info: u32) -> (r: Self)
        ensures
            r == directory_mode(additional_info),
    {
        if additional_info >= 0x8000_0000 {
            Self::from_bits((additional_info / 0x100_0000 % 4) as u8)
        } else {
            Self::from_bits((additional_info / 0x2000_0000) as u8)
        }
    }

    pub fn defers_to_entry(self) -> (r: bool)
        ensures
            r == self.defers(),
    {
        match self {
            AddressMode::DirectoryRelative | AddressMode::PartitionRelative => true,
            _ => false,
        }
    }

    pub fn from_entry_rsv0(rsv0: u32) -> (r: Self)
        ensures
            r == entry_mode(rsv0),
    {
        Self::from_bits((rsv0 / 0x4000_0000) as u8)
    }

    /// The offset of `raw` in the input, for a directory of this mode.
    pub fn resolve(self, raw: Address, ctx: ResolveContext) -> (r: Result<
        FlashOffset,
        ResolveError,
    >)
        ensures
            r == (if self.defers() {
                Err::<FlashOffset, ResolveError>(ResolveError::NeedsEntryMode)
            } else {
                Ok(FlashOffset(target(self, raw, ctx)))
            }),
    {
        match self {
            AddressMode::PhysicalX86 => Ok(
                FlashOffset(ctx.rom_origin.0.wrapping_add(normalise_physical(raw, ctx.rom_size).0)),
            ),
            AddressMode::FlashOffset => Ok(
                FlashOffset(ctx.rom_origin.0.wrapping_add(raw.0 as u64)),
            ),
            AddressMode::DirectoryRelative | AddressMode::PartitionRelative => Err(
                ResolveError::NeedsEntryMode,
            ),
        }
    }

    /// The offset of `raw` in the input, where the mode of the entry record
    /// counts if that of the directory defers to it.
    pub fn resolve_with_entry(
        self,
        entry_mode: AddressMode,
        raw: Address,
        ctx: ResolveContext,
    ) -> (r: FlashOffset)
        ensures
            r.0 == entry_target(self, entry_mode, raw, ctx),
    {
        let mode = if self.defers_to_entry() {
            entry_mode
        } else {
            self
        };
        match mode {
            AddressMode::PhysicalX86 => FlashOffset(
                ctx.rom_origin.0.wrapping_add(normalise_physical(raw, ctx.rom_size).0),
            ),
            AddressMode::FlashOffset => FlashOffset(ctx.rom_origin.0.wrapping_add(raw.0 as u64)),
            AddressMode::DirectoryRelative | AddressMode::PartitionRelative => FlashOffset(
                ctx.directory_base.0.wrapping_add(raw.0 as u64),
            ),
        }
    }
}

/// What a raw pointer is read against.
#[derive(Copy, Clone, Debug, PartialEq, Eq, Structural)]
pub struct ResolveContext {
    /// Size of the ROM that the pointer belongs to.
    pub rom_size: RomSize,
    /// Offset in the input of the directory header.
    pub directory_base: FlashOffset,
    /// Offset in the input of the first byte of the ROM.
    pub rom_origin: FlashOffset,
}

#[derive(Copy, Clone, Debug, PartialEq, Eq, Structural)]
pub enum ResolveError {
    /// The directory's mode defers to the entry, and no entry was given.
    NeedsEntryMode,
}

impl ResolveError {
    pub fn text(&self) -> (r: String)
        ensures
            r@
                == "directory-scoped address mode is 10/11; an entry-level address mode override is required"@,
    {
        let mut out = String::new();
        out.append(
            "directory-scoped address mode is 10/11; an entry-level address mode override is required",
        );
        assert(out@ =~= "directory-scoped address mode is 10/11; an entry-level address mode override is required"@);
        out
    }
}

/// The ROM offset that a physical address stands for: the address modulo the
/// ROM size, but modulo 16 MiB for the mapped window of a larger ROM.
pub open spec fn physical(raw: u32, size: u64) -> u64 {
    if raw > 0xFF00_0000 && size > 0x100_0000 {
        (raw % 0x100_0000) as u64
    } else {
        (raw as u64 % size) as u64
    }
}

/// The input offset that `raw` stands for in `mode`.
pub open spec fn target(mode: AddressMode, raw: Address, ctx: ResolveContext) -> u64 {
    match mode {
        AddressMode::PhysicalX86 => ctx.rom_origin.0.wrapping_add(
            physical(raw.0, ctx.rom_size.size()),
        ),
        AddressMode::FlashOffset => ctx.rom_origin.0.wrapping_add(raw.0 as u64),
        AddressMode::DirectoryRelative | AddressMode::PartitionRelative =>
            ctx.directory_base.0.wrapping_add(raw.0 as u64),
    }
}

/// The input offset that `raw` stands for in a directory of mode `directory`,
/// in an entry of mode `entry`.
pub open spec fn entry_target(
    directory: AddressMode,
    entry: AddressMode,
    raw: Address,
    ctx: ResolveContext,
) -> u64 {
    if directory.defers() {
        target(entry, raw, ctx)
    } else {
        target(directory, raw, ctx)
    }
}

/// The ROM offset that a physical address stands for.
pub fn normalise_physical(raw: Address, rom_size: RomSize) -> (r: FlashOffset)
    ensures
        r.0 == physical(raw.0, rom_size.size()),
{
    let wide: u64 = raw.0 as u64;
    let mask: u64 = rom_size.addr_mask();
    proof {
        assert(wide & 0xFF_FFFF == wide % 0x100_0000) by (bit_vector);
        assert(wide & 0x7F_FFFF == wide % 0x80_0000) by (bit_vector);
        assert(wide & 0x1FF_FFFF == wide % 0x200_0000) by (bit_vector);
    }
    if wide > 0xFF00_0000 && rom_size.bytes() > 0x100_0000 {
        FlashOffset(wide & 0xFF_FFFF)
    } else {
        FlashOffset(wide & mask)
    }
}

/// Encoding a mode and decoding it again gives the mode.
pub proof fn lemma_mode_bits_round_trip(mode: AddressMode)
    ensures
        mode_of(mode.code() as int) == mode,
{
}

/// Only the two low bits of an encoded mode matter.
pub proof fn lemma_mode_ignores_high_bits(n: int, m: int)
    requires
        n % 4 == m % 4,
    ensures
        mode_of(n) == mode_of(m),
{
}

/// A pointer that is already an offset inside the ROM is its own physical
/// reading.
pub proof fn lemma_physical_keeps_offsets(raw: u32, size: RomSize)
    requires
        raw < size.size(),
    ensures
        physical(raw, size.size()) == raw,
{
    assert(raw as u64 % size.size() == raw) by {
        vstd::arithmetic::div_mod::lemma_small_mod(raw as nat, size.size() as nat);
    }
}

/// The physical reading of a pointer lies inside the ROM.
pub proof fn lemma_physical_in_rom(raw: u32, size: RomSize)
    ensures
        physical(raw, size.size()) < size.size(),
{
}

/// The physical reading of a pointer is its remainder by 16 MiB when it lies
/// above `0xFF00_0000` and the ROM has 32 MiB, and its remainder by the size of
/// the ROM otherwise. Read again, it stays what it is.
pub proof fn lemma_physical_rule(raw: u32, size: RomSize)
    ensures
        physical(raw, size.size()) == (if raw > 0xFF00_0000 && size == RomSize::MIB_32 {
            raw as int % 0x100_0000
        } else {
            raw as int % size.size() as int
        }),
        physical(raw, size.size()) < size.size(),
        physical(physical(raw, size.size()) as u32, size.size()) == physical(raw, size.size()),
{
    lemma_physical_in_rom(raw, size);
    lemma_physical_keeps_offsets(physical(raw, size.size()) as u32, size);
}

/// The modes by their numbers: a directory's is in bits 25 and 24 of its word where
/// bit 31 is set, in bits 30 and 29 otherwise; a record's is in bits 31 and 30 of
/// its own. Modes 2 and 3 of a directory leave the choice to the record.
pub proof fn lemma_mode_numbers(info: u32, rsv0: u32)
    ensures
        directory_mode(info).code() == (if info >= 0x8000_0000 {
            info / 0x100_0000 % 4
        } else {
            info / 0x2000_0000 % 4
        }),
        entry_mode(rsv0).code() == rsv0 / 0x4000_0000,
        directory_mode(info).defers() <==> directory_mode(info).code() >= 2,
        AddressMode::PhysicalX86.code() == 0,
        AddressMode::FlashOffset.code() == 1,
        AddressMode::DirectoryRelative.code() == 2,
        AddressMode::PartitionRelative.code() == 3,
{
}

/// Where a pointer leads by each mode, as long as no sum exceeds 64 bits: a
/// physical address and an offset count from the start of the ROM, the two other
/// modes from the directory.
pub proof fn lemma_where_pointers_lead(raw: u32, ctx: ResolveContext)
    ensures
        ctx.rom_origin.0 + physical(raw, ctx.rom_size.size()) <= u64::MAX ==> target(
            AddressMode::PhysicalX86,
            Address(raw),
            ctx,
        ) == ctx.rom_origin.0 + physical(raw, ctx.rom_size.size()),
        ctx.rom_origin.0 + raw <= u64::MAX ==> target(AddressMode::FlashOffset, Address(raw), ctx)
            == ctx.rom_origin.0 + raw,
        ctx.directory_base.0 + raw <= u64::MAX ==> target(
            AddressMode::DirectoryRelative,
            Address(raw),
            ctx,
        ) == ctx.directory_base.0 + raw && target(
            AddressMode::PartitionRelative,
            Address(raw),
            ctx,
        ) == ctx.directory_base.0 + raw,
{
}

} // verus!
