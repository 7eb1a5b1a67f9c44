//! The Firmware Entry Table, the root of one ROM.

use vstd::prelude::*;

use crate::address::{Address, FlashOffset, RomSize};
use crate::error::ParseError;
use crate::magic::{Magic, FET_MAGIC_SWAPPED, FET_MAGIC};
use crate::source::{SourceBytes, Window};
use crate::wire::{le32, read_array4, read_le32};

verus! {

/// Offsets in a ROM at which its table may stand, in the order of trial.
pub const KNOWN_FET_OFFSETS: [u64; 7] = [
    0x02_0000,
    0xFA_0000,
    0xF2_0000,
    0xE2_0000,
    0xC2_0000,
    0x82_0000,
    0x12_0000,
];

/// Size of the tag at the start of a table.
pub const FET_MAGIC_SIZE: usize = 4;

/// Size of a slot.
pub const FET_SLOT_SIZE: usize = 4;

/// Size of the run of `0xFF` that ends a table.
pub const FET_TERMINATOR_SIZE: usize = 16;

/// One slot of a table.
#[derive(Copy, Clone, Debug, PartialEq, Eq, Structural)]
pub enum FetSlot {
    /// A value that points nowhere and is kept as it is.
    Sentinel(Address),
    /// A pointer; whether a directory stands there shows when it is followed.
    Pointer(Address),
}

/// The slot that the value `addr` makes.
pub open spec fn slot_of(addr: Address) -> FetSlot {
    if addr.sentinel() {
        FetSlot::Sentinel(addr)
    } else {
        FetSlot::Pointer(addr)
    }
}

impl FetSlot {
    pub fn classify(addr: Address) -> (r: Self)
        ensures
            r == slot_of(addr),
    {
        if addr.is_fet_sentinel() {
            FetSlot::Sentinel(addr)
        } else {
            FetSlot::Pointer(addr)
        }
    }

    /// The raw value of the slot.
    pub open spec fn raw(self) -> Address {
        match self {
            FetSlot::Sentinel(a) => a,
            FetSlot::Pointer(a) => a,
        }
    }

    pub fn address(&self) -> (r: Address)
        ensures
            r == self.raw(),
    {
        match self {
            FetSlot::Sentinel(a) => *a,
            FetSlot::Pointer(a) => *a,
        }
    }
}

/// Classifying a value keeps the value.
pub proof fn lemma_slot_keeps_value(addr: Address)
    ensures
        slot_of(addr).raw() == addr,
{
}

/// A slot with the four bytes it was read from.
#[derive(Clone, Debug, PartialEq, Eq)]
pub struct FetSlotRecord {
    pub slot: FetSlot,
    pub source: SourceBytes,
}

/// A parsed table.
#[derive(Clone, Debug, PartialEq, Eq)]
pub struct Fet {
    /// Tag, slots and terminator.
    pub source: SourceBytes,
    /// The slots in the order of the image.
    pub slots: Vec<FetSlotRecord>,
}

/// Both byte orders of the table's tag.
pub open spec fn is_fet_tag(tag: Seq<u8>) -> bool {
    tag == FET_MAGIC@ || tag == FET_MAGIC_SWAPPED@
}

/// Whether a tag of a table starts at input offset `at`.
pub open spec fn fet_tag_at(blob: Window, at: int) -> bool {
    blob.covers(at, 4) && is_fet_tag(blob.at(at, 4).bytes)
}

/// Whether sixteen bytes of `0xFF` start at index `i`.
pub open spec fn terminator_at(bytes: Seq<u8>, i: int) -> bool {
    &&& 0 <= i
    &&& i + 16 <= bytes.len()
    &&& forall|j: int| i <= j < i + 16 ==> #[trigger] bytes[j] == 0xFF
}

/// Whether the terminator of the table at `at` comes right behind `n` slots.
pub open spec fn terminated_after(blob: Window, at: int, n: int) -> bool {
    terminator_at(blob.bytes, at - blob.offset + 4 + 4 * n)
}

/// Whether a whole table starts at input offset `at`.
pub open spec fn fet_at(blob: Window, at: int) -> bool {
    fet_tag_at(blob, at) && exists|n: int| 0 <= n && #[trigger] terminated_after(blob, at, n)
}

impl FetSlotRecord {
    /// Whether this is slot `i` of the table at `at`.
    pub open spec fn decodes(self, blob: Window, at: int, i: int) -> bool {
        &&& self.source@ == blob.at(at + 4 + 4 * i, 4)
        &&& self.slot == slot_of(Address(le32(blob.bytes, at - blob.offset + 4 + 4 * i)))
    }
}

impl Fet {
    /// Whether this is the table at input offset `at`: its slots are those in
    /// front of the first terminator.
    pub open spec fn decodes(self, blob: Window, at: int) -> bool {
        let n = self.slots@.len() as int;
        &&& fet_tag_at(blob, at)
        &&& terminated_after(blob, at, n)
        &&& forall|k: int| 0 <= k < n ==> !#[trigger] terminated_after(blob, at, k)
        &&& self.source@ == blob.at(at, 4 + 4 * n + 16)
        &&& forall|i: int| 0 <= i < n ==> (#[trigger] self.slots@[i]).decodes(blob, at, i)
    }

    /// Parse the table whose tag starts at `magic_offset`.
    pub fn parse_at(blob: &SourceBytes, magic_offset: FlashOffset) -> (r: Result<
        Self,
        ParseError,
    >)
        ensures
            r is Ok <==> fet_at(blob@, magic_offset.0 as int),
            r matches Ok(fet) ==> fet.decodes(blob@, magic_offset.0 as int),
            r matches Err(e) ==> fet_error(e, blob@, magic_offset),
    {
        let bytes = blob.as_bytes();
        let blob_start: u64 = blob.offset().0;
        let at: u64 = magic_offset.0;
        let len: u64 = bytes.len() as u64;
        let ghost ati = at as int;
        if at < blob_start {
            return Err(
                ParseError::Truncated {
                    what: "FET magic",
                    offset: magic_offset,
                    expected: FET_MAGIC_SIZE,
                    available: 0,
                },
            );
        }
        let gap: u64 = at - blob_start;
        if gap > len || len - gap < 4 {
            return Err(
                ParseError::Truncated {
                    what: "FET magic",
                    offset: magic_offset,
                    expected: FET_MAGIC_SIZE,
                    available: if gap > len {
                        0
                    } else {
                        (len - gap) as usize
                    },
                },
            );
        }
        let start: usize = gap as usize;
        let magic = Magic(read_array4(bytes, start));
        if !(magic.is(&FET_MAGIC) || magic.is(&FET_MAGIC_SWAPPED)) {
            return Err(
                ParseError::BadMagic {
                    what: "FET",
                    offset: magic_offset,
                    got: magic,
                    expected: &[Magic(FET_MAGIC), Magic(FET_MAGIC_SWAPPED)],
                },
            );
        }
        let mut slots: Vec<FetSlotRecord> = Vec::new();
        let mut cursor: usize = start + 4;
        while !is_terminator(bytes, cursor)
            invariant
                bytes@ == blob@.bytes,
                bytes@.len() <= usize::MAX,
                ati == at,
                at == magic_offset.0,
                start == at - blob@.offset,
                0 <= start,
                fet_tag_at(blob@, ati),
                cursor == start + 4 + 4 * slots@.len(),
                cursor <= bytes@.len(),
                forall|k: int|
                    0 <= k < slots@.len() ==> !#[trigger] terminated_after(blob@, ati, k),
                forall|i: int|
                    0 <= i < slots@.len() ==> (#[trigger] slots@[i]).decodes(blob@, ati, i),
            decreases bytes@.len() - cursor,
        {
            assert(!terminated_after(blob@, ati, slots@.len() as int));
            if bytes.len() - cursor < 4 {
                proof {
                    let n = slots@.len() as int;
                    assert forall|k: int| 0 <= k implies !#[trigger] terminated_after(
                        blob@,
                        ati,
                        k,
                    ) by {
                        if k >= n && terminated_after(blob@, ati, k) {
                            assert(start + 4 + 4 * k >= cursor);
                        }
                    }
                }
                return Err(ParseError::FetUnterminated { offset: magic_offset });
            }
            let raw: u32 = read_le32(bytes, cursor);
            let source = blob.slice(cursor, 4).unwrap();
            let ghost before = slots@;
            slots.push(FetSlotRecord { slot: FetSlot::classify(Address(raw)), source });
            proof {
                assert forall|i: int| 0 <= i < slots@.len() implies (#[trigger] slots@[i]).decodes(
                    blob@,
                    ati,
                    i,
                ) by {
                    if i < before.len() {
                        assert(slots@[i] == before[i]);
                    }
                }
            }
            cursor += 4;
        }
        assert(terminated_after(blob@, ati, slots@.len() as int));
        let total: usize = cursor + FET_TERMINATOR_SIZE - start;
        let source = blob.slice(start, total).unwrap();
        Ok(Fet { source, slots })
    }

    /// The slots that are pointers.
    pub fn pointers(&self) -> (r: Vec<&FetSlotRecord>)
        ensures
            r@.map_values(|s: &FetSlotRecord| *s) == self.slots@.filter(
                |s: FetSlotRecord| s.slot is Pointer,
            ),
    {
        let mut out: Vec<&FetSlotRecord> = Vec::new();
        let ghost keep = |s: FetSlotRecord| s.slot is Pointer;
        let ghost plain = |s: &FetSlotRecord| *s;
        let mut i: usize = 0;
        assert(self.slots@.subrange(0, 0) =~= Seq::empty());
        assert(out@.map_values(plain) =~= Seq::<FetSlotRecord>::empty());
        reveal_with_fuel(Seq::filter, 1);
        while i < self.slots.len()
            invariant
                i <= self.slots@.len(),
                keep == (|s: FetSlotRecord| s.slot is Pointer),
                plain == (|s: &FetSlotRecord| *s),
                out@.map_values(plain) == self.slots@.subrange(0, i as int).filter(keep),
            decreases self.slots@.len() - i,
        {
            let ghost before = out@;
            proof {
                reveal(Seq::filter);
                let now = self.slots@.subrange(0, i + 1);
                assert(now.drop_last() =~= self.slots@.subrange(0, i as int));
                assert(now.last() == self.slots@[i as int]);
            }
            if let FetSlot::Pointer(_) = self.slots[i].slot {
                out.push(&self.slots[i]);
                assert(out@.map_values(plain) =~= before.map_values(plain).push(
                    self.slots@[i as int],
                ));
            }
            i += 1;
        }
        assert(self.slots@.subrange(0, self.slots@.len() as int) =~= self.slots@);
        out
    }
}

/// Why no table was parsed at `at`.
pub open spec fn fet_error(e: ParseError, blob: Window, at: FlashOffset) -> bool {
    if !blob.covers(at.0 as int, 4) {
        e == (ParseError::Truncated {
            what: "FET magic",
            offset: at,
            expected: 4,
            available: (if blob.offset <= at.0 <= blob.end() {
                blob.end() - at.0
            } else {
                0
            }) as usize,
        })
    } else if !fet_tag_at(blob, at.0 as int) {
        e matches ParseError::BadMagic { what, offset, got, expected } && what@ == "FET"@
            && offset == at && got.0@ == blob.at(at.0 as int, 4).bytes && expected@ == seq![
            Magic(FET_MAGIC),
            Magic(FET_MAGIC_SWAPPED),
        ]
    } else {
        e == (ParseError::FetUnterminated { offset: at })
    }
}

fn is_terminator(bytes: &[u8], at: usize) -> (r: bool)
    requires
        at <= bytes@.len(),
    ensures
        r == terminator_at(bytes@, at as int),
{
    if bytes.len() - at < FET_TERMINATOR_SIZE {
        return false;
    }
    let mut i: usize = at;
    while i < at + FET_TERMINATOR_SIZE
        invariant
            at + 16 <= bytes@.len(),
            bytes@.len() <= usize::MAX,
            at <= i <= at + 16,
            forall|j: int| at <= j < i ==> #[trigger] bytes@[j] == 0xFF,
        decreases at + 16 - i,
    {
        if bytes[i] != 0xFF {
            return false;
        }
        i += 1;
    }
    true
}

/// Whether the four bytes in front of index `i` are all `b`.
pub open spec fn padded_with(bytes: Seq<u8>, i: int, b: u8) -> bool {
    bytes[i - 4] == b && bytes[i - 3] == b && bytes[i - 2] == b && bytes[i - 1] == b
}

/// Whether the tag of a table starts at index `i` behind a pad of four zero
/// bytes or four bytes of `0xFF`.
pub open spec fn candidate(bytes: Seq<u8>, i: int) -> bool {
    &&& 4 <= i
    &&& i + 4 <= bytes.len()
    &&& padded_with(bytes, i, 0) || padded_with(bytes, i, 0xFF)
    &&& is_fet_tag(bytes.subrange(i, i + 4))
}

/// The indices before `n` where a table may start, in ascending order.
pub open spec fn candidates(bytes: Seq<u8>, n: int) -> Seq<int>
    decreases n,
{
    if n <= 0 {
        Seq::empty()
    } else if candidate(bytes, n - 1) {
        candidates(bytes, n - 1).push(n - 1)
    } else {
        candidates(bytes, n - 1)
    }
}

/// The candidates before `n` ascend, and each index where a table may start is
/// one of them.
pub proof fn lemma_candidates(bytes: Seq<u8>, n: int)
    ensures
        forall|j: int, k: int|
            0 <= j < k < candidates(bytes, n).len() ==> #[trigger] candidates(bytes, n)[j]
                < #[trigger] candidates(bytes, n)[k],
        forall|i: int| #[trigger]
            candidates(bytes, n).contains(i) <==> i < n && candidate(bytes, i),
    decreases n,
{
    if n > 0 {
        lemma_candidates(bytes, n - 1);
        let before = candidates(bytes, n - 1);
        let all = candidates(bytes, n);
        assert forall|j: int, k: int| 0 <= j < k < all.len() implies #[trigger] all[j]
            < #[trigger] all[k] by {
            if k < before.len() {
                assert(before[j] < before[k]);
            } else {
                assert(before.contains(before[j]));
            }
        }
        assert forall|i: int| #[trigger] all.contains(i) <==> i < n && candidate(bytes, i) by {
            if all.contains(i) {
                let j = choose|j: int| 0 <= j < all.len() && all[j] == i;
                if j < before.len() {
                    assert(before[j] == i);
                    assert(before.contains(i));
                }
            }
            if i < n && candidate(bytes, i) {
                if i < n - 1 {
                    assert(before.contains(i));
                    let j = choose|j: int| 0 <= j < before.len() && before[j] == i;
                    assert(all[j] == i);
                } else {
                    assert(all[before.len() as int] == i);
                }
            }
        }
    }
}

proof fn lemma_no_candidates_between(bytes: Seq<u8>, m: int, n: int)
    requires
        m <= n,
        forall|i: int| m <= i < n ==> !#[trigger] candidate(bytes, i),
    ensures
        candidates(bytes, m) == candidates(bytes, n),
    decreases n - m,
{
    if m < n {
        lemma_no_candidates_between(bytes, m, n - 1);
        assert(!candidate(bytes, n - 1));
        if n <= 0 {
            assert(candidates(bytes, m) == Seq::<int>::empty());
        }
    }
}

/// The indices in `blob` of some offsets.
pub open spec fn indices(blob: Window, offsets: Seq<FlashOffset>) -> Seq<int> {
    offsets.map_values(|o: FlashOffset| o.0 - blob.offset)
}

/// Every place of `blob` where a table may start, in ascending order.
pub fn scan_fet_candidates(blob: &SourceBytes) -> (r: Vec<FlashOffset>)
    ensures
        indices(blob@, r@) == candidates(blob@.bytes, blob@.bytes.len() as int),
{
    let bytes = blob.as_bytes();
    let base: u64 = blob.offset().0;
    let mut out: Vec<FlashOffset> = Vec::new();
    assert(indices(blob@, out@) =~= Seq::<int>::empty());
    if bytes.len() < 8 {
        proof {
            lemma_no_candidates_between(bytes@, 0, bytes@.len() as int);
        }
        return out;
    }
    let mut i: usize = 4;
    proof {
        lemma_no_candidates_between(bytes@, 0, 4);
    }
    while i <= bytes.len() - 4
        invariant
            bytes@ == blob@.bytes,
            8 <= bytes@.len() <= usize::MAX,
            base == blob@.offset,
            blob@.end() <= u64::MAX,
            4 <= i <= bytes@.len() - 3,
            indices(blob@, out@) == candidates(bytes@, i as int),
        decreases bytes@.len() - i,
    {
        let zeros: bool = bytes[i - 4] == 0 && bytes[i - 3] == 0 && bytes[i - 2] == 0 && bytes[i
            - 1] == 0;
        let ones: bool = bytes[i - 4] == 0xFF && bytes[i - 3] == 0xFF && bytes[i - 2] == 0xFF
            && bytes[i - 1] == 0xFF;
        if zeros || ones {
            let magic = Magic(read_array4(bytes, i));
            if magic.is(&FET_MAGIC) || magic.is(&FET_MAGIC_SWAPPED) {
                let ghost before = out@;
                out.push(FlashOffset(base + i as u64));
                assert(indices(blob@, out@) =~= indices(blob@, before).push(i as int));
                assert(candidate(bytes@, i as int));
            }
        }
        i += 1;
    }
    proof {
        lemma_no_candidates_between(bytes@, i as int, bytes@.len() as int);
    }
    out
}

/// Where a ROM lies in the input, with its table.
#[derive(Clone, Debug, PartialEq, Eq)]
pub struct RomLayout {
    /// Offset in the input of the first byte of the ROM.
    pub rom_origin: FlashOffset,
    pub rom_size: RomSize,
    pub fet: Fet,
}

/// The largest ROM size that an input of `len` bytes holds.
pub open spec fn fitting_size(len: int) -> Option<RomSize> {
    if len >= 0x200_0000 {
        Some(RomSize::MIB_32)
    } else if len >= 0x100_0000 {
        Some(RomSize::MIB_16)
    } else if len >= 0x80_0000 {
        Some(RomSize::MIB_8)
    } else {
        None
    }
}

/// How many bytes a ROM must span: all of its size when its table stands in
/// the first 16 MiB of the input, at most 16 MiB otherwise.
pub open spec fn spanned(size: RomSize, gap: int) -> int {
    if gap < 0x100_0000 || size.size() < 0x100_0000 {
        size.size() as int
    } else {
        0x100_0000
    }
}

/// Whether a ROM of the given size whose table at `at` stands at the known
/// offset number `k` lies in the input.
pub open spec fn layout_fits(blob: Window, at: int, size: RomSize, k: int) -> bool {
    let origin = at - KNOWN_FET_OFFSETS@[k];
    &&& 0 <= k < 7
    &&& blob.offset <= origin
    &&& origin + spanned(size, at - blob.offset) <= blob.end()
}

/// Whether the table at `at` is that of a ROM which lies in the input.
pub open spec fn has_layout(blob: Window, at: int) -> bool {
    &&& fitting_size(blob.bytes.len() as int) matches Some(size)
    &&& fet_at(blob, at)
    &&& exists|k: int| #[trigger] layout_fits(blob, at, size, k)
}

impl RomLayout {
    /// Whether this is the layout of the ROM whose table stands at `at`.
    pub open spec fn describes(self, blob: Window, at: int) -> bool {
        &&& fitting_size(blob.bytes.len() as int) == Some(self.rom_size)
        &&& self.fet.decodes(blob, at)
        &&& exists|k: int|
            {
                &&& #[trigger] layout_fits(blob, at, self.rom_size, k)
                &&& self.rom_origin.0 == at - KNOWN_FET_OFFSETS@[k]
                &&& forall|m: int|
                    0 <= m < k ==> !#[trigger] layout_fits(blob, at, self.rom_size, m)
            }
    }
}

/// The layout of the ROM whose table stands at `fet_position`: the first known
/// table offset with which the ROM lies in the input counts.
pub fn detect_rom_layout(blob: &SourceBytes, fet_position: FlashOffset) -> (r: Option<RomLayout>)
    ensures
        r is Some <==> has_layout(blob@, fet_position.0 as int),
        r matches Some(layout) ==> layout.describes(blob@, fet_position.0 as int),
{
    let blob_len: u64 = blob.len() as u64;
    let range = blob.flash_range();
    let at: u64 = fet_position.0;
    if at < range.start {
        return None;
    }
    let rom_size = if blob_len >= RomSize::MIB_32.bytes() {
        RomSize::MIB_32
    } else if blob_len >= RomSize::MIB_16.bytes() {
        RomSize::MIB_16
    } else if blob_len >= RomSize::MIB_8.bytes() {
        RomSize::MIB_8
    } else {
        return None;
    };
    let span: u64 = if at - range.start < 0x100_0000 || rom_size.bytes() < 0x100_0000 {
        rom_size.bytes()
    } else {
        0x100_0000
    };
    let mut k: usize = 0;
    while k < 7
        invariant
            k <= 7,
            at == fet_position.0,
            range.start == blob@.offset,
            range.end == blob@.end(),
            blob_len == blob@.bytes.len(),
            fitting_size(blob@.bytes.len() as int) == Some(rom_size),
            span == spanned(rom_size, at - blob@.offset),
            forall|m: int|
                0 <= m < k ==> !#[trigger] layout_fits(blob@, at as int, rom_size, m),
        decreases 7 - k,
    {
        let fet_offset: u64 = KNOWN_FET_OFFSETS[k];
        let ghost fits = layout_fits(blob@, at as int, rom_size, k as int);
        if fet_offset <= at && range.start <= at - fet_offset && span <= range.end - range.start
            && at - fet_offset <= range.end - span {
            assert(layout_fits(blob@, at as int, rom_size, k as int));
            return match Fet::parse_at(blob, fet_position) {
                Ok(fet) => Some(
                    RomLayout { rom_origin: FlashOffset(at - fet_offset), rom_size, fet },
                ),
                Err(_) => None,
            };
        }
        assert(!fits);
        k += 1;
    }
    assert forall|m: int| !#[trigger] layout_fits(blob@, at as int, rom_size, m) by {}
    None
}

} // verus!
