//! What the parts of the library come to, said of the bytes of an image alone.

use vstd::prelude::*;

use crate::address::{
    directory_mode, entry_mode, entry_target, lemma_physical_rule, physical, Address, FlashOffset,
    ResolveContext, RomSize,
};
use crate::commands::{replaced_in, unedited, EditError};
use crate::directory::{
    count_at, directory_at, directory_of_family_at, record_at, tag_at, BiosEntry, ComboEntry,
    Directory, DirectoryHeader, PspEntry,
};
use crate::entry::{body_of, Entry, EntryClass, HeaderEntry, PubkeyEntry};
use crate::error::ParseError;
use crate::fet::{
    candidate, candidates, fet_at, has_layout, is_fet_tag, layout_fits, lemma_candidates,
    terminated_after, Fet, FetSlot, FetSlotRecord, RomLayout, KNOWN_FET_OFFSETS,
};
use crate::id::EntryType;
use crate::inventory::{context_in, entry_count, mode_in, parsed_as, record_in};
use crate::list::{record_count, secondaries, secondary_at, secondary_of};
use crate::load::{rom_tables, roms};
use crate::magic::{
    family_of, DirectoryFamily, BHD_MAGIC, BL2_MAGIC, COMBO_BHD_MAGIC, COMBO_PSP_MAGIC, FET_MAGIC,
    FET_MAGIC_SWAPPED, PL2_MAGIC, PSP_MAGIC,
};
use crate::replace::{
    body_replaced, lemma_replacing_is_local, may_change, record_replaced, size_field, ReplaceError,
};
use crate::source::Window;
use crate::walk::{
    directory_links, fet_link, fet_links, justified, known, lemma_reached_is_closed,
    lemma_reached_is_justified, lemma_reached_once, reached, record_link, record_links, settled,
    DirectoryProvenance, Found,
};
use crate::wire::{le32, le32_bytes};
use crate::writer::{patched, Edits, Patch};

verus! {

/// The byte at input offset `at`.
pub open spec fn byte(blob: Window, at: int) -> int {
    blob.bytes[at - blob.offset] as int
}

/// The little-endian word of four bytes at input offset `at`.
pub open spec fn word(blob: Window, at: int) -> int {
    byte(blob, at) + 0x100 * byte(blob, at + 1) + 0x1_0000 * byte(blob, at + 2) + 0x100_0000
        * byte(blob, at + 3)
}

/// Whether four given characters stand at input offset `at`.
pub open spec fn tagged(blob: Window, at: int, a: char, b: char, c: char, d: char) -> bool {
    &&& byte(blob, at) == a as int
    &&& byte(blob, at + 1) == b as int
    &&& byte(blob, at + 2) == c as int
    &&& byte(blob, at + 3) == d as int
}

/// Whether the tag of a PSP directory stands at input offset `at`.
pub open spec fn psp_tagged(blob: Window, at: int) -> bool {
    tagged(blob, at, '$', 'P', 'S', 'P') || tagged(blob, at, '$', 'P', 'L', '2')
}

/// Whether the tag of a BIOS directory stands at input offset `at`.
pub open spec fn bios_tagged(blob: Window, at: int) -> bool {
    tagged(blob, at, '$', 'B', 'H', 'D') || tagged(blob, at, '$', 'B', 'L', '2')
}

/// Whether the tag of a combo directory stands at input offset `at`.
pub open spec fn combo_tagged(blob: Window, at: int) -> bool {
    tagged(blob, at, '2', 'P', 'S', 'P') || tagged(blob, at, '2', 'B', 'H', 'D')
}

/// Whether a directory with all its records stands at input offset `at`: one of
/// the six tags, and as many records as the word behind the checksum counts.
pub open spec fn holds_directory(blob: Window, at: int) -> bool {
    &&& blob.offset <= at
    &&& at + 0x10 <= blob.offset + blob.bytes.len()
    &&& {
        ||| psp_tagged(blob, at) && at + 0x10 + 0x10 * word(blob, at + 8) <= blob.offset
            + blob.bytes.len()
        ||| bios_tagged(blob, at) && at + 0x10 + 0x18 * word(blob, at + 8) <= blob.offset
            + blob.bytes.len()
        ||| combo_tagged(blob, at) && at + 0x20 + 0x10 * word(blob, at + 8) <= blob.offset
            + blob.bytes.len()
    }
}

proof fn lemma_word(blob: Window, at: int, len: int, k: int)
    requires
        blob.offset <= at,
        at + len <= blob.offset + blob.bytes.len(),
        0 <= k,
        k + 4 <= len,
    ensures
        le32(blob.at(at, len).bytes, k) == word(blob, at + k),
{
    let w = blob.at(at, len).bytes;
    assert(forall|j: int| 0 <= j < len ==> w[j] == blob.bytes[at - blob.offset + j]);
}

proof fn lemma_tag_bytes(blob: Window, at: int)
    requires
        blob.offset <= at,
        at + 16 <= blob.offset + blob.bytes.len(),
    ensures
        family_of(tag_at(blob, at)) == Some(DirectoryFamily::Psp) <==> psp_tagged(blob, at),
        family_of(tag_at(blob, at)) == Some(DirectoryFamily::Bios) <==> bios_tagged(blob, at),
        family_of(tag_at(blob, at)) == Some(DirectoryFamily::Combo) <==> combo_tagged(blob, at),
{
    let tag = tag_at(blob, at);
    assert(tag.len() == 4);
    assert(tag[0] == blob.bytes[at - blob.offset]);
    assert(tag[1] == blob.bytes[at - blob.offset + 1]);
    assert(tag[2] == blob.bytes[at - blob.offset + 2]);
    assert(tag[3] == blob.bytes[at - blob.offset + 3]);
    let a: [u8; 4] = PSP_MAGIC;
    let b: [u8; 4] = PL2_MAGIC;
    let c: [u8; 4] = BHD_MAGIC;
    let d: [u8; 4] = BL2_MAGIC;
    let e: [u8; 4] = COMBO_PSP_MAGIC;
    let f: [u8; 4] = COMBO_BHD_MAGIC;
    assert(a@ =~= seq![0x24u8, 0x50, 0x53, 0x50]);
    assert(b@ =~= seq![0x24u8, 0x50, 0x4C, 0x32]);
    assert(c@ =~= seq![0x24u8, 0x42, 0x48, 0x44]);
    assert(d@ =~= seq![0x24u8, 0x42, 0x4C, 0x32]);
    assert(e@ =~= seq![0x32u8, 0x50, 0x53, 0x50]);
    assert(f@ =~= seq![0x32u8, 0x42, 0x48, 0x44]);
    if psp_tagged(blob, at) {
        assert(tag =~= a@ || tag =~= b@);
    }
    if bios_tagged(blob, at) {
        assert(tag =~= c@ || tag =~= d@);
    }
    if combo_tagged(blob, at) {
        assert(tag =~= e@ || tag =~= f@);
    }
}

/// A directory is parsed exactly where the bytes hold one.
pub proof fn lemma_directory_is_held(blob: Window, at: int)
    ensures
        directory_at(blob, at) <==> holds_directory(blob, at),
{
    if blob.offset <= at && at + 16 <= blob.offset + blob.bytes.len() {
        lemma_tag_bytes(blob, at);
        lemma_word(blob, at, 16, 8);
        let psp = directory_of_family_at(blob, at, DirectoryFamily::Psp);
        let bios = directory_of_family_at(blob, at, DirectoryFamily::Bios);
        let combo = directory_of_family_at(blob, at, DirectoryFamily::Combo);
        assert(psp ==> directory_at(blob, at));
        assert(bios ==> directory_at(blob, at));
        assert(combo ==> directory_at(blob, at));
        if directory_at(blob, at) {
            let family = choose|family: DirectoryFamily|
                #[trigger] directory_of_family_at(blob, at, family);
            assert(directory_of_family_at(blob, at, family));
        }
    } else if directory_at(blob, at) {
        let family = choose|family: DirectoryFamily|
            #[trigger] directory_of_family_at(blob, at, family);
        assert(blob.covers(at, 16));
    }
}

/// The place in a ROM that a physical address stands for.
pub open spec fn rom_place(raw: int, rom_size: RomSize) -> int {
    match rom_size {
        RomSize::MIB_8 => raw % 0x80_0000,
        RomSize::MIB_16 => raw % 0x100_0000,
        RomSize::MIB_32 => if raw > 0xFF00_0000 {
            raw % 0x100_0000
        } else {
            raw % 0x200_0000
        },
    }
}

proof fn lemma_rom_place(raw: u32, rom_size: RomSize)
    ensures
        physical(raw, rom_size.size()) == rom_place(raw as int, rom_size),
{
    lemma_physical_rule(raw, rom_size);
}

proof fn lemma_links_have(
    blob: Window,
    at: int,
    n: int,
    i: int,
    rom_size: RomSize,
    rom_origin: FlashOffset,
)
    requires
        0 <= i < n,
        record_link(blob, at, i, rom_size, rom_origin) is Some,
    ensures
        record_links(blob, at, n, rom_size, rom_origin).contains(
            record_link(blob, at, i, rom_size, rom_origin)->Some_0,
        ),
    decreases n,
{
    let before = record_links(blob, at, n - 1, rom_size, rom_origin);
    let all = record_links(blob, at, n, rom_size, rom_origin);
    let link = record_link(blob, at, i, rom_size, rom_origin)->Some_0;
    if i == n - 1 {
        assert(all[before.len() as int] == link);
    } else {
        lemma_links_have(blob, at, n - 1, i, rom_size, rom_origin);
        let k = choose|k: int| 0 <= k < before.len() && before[k] == link;
        assert(all[k] == link);
    }
}

proof fn lemma_link_is_reached(
    blob: Window,
    slots: Seq<FetSlotRecord>,
    rom_size: RomSize,
    rom_origin: FlashOffset,
    k: int,
    i: int,
)
    requires
        0 <= k < reached(blob, slots, rom_size, rom_origin).len(),
        0 <= i < count_at(blob, reached(blob, slots, rom_size, rom_origin)[k].at),
        record_link(
            blob,
            reached(blob, slots, rom_size, rom_origin)[k].at,
            i,
            rom_size,
            rom_origin,
        ) matches Some(link) && directory_at(blob, link.at),
    ensures
        known(
            reached(blob, slots, rom_size, rom_origin),
            record_link(
                blob,
                reached(blob, slots, rom_size, rom_origin)[k].at,
                i,
                rom_size,
                rom_origin,
            )->Some_0.at,
        ),
{
    let found = reached(blob, slots, rom_size, rom_origin);
    let at = found[k].at;
    let link = record_link(blob, at, i, rom_size, rom_origin)->Some_0;
    let links = directory_links(blob, at, rom_size, rom_origin);
    lemma_reached_is_closed(blob, slots, rom_size, rom_origin);
    assert(settled(found, blob, links));
    lemma_links_have(blob, at, count_at(blob, at), i, rom_size, rom_origin);
    let m = choose|m: int| 0 <= m < links.len() && links[m] == link;
    assert(directory_at(blob, links[m].at));
}

/// Every record of a combo directory is followed: when a walk finds a combo
/// directory, and a record of it points to a place in the ROM where a directory
/// stands, the walk finds that one too.
pub proof fn lemma_combo_records_are_followed(
    blob: Window,
    slots: Seq<FetSlotRecord>,
    rom_size: RomSize,
    rom_origin: FlashOffset,
    k: int,
    i: int,
)
    requires
        0 <= k < reached(blob, slots, rom_size, rom_origin).len(),
        ({
            let at = reached(blob, slots, rom_size, rom_origin)[k].at;
            let to = rom_origin.0 + rom_place(word(blob, at + 0x20 + 0x10 * i + 8), rom_size);
            &&& combo_tagged(blob, at)
            &&& 0 <= i < word(blob, at + 8)
            &&& to <= u64::MAX
            &&& holds_directory(blob, to)
        }),
    ensures
        ({
            let at = reached(blob, slots, rom_size, rom_origin)[k].at;
            let to = rom_origin.0 + rom_place(word(blob, at + 0x20 + 0x10 * i + 8), rom_size);
            exists|m: int|
                0 <= m < reached(blob, slots, rom_size, rom_origin).len() && (
                #[trigger] reached(blob, slots, rom_size, rom_origin)[m]).at == to
        }),
{
    let found = reached(blob, slots, rom_size, rom_origin);
    let at = found[k].at;
    let record = at + 0x20 + 0x10 * i;
    lemma_reached_once(blob, slots, rom_size, rom_origin);
    lemma_directory_is_held(blob, at);
    lemma_tag_bytes(blob, at);
    lemma_word(blob, at, 16, 8);
    lemma_word(blob, record, 16, 8);
    let raw = le32(record_at(blob, at, DirectoryFamily::Combo, i).bytes, 8);
    lemma_rom_place(raw, rom_size);
    let to = rom_origin.0 + rom_place(raw as int, rom_size);
    lemma_directory_is_held(blob, to);
    let link = record_link(blob, at, i, rom_size, rom_origin)->Some_0;
    assert(link.at == to);
    lemma_link_is_reached(blob, slots, rom_size, rom_origin, k, i);
    let m = choose|m: int| 0 <= m < found.len() && (#[trigger] found[m]).at == to;
    assert(found[m].at == to);
}

/// The number of the address mode that counts for a record: that of the
/// directory, bits 25 and 24 of its information word or bits 30 and 29 where bit
/// 31 is clear, unless it is 2 or more; then bits 31 and 30 of the word at the
/// record's `0x0C`.
pub open spec fn mode_number(info: int, own: int) -> int {
    let number = if info >= 0x8000_0000 {
        info / 0x100_0000 % 4
    } else {
        info / 0x2000_0000 % 4
    };
    if number >= 2 {
        own / 0x4000_0000
    } else {
        number
    }
}

/// Where a record of the directory at input offset `at` points: by mode 0 to a
/// physical address, by mode 1 to an offset in the ROM, by modes 2 and 3 to one
/// from the directory on.
pub open spec fn record_target(
    blob: Window,
    at: int,
    record: int,
    rom_size: RomSize,
    rom_origin: FlashOffset,
) -> int {
    pointed(
        word(blob, record + 8),
        mode_number(word(blob, at + 12), word(blob, record + 12)),
        at,
        rom_size,
        rom_origin,
    )
}

/// Where the pointer `raw` of a directory at input offset `at` leads by the mode
/// of a given number.
pub open spec fn pointed(
    raw: int,
    mode: int,
    at: int,
    rom_size: RomSize,
    rom_origin: FlashOffset,
) -> int {
    if mode == 0 {
        rom_origin.0 + rom_place(raw, rom_size)
    } else if mode == 1 {
        rom_origin.0 + raw
    } else {
        at + raw
    }
}

/// Where record `i` of the directory at input offset `at` starts.
pub open spec fn record_start(blob: Window, at: int, i: int) -> int {
    if combo_tagged(blob, at) {
        at + 0x20 + 0x10 * i
    } else if bios_tagged(blob, at) {
        at + 0x10 + 0x18 * i
    } else {
        at + 0x10 + 0x10 * i
    }
}

/// An offset in 64 bits, where what lies behind the last comes around.
pub open spec fn around(at: int) -> int {
    if at > u64::MAX {
        at - 0x1_0000_0000_0000_0000
    } else {
        at
    }
}

proof fn lemma_pointed(
    info: u32,
    own: u32,
    raw: u32,
    at: u64,
    rom_size: RomSize,
    rom_origin: FlashOffset,
)
    ensures
        entry_target(
            directory_mode(info),
            entry_mode(own),
            Address(raw),
            ResolveContext { rom_size, directory_base: FlashOffset(at), rom_origin },
        ) == around(
            pointed(
                raw as int,
                mode_number(info as int, own as int),
                at as int,
                rom_size,
                rom_origin,
            ),
        ),
{
    lemma_rom_place(raw, rom_size);
}

proof fn lemma_record_target(
    blob: Window,
    at: int,
    family: DirectoryFamily,
    i: int,
    rom_size: RomSize,
    rom_origin: FlashOffset,
)
    requires
        directory_of_family_at(blob, at, family),
        family != DirectoryFamily::Combo,
        0 <= at <= u64::MAX,
        0 <= i < count_at(blob, at),
    ensures
        ({
            let start = record_start(blob, at, i);
            let record = record_at(blob, at, family, i).bytes;
            &&& record[0] == byte(blob, start)
            &&& entry_target(
                directory_mode(le32(blob.at(at, 16).bytes, 12)),
                entry_mode(le32(record, 12)),
                Address(le32(record, 8)),
                ResolveContext { rom_size, directory_base: FlashOffset(at as u64), rom_origin },
            ) == around(record_target(blob, at, start, rom_size, rom_origin))
        }),
{
    lemma_tag_bytes(blob, at);
    lemma_word(blob, at, 16, 12);
    let start = record_start(blob, at, i);
    let len = if family == DirectoryFamily::Psp {
        0x10int
    } else {
        0x18int
    };
    let record = record_at(blob, at, family, i).bytes;
    assert(record =~= blob.at(start, len).bytes);
    lemma_word(blob, start, len, 8);
    lemma_word(blob, start, len, 12);
    lemma_pointed(
        le32(blob.at(at, 16).bytes, 12),
        le32(record, 12),
        le32(record, 8),
        at as u64,
        rom_size,
        rom_origin,
    );
}

/// Every record of a PSP or BIOS directory whose type is that of a directory is
/// followed: when a walk finds the directory that holds it, and a directory
/// stands where it points, the walk finds that one too.
pub proof fn lemma_nested_directories_are_followed(
    blob: Window,
    slots: Seq<FetSlotRecord>,
    rom_size: RomSize,
    rom_origin: FlashOffset,
    k: int,
    i: int,
)
    requires
        0 <= blob.offset,
        blob.offset + blob.bytes.len() <= u64::MAX,
        0 <= k < reached(blob, slots, rom_size, rom_origin).len(),
        ({
            let at = reached(blob, slots, rom_size, rom_origin)[k].at;
            let start = record_start(blob, at, i);
            let to = record_target(blob, at, start, rom_size, rom_origin);
            &&& psp_tagged(blob, at) || bios_tagged(blob, at)
            &&& 0 <= i < word(blob, at + 8)
            &&& byte(blob, start) == 0x40 || byte(blob, start) == 0x49 || byte(blob, start) == 0x70
            &&& to <= u64::MAX
            &&& holds_directory(blob, to)
        }),
    ensures
        ({
            let at = reached(blob, slots, rom_size, rom_origin)[k].at;
            let to = record_target(blob, at, record_start(blob, at, i), rom_size, rom_origin);
            exists|m: int|
                0 <= m < reached(blob, slots, rom_size, rom_origin).len() && (
                #[trigger] reached(blob, slots, rom_size, rom_origin)[m]).at == to
        }),
{
    let found = reached(blob, slots, rom_size, rom_origin);
    let at = found[k].at;
    let to = record_target(blob, at, record_start(blob, at, i), rom_size, rom_origin);
    lemma_reached_once(blob, slots, rom_size, rom_origin);
    lemma_directory_is_held(blob, at);
    lemma_directory_is_held(blob, to);
    lemma_tag_bytes(blob, at);
    lemma_word(blob, at, 16, 8);
    let family = choose|family: DirectoryFamily|
        #[trigger] directory_of_family_at(blob, at, family);
    lemma_record_target(blob, at, family, i, rom_size, rom_origin);
    assert(record_link(blob, at, i, rom_size, rom_origin) matches Some(link) && link.at == to);
    lemma_link_is_reached(blob, slots, rom_size, rom_origin, k, i);
    let m = choose|m: int| 0 <= m < found.len() && (#[trigger] found[m]).at == to;
    assert(found[m].at == to);
}

proof fn lemma_slot_links_have(
    slots: Seq<FetSlotRecord>,
    n: int,
    i: int,
    rom_size: RomSize,
    rom_origin: FlashOffset,
)
    requires
        0 <= i < n,
        fet_link(slots, i, rom_size, rom_origin) is Some,
    ensures
        fet_links(slots, n, rom_size, rom_origin).contains(
            fet_link(slots, i, rom_size, rom_origin)->Some_0,
        ),
    decreases n,
{
    let before = fet_links(slots, n - 1, rom_size, rom_origin);
    let all = fet_links(slots, n, rom_size, rom_origin);
    let link = fet_link(slots, i, rom_size, rom_origin)->Some_0;
    if i == n - 1 {
        assert(all[before.len() as int] == link);
    } else {
        lemma_slot_links_have(slots, n - 1, i, rom_size, rom_origin);
        let k = choose|k: int| 0 <= k < before.len() && before[k] == link;
        assert(all[k] == link);
    }
}

/// Every slot of the entry table is followed: where it points to a place in the
/// ROM at which a directory stands, the walk finds that directory.
pub proof fn lemma_slots_are_followed(
    blob: Window,
    slots: Seq<FetSlotRecord>,
    rom_size: RomSize,
    rom_origin: FlashOffset,
    i: int,
    raw: u32,
)
    requires
        0 <= i < slots.len(),
        slots[i].slot == FetSlot::Pointer(Address(raw)),
        rom_origin.0 + rom_place(raw as int, rom_size) <= u64::MAX,
        holds_directory(blob, rom_origin.0 + rom_place(raw as int, rom_size)),
    ensures
        exists|m: int|
            0 <= m < reached(blob, slots, rom_size, rom_origin).len() && (
            #[trigger] reached(blob, slots, rom_size, rom_origin)[m]).at == rom_origin.0
                + rom_place(raw as int, rom_size),
{
    let found = reached(blob, slots, rom_size, rom_origin);
    let to = rom_origin.0 + rom_place(raw as int, rom_size);
    let links = fet_links(slots, slots.len() as int, rom_size, rom_origin);
    lemma_rom_place(raw, rom_size);
    lemma_directory_is_held(blob, to);
    lemma_reached_is_closed(blob, slots, rom_size, rom_origin);
    lemma_slot_links_have(slots, slots.len() as int, i, rom_size, rom_origin);
    let link = fet_link(slots, i, rom_size, rom_origin)->Some_0;
    assert(link.at == to);
    let k = choose|k: int| 0 <= k < links.len() && links[k] == link;
    assert(directory_at(blob, links[k].at));
    let m = choose|m: int| 0 <= m < found.len() && (#[trigger] found[m]).at == to;
    assert(found[m].at == to);
}

proof fn lemma_links_come_from_records(
    blob: Window,
    at: int,
    n: int,
    rom_size: RomSize,
    rom_origin: FlashOffset,
    link: Found,
)
    requires
        record_links(blob, at, n, rom_size, rom_origin).contains(link),
    ensures
        exists|i: int|
            0 <= i < n && #[trigger] record_link(blob, at, i, rom_size, rom_origin) == Some(link),
    decreases n,
{
    let before = record_links(blob, at, n - 1, rom_size, rom_origin);
    let all = record_links(blob, at, n, rom_size, rom_origin);
    let k = choose|k: int| 0 <= k < all.len() && all[k] == link;
    if k < before.len() && n > 0 {
        assert(before[k] == link);
        lemma_links_come_from_records(blob, at, n - 1, rom_size, rom_origin, link);
    } else {
        assert(record_link(blob, at, n - 1, rom_size, rom_origin) == Some(link));
    }
}

proof fn lemma_links_come_from_slots(
    slots: Seq<FetSlotRecord>,
    n: int,
    rom_size: RomSize,
    rom_origin: FlashOffset,
    link: Found,
)
    requires
        fet_links(slots, n, rom_size, rom_origin).contains(link),
    ensures
        exists|i: int|
            0 <= i < n && #[trigger] fet_link(slots, i, rom_size, rom_origin) == Some(link),
    decreases n,
{
    let before = fet_links(slots, n - 1, rom_size, rom_origin);
    let all = fet_links(slots, n, rom_size, rom_origin);
    let k = choose|k: int| 0 <= k < all.len() && all[k] == link;
    if k < before.len() && n > 0 {
        assert(before[k] == link);
        lemma_links_come_from_slots(slots, n - 1, rom_size, rom_origin, link);
    } else {
        assert(fet_link(slots, n - 1, rom_size, rom_origin) == Some(link));
    }
}

/// Whether the directory at index `m` of those found is one that its provenance
/// leads to: a slot of the entry table that points there, a record of a combo
/// directory found before it, or a record of another directory found before it
/// whose type is that of a directory.
pub open spec fn led_to(
    found: Seq<Found>,
    m: int,
    blob: Window,
    slots: Seq<FetSlotRecord>,
    rom_size: RomSize,
    rom_origin: FlashOffset,
) -> bool {
    match found[m].provenance {
        DirectoryProvenance::FetSlot { index } => {
            &&& index < slots.len()
            &&& slots[index as int].slot matches FetSlot::Pointer(raw)
            &&& found[m].at == around(rom_origin.0 + rom_place(raw.0 as int, rom_size))
        },
        DirectoryProvenance::ComboEntry { combo_offset, index } => {
            let at = combo_offset.0 as int;
            let start = at + 0x20 + 0x10 * index;
            &&& exists|j: int| 0 <= j < m && (#[trigger] found[j]).at == at
            &&& combo_tagged(blob, at)
            &&& index < word(blob, at + 8)
            &&& found[m].at == around(rom_origin.0 + rom_place(word(blob, start + 8), rom_size))
        },
        DirectoryProvenance::L2Pointer { parent_offset, index } => {
            let at = parent_offset.0 as int;
            let start = record_start(blob, at, index as int);
            &&& exists|j: int| 0 <= j < m && (#[trigger] found[j]).at == at
            &&& psp_tagged(blob, at) || bios_tagged(blob, at)
            &&& index < word(blob, at + 8)
            &&& byte(blob, start) == 0x40 || byte(blob, start) == 0x49 || byte(blob, start) == 0x70
            &&& found[m].at == around(record_target(blob, at, start, rom_size, rom_origin))
        },
    }
}

proof fn lemma_record_leads(
    blob: Window,
    at: int,
    i: int,
    rom_size: RomSize,
    rom_origin: FlashOffset,
    link: Found,
)
    requires
        0 <= blob.offset,
        blob.offset + blob.bytes.len() <= u64::MAX,
        directory_at(blob, at),
        0 <= i < count_at(blob, at),
        record_link(blob, at, i, rom_size, rom_origin) == Some(link),
    ensures
        i < word(blob, at + 8),
        match link.provenance {
            DirectoryProvenance::FetSlot { index } => false,
            DirectoryProvenance::ComboEntry { combo_offset, index } => {
                &&& combo_offset.0 == at
                &&& index == i
                &&& combo_tagged(blob, at)
                &&& link.at == around(
                    rom_origin.0 + rom_place(word(blob, at + 0x20 + 0x10 * i + 8), rom_size),
                )
            },
            DirectoryProvenance::L2Pointer { parent_offset, index } => {
                let start = record_start(blob, at, i);
                &&& parent_offset.0 == at
                &&& index == i
                &&& psp_tagged(blob, at) || bios_tagged(blob, at)
                &&& byte(blob, start) == 0x40 || byte(blob, start) == 0x49 || byte(blob, start)
                    == 0x70
                &&& link.at == around(record_target(blob, at, start, rom_size, rom_origin))
            },
        },
{
    let family = choose|family: DirectoryFamily|
        #[trigger] directory_of_family_at(blob, at, family);
    lemma_tag_bytes(blob, at);
    lemma_word(blob, at, 16, 8);
    assert(i as usize == i);
    if family == DirectoryFamily::Combo {
        lemma_word(blob, at + 0x20 + 0x10 * i, 16, 8);
        lemma_rom_place(le32(record_at(blob, at, family, i).bytes, 8), rom_size);
    } else {
        lemma_record_target(blob, at, family, i, rom_size, rom_origin);
    }
}

/// A walk makes nothing up: each directory that it finds is one that a slot of
/// the entry table or a record of a directory found before points to.
pub proof fn lemma_walk_makes_nothing_up(
    blob: Window,
    slots: Seq<FetSlotRecord>,
    rom_size: RomSize,
    rom_origin: FlashOffset,
    m: int,
)
    requires
        0 <= blob.offset,
        blob.offset + blob.bytes.len() <= u64::MAX,
        slots.len() <= usize::MAX,
        0 <= m < reached(blob, slots, rom_size, rom_origin).len(),
    ensures
        led_to(reached(blob, slots, rom_size, rom_origin), m, blob, slots, rom_size, rom_origin),
        holds_directory(blob, reached(blob, slots, rom_size, rom_origin)[m].at),
        forall|j: int|
            0 <= j < m ==> (#[trigger] reached(blob, slots, rom_size, rom_origin)[j]).at
                != reached(blob, slots, rom_size, rom_origin)[m].at,
{
    let found = reached(blob, slots, rom_size, rom_origin);
    let links = fet_links(slots, slots.len() as int, rom_size, rom_origin);
    lemma_reached_once(blob, slots, rom_size, rom_origin);
    lemma_directory_is_held(blob, found[m].at);
    lemma_reached_is_justified(blob, slots, rom_size, rom_origin);
    assert(justified(found, m, blob, slots, rom_size, rom_origin));
    if links.contains(found[m]) {
        lemma_links_come_from_slots(slots, slots.len() as int, rom_size, rom_origin, found[m]);
        let i = choose|i: int|
            0 <= i < slots.len() && #[trigger] fet_link(slots, i, rom_size, rom_origin) == Some(
                found[m],
            );
        if let FetSlot::Pointer(a) = slots[i].slot {
            lemma_rom_place(a.0, rom_size);
        }
        assert(i as usize == i);
    } else {
        let j = choose|j: int|
            0 <= j < m && #[trigger] directory_links(
                blob,
                found[j].at,
                rom_size,
                rom_origin,
            ).contains(found[m]);
        let at = found[j].at;
        lemma_links_come_from_records(
            blob,
            at,
            count_at(blob, at),
            rom_size,
            rom_origin,
            found[m],
        );
        let i = choose|i: int|
            0 <= i < count_at(blob, at) && #[trigger] record_link(
                blob,
                at,
                i,
                rom_size,
                rom_origin,
            ) == Some(found[m]);
        assert(directory_at(blob, found[j].at));
        lemma_record_leads(blob, at, i, rom_size, rom_origin, found[m]);
        assert(found[j].at == at);
    }
}

/// Whether `bytes` are those of the input from offset `at` on.
pub open spec fn stands_at(blob: Window, at: int, bytes: Seq<u8>) -> bool {
    &&& blob.offset <= at
    &&& at + bytes.len() <= blob.offset + blob.bytes.len()
    &&& forall|j: int| 0 <= j < bytes.len() ==> #[trigger] bytes[j] as int == byte(blob, at + j)
}

proof fn lemma_record_of_directory(dir: Directory, blob: Window, at: int, i: int)
    requires
        dir.decodes(blob, at),
        0 <= i < entry_count(dir),
    ensures
        dir.shape() != DirectoryFamily::Combo,
        directory_of_family_at(blob, at, dir.shape()),
        i < count_at(blob, at),
        dir.window().offset == at,
        mode_in(dir) == directory_mode(le32(blob.at(at, 16).bytes, 12)),
        record_in(dir, i).window() == record_at(blob, at, dir.shape(), i),
        ({
            let record = record_at(blob, at, dir.shape(), i).bytes;
            &&& record_in(dir, i).kind().0 == record[0]
            &&& record_in(dir, i).body_size() == le32(record, 4)
            &&& record_in(dir, i).pointer() == Address(le32(record, 8))
            &&& record_in(dir, i).own_mode() == entry_mode(le32(record, 12))
        }),
{
}

proof fn lemma_stands(blob: Window, at: int, n: int)
    requires
        0 <= n,
        blob.offset <= at,
        at + n <= blob.offset + blob.bytes.len(),
    ensures
        blob.at(at, n).offset == at,
        blob.at(at, n).bytes.len() == n,
        stands_at(blob, at, blob.at(at, n).bytes),
{
}

proof fn lemma_body_window(
    dir: Directory,
    blob: Window,
    at: int,
    i: int,
    rom_size: RomSize,
    rom_origin: FlashOffset,
)
    requires
        0 <= blob.offset,
        blob.offset + blob.bytes.len() <= u64::MAX,
        dir.decodes(blob, at),
        0 <= i < entry_count(dir),
    ensures
        ({
            let start = record_start(blob, at, i);
            let len = if bios_tagged(blob, at) {
                0x18int
            } else {
                0x10int
            };
            let to = around(record_target(blob, at, start, rom_size, rom_origin));
            let size = word(blob, start + 4);
            let body = body_of(
                record_in(dir, i),
                mode_in(dir),
                context_in(dir, rom_size, rom_origin),
                blob,
            );
            &&& blob.offset <= start
            &&& start + len <= blob.offset + blob.bytes.len()
            &&& record_in(dir, i).kind().0 == byte(blob, start)
            &&& record_in(dir, i).window() == blob.at(start, len)
            &&& size >= 0
            &&& body == (if byte(blob, start) == 0x0B {
                Some(blob.at(start, len))
            } else if blob.offset <= to && to + size <= blob.offset + blob.bytes.len() {
                Some(blob.at(to, size))
            } else {
                None
            })
        }),
{
    let family = dir.shape();
    let start = record_start(blob, at, i);
    lemma_record_of_directory(dir, blob, at, i);
    lemma_tag_bytes(blob, at);
    lemma_record_target(blob, at, family, i, rom_size, rom_origin);
    let len = if family == DirectoryFamily::Psp {
        0x10int
    } else {
        0x18int
    };
    assert(record_at(blob, at, family, i) == blob.at(start, len));
    lemma_word(blob, start, len, 4);
}

/// The body of an entry is where its record points: as many bytes as the word at
/// the record's `0x04` counts, from there on. It can be had exactly when they all
/// lie in the input. Type `0x0B` alone has its own record for a body.
pub proof fn lemma_body_of_record(
    dir: Directory,
    blob: Window,
    at: int,
    i: int,
    rom_size: RomSize,
    rom_origin: FlashOffset,
    r: Result<Entry, ParseError>,
)
    requires
        0 <= blob.offset,
        blob.offset + blob.bytes.len() <= u64::MAX,
        dir.decodes(blob, at),
        0 <= i < entry_count(dir),
        parsed_as(dir, i, blob, rom_size, rom_origin, r),
    ensures
        ({
            let start = record_start(blob, at, i);
            let to = around(record_target(blob, at, start, rom_size, rom_origin));
            let size = word(blob, start + 4);
            if byte(blob, start) == 0x0B {
                &&& r matches Ok(entry)
                &&& entry.body@.offset == start
                &&& entry.body@.bytes.len() == (if bios_tagged(blob, at) {
                    0x18int
                } else {
                    0x10int
                })
                &&& stands_at(blob, start, entry.body@.bytes)
            } else {
                &&& r is Ok <==> blob.offset <= to && to + size <= blob.offset + blob.bytes.len()
                &&& r matches Ok(entry) ==> {
                    &&& entry.body@.offset == to
                    &&& entry.body@.bytes.len() == size
                    &&& stands_at(blob, to, entry.body@.bytes)
                }
            }
        }),
        r matches Ok(entry) ==> {
            let start = record_start(blob, at, i);
            &&& entry.record.kind().0 == byte(blob, start)
            &&& entry.record.window().offset == start
        },
{
    lemma_body_window(dir, blob, at, i, rom_size, rom_origin);
    let start = record_start(blob, at, i);
    let to = around(record_target(blob, at, start, rom_size, rom_origin));
    let size = word(blob, start + 4);
    if byte(blob, start) == 0x0B {
        if bios_tagged(blob, at) {
            lemma_stands(blob, start, 0x18);
        } else {
            lemma_stands(blob, start, 0x10);
        }
    } else if blob.offset <= to && to + size <= blob.offset + blob.bytes.len() {
        lemma_stands(blob, to, size);
    }
    if let Ok(entry) = r {
        assert(entry.record.same_as(record_in(dir, i)));
    }
}

/// The little-endian word of two bytes at index `at`.
pub open spec fn half(s: Seq<u8>, at: int) -> int {
    s[at] + 0x100 * s[at + 1]
}

/// The little-endian word of four bytes at index `at`.
pub open spec fn full(s: Seq<u8>, at: int) -> int {
    s[at] + 0x100 * s[at + 1] + 0x1_0000 * s[at + 2] + 0x100_0000 * s[at + 3]
}

/// The fields of a header in front of a body, by the bytes that hold them.
pub proof fn lemma_header_fields(h: HeaderEntry, body: Window)
    requires
        h.decodes(body),
    ensures
        ({
            let b = body.bytes;
            &&& b.len() >= 0x100
            &&& h.source@.offset == body.offset && h.source@.bytes.len() == 0x100
            &&& forall|j: int| 0 <= j < 4 ==> #[trigger] h.magic@[j] == b[0x10 + j]
            &&& h.size_signed == full(b, 0x14)
            &&& h.is_encrypted <==> full(b, 0x18) == 1
            &&& forall|j: int| 0 <= j < 16 ==> #[trigger] h.iv@[j] == b[0x20 + j]
            &&& h.signed_raw == full(b, 0x30)
            &&& h.signature_type == full(b, 0x34)
            &&& forall|j: int|
                0 <= j < 16 ==> #[trigger] h.signature_fingerprint@[j] == b[0x38 + j]
            &&& h.is_compressed <==> full(b, 0x48) == 1
            &&& h.size_uncompressed == full(b, 0x50)
            &&& h.zlib_size == full(b, 0x54)
            &&& h.bitfield == b[0x5B] + 0x100 * b[0x5A] + 0x1_0000 * b[0x59] + 0x100_0000 * b[0x58]
            &&& forall|j: int| 0 <= j < 4 ==> #[trigger] h.version@[j] == b[0x60 + j]
            &&& h.load_addr == full(b, 0x68)
            &&& h.rom_size == full(b, 0x6C)
            &&& forall|j: int| 0 <= j < 16 ==> #[trigger] h.wrapped_key@[j] == b[0x80 + j]
        }),
{
    let b = body.bytes;
    assert forall|j: int| 0 <= j < 4 implies #[trigger] h.magic@[j] == b[0x10 + j] by {
        assert(h.magic@[j] == b.subrange(0x10, 0x14)[j]);
    }
    assert forall|j: int| 0 <= j < 4 implies #[trigger] h.version@[j] == b[0x60 + j] by {
        assert(h.version@[j] == b.subrange(0x60, 0x64)[j]);
    }
    assert forall|j: int| 0 <= j < 16 implies #[trigger] h.iv@[j] == b[0x20 + j] by {
        assert(h.iv@[j] == b.subrange(0x20, 0x30)[j]);
    }
    assert forall|j: int|
        0 <= j < 16 implies #[trigger] h.signature_fingerprint@[j] == b[0x38 + j] by {
        assert(h.signature_fingerprint@[j] == b.subrange(0x38, 0x48)[j]);
    }
    assert forall|j: int| 0 <= j < 16 implies #[trigger] h.wrapped_key@[j] == b[0x80 + j] by {
        assert(h.wrapped_key@[j] == b.subrange(0x80, 0x90)[j]);
    }
}

/// The fields of a public key, by the bytes that hold them.
pub proof fn lemma_key_fields(p: PubkeyEntry, body: Window)
    requires
        p.decodes(body),
    ensures
        ({
            let b = body.bytes;
            &&& p.source@ == body
            &&& p.version == full(b, 0)
            &&& forall|j: int| 0 <= j < 16 ==> #[trigger] p.key_id@[j] == b[0x04 + j]
            &&& forall|j: int| 0 <= j < 16 ==> #[trigger] p.certifying_id@[j] == b[0x14 + j]
            &&& p.key_usage == full(b, 0x24)
            &&& p.security_features == half(b, 0x2A)
            &&& p.pubexp_bits == full(b, 0x38)
            &&& p.modulus_bits == full(b, 0x3C)
        }),
{
    let b = body.bytes;
    assert forall|j: int| 0 <= j < 16 implies #[trigger] p.key_id@[j] == b[0x04 + j] by {
        assert(p.key_id@[j] == b.subrange(0x04, 0x14)[j]);
    }
    assert forall|j: int| 0 <= j < 16 implies #[trigger] p.certifying_id@[j] == b[0x14 + j] by {
        assert(p.certifying_id@[j] == b.subrange(0x14, 0x24)[j]);
    }
}

/// The fields of the records of the three kinds of directories and of their
/// headers, by the bytes that hold them.
pub proof fn lemma_record_fields(
    h: DirectoryHeader,
    hw: Window,
    p: PspEntry,
    pw: Window,
    b: BiosEntry,
    bw: Window,
    c: ComboEntry,
    cw: Window,
)
    ensures
        h.decodes(hw) && hw.bytes.len() == 0x10 ==> {
            &&& forall|j: int| 0 <= j < 4 ==> #[trigger] h.magic.0@[j] == hw.bytes[j]
            &&& h.fletcher == full(hw.bytes, 4)
            &&& h.count == full(hw.bytes, 8)
            &&& h.additional_info == full(hw.bytes, 12)
        },
        p.decodes(pw) ==> {
            &&& p.entry_type.0 == pw.bytes[0]
            &&& p.subprogram == pw.bytes[1]
            &&& p.flags == half(pw.bytes, 2)
            &&& p.size == full(pw.bytes, 4)
            &&& p.offset.0 == full(pw.bytes, 8)
            &&& p.rsv0 == full(pw.bytes, 12)
        },
        b.decodes(bw) ==> {
            &&& b.entry_type.0 == bw.bytes[0]
            &&& b.region_type == bw.bytes[1]
            &&& b.flags == half(bw.bytes, 2)
            &&& b.size == full(bw.bytes, 4)
            &&& b.offset.0 == full(bw.bytes, 8)
            &&& b.rsv0 == full(bw.bytes, 12)
            &&& b.destination == full(bw.bytes, 16) + 0x1_0000_0000 * full(bw.bytes, 20)
        },
        c.decodes(cw) ==> {
            &&& c.entry_flags == full(cw.bytes, 0)
            &&& c.psp_generation.0 == full(cw.bytes, 4)
            &&& c.pointer.0 == full(cw.bytes, 8)
            &&& c.reserved == full(cw.bytes, 12)
        },
{
    if h.decodes(hw) && hw.bytes.len() == 0x10 {
        assert forall|j: int| 0 <= j < 4 implies #[trigger] h.magic.0@[j] == hw.bytes[j] by {
            assert(h.magic.0@[j] == hw.bytes.subrange(0, 4)[j]);
        }
    }
}

/// What a body is follows from its type: types `0x40`, `0x49` and `0x70` are
/// directories, `0x48` and `0x4A` lead to one, `0x0B` is a chain of soft fuses.
/// Eleven types are public keys and two are stores of keys. Of the others, those
/// of a list have no header, and `0x66` is microcode in a BIOS directory; all the
/// rest have one. A body that is too short for what it should be is plain.
pub proof fn lemma_class_follows_type(class: EntryClass, t: u8, is_bios: bool, body: Window)
    requires
        class.describes(EntryType(t), is_bios, body),
    ensures
        ({
            let len = body.bytes.len();
            let nested = t == 0x40 || t == 0x49 || t == 0x70;
            let key = t == 0x00 || t == 0x05 || t == 0x09 || t == 0x0A || t == 0x0D || t == 0x43
                || t == 0x4E || t == 0x53 || t == 0x81 || t == 0x97 || t == 0xAD;
            let store = t == 0x50 || t == 0x51;
            let bare = t == 0x04 || t == 0x06 || t == 0x07 || t == 0x1A || t == 0x21 || t == 0x22
                || t == 0x38 || t == 0x46 || t == 0x54 || (0x5F <= t && t <= 0x63) || (0x66 <= t
                && t <= 0x69) || t == 0x6D || t == 0x7C || t == 0x82 || t == 0x84 || t == 0x8D
                || t == 0x98;
            let other = !nested && t != 0x48 && t != 0x4A && t != 0x0B && !key && !store;
            &&& class is SecondaryDirectoryPointer <==> nested
            &&& class is TertiaryDirectoryPointer <==> t == 0x48 || t == 0x4A
            &&& class is SoftFuseChain <==> t == 0x0B
            &&& class is Pubkey <==> key && len >= 0x40
            &&& class is KeyStore <==> store && len >= 0x100
            &&& class is Microcode <==> is_bios && t == 0x66
            &&& class is Header <==> other && !bare && len >= 0x100
            &&& class matches EntryClass::Pubkey(p) ==> p.decodes(body)
            &&& class matches EntryClass::Header(h) ==> h.decodes(body)
            &&& class matches EntryClass::KeyStore(h) ==> h.decodes(body)
        }),
{
}

/// Whether the tag of an entry table stands at index `i`, in either byte order.
pub open spec fn table_tagged(b: Seq<u8>, i: int) -> bool {
    ||| b[i] == 0x55 && b[i + 1] == 0xAA && b[i + 2] == 0x55 && b[i + 3] == 0xAA
    ||| b[i] == 0xAA && b[i + 1] == 0x55 && b[i + 2] == 0xAA && b[i + 3] == 0x55
}

proof fn lemma_table_tag(tag: Seq<u8>, b: Seq<u8>, i: int)
    requires
        0 <= i,
        i + 4 <= b.len(),
        tag == b.subrange(i, i + 4),
    ensures
        is_fet_tag(tag) <==> table_tagged(b, i),
{
    let x: [u8; 4] = FET_MAGIC;
    let y: [u8; 4] = FET_MAGIC_SWAPPED;
    assert(x@ =~= seq![0x55u8, 0xAA, 0x55, 0xAA]);
    assert(y@ =~= seq![0xAAu8, 0x55, 0xAA, 0x55]);
    assert(tag[0] == b[i] && tag[1] == b[i + 1] && tag[2] == b[i + 2] && tag[3] == b[i + 3]);
    if table_tagged(b, i) {
        assert(tag =~= x@ || tag =~= y@);
    }
}

/// A scan gives every index at which the tag of an entry table stands behind four
/// zero bytes or four bytes of `0xFF`, and no other; indices ascend.
pub proof fn lemma_scanned_places(b: Seq<u8>)
    ensures
        forall|i: int| #[trigger]
            candidates(b, b.len() as int).contains(i) <==> {
                &&& 4 <= i
                &&& i + 4 <= b.len()
                &&& table_tagged(b, i)
                &&& {
                    ||| b[i - 4] == 0 && b[i - 3] == 0 && b[i - 2] == 0 && b[i - 1] == 0
                    ||| b[i - 4] == 0xFF && b[i - 3] == 0xFF && b[i - 2] == 0xFF && b[i - 1] == 0xFF
                }
            },
        forall|j: int, k: int|
            0 <= j < k < candidates(b, b.len() as int).len() ==> #[trigger] candidates(
                b,
                b.len() as int,
            )[j] < #[trigger] candidates(b, b.len() as int)[k],
{
    lemma_candidates(b, b.len() as int);
    assert forall|i: int| #[trigger] candidates(b, b.len() as int).contains(i) <==> {
        &&& 4 <= i
        &&& i + 4 <= b.len()
        &&& table_tagged(b, i)
        &&& {
            ||| b[i - 4] == 0 && b[i - 3] == 0 && b[i - 2] == 0 && b[i - 1] == 0
            ||| b[i - 4] == 0xFF && b[i - 3] == 0xFF && b[i - 2] == 0xFF && b[i - 1] == 0xFF
        }
    } by {
        if 4 <= i && i + 4 <= b.len() {
            lemma_table_tag(b.subrange(i, i + 4), b, i);
        }
        assert(candidates(b, b.len() as int).contains(i) <==> i < b.len() && candidate(b, i));
    }
}

/// Whether sixteen bytes of `0xFF` stand at input offset `at`.
pub open spec fn all_ones(blob: Window, at: int) -> bool {
    &&& blob.offset <= at
    &&& at + 16 <= blob.offset + blob.bytes.len()
    &&& forall|j: int| 0 <= j < 16 ==> #[trigger] byte(blob, at + j) == 0xFF
}

proof fn lemma_all_ones(blob: Window, at: int, n: int)
    ensures
        blob.offset <= at && 0 <= n ==> (terminated_after(blob, at, n) <==> all_ones(
            blob,
            at + 4 + 4 * n,
        )),
{
    if blob.offset <= at && 0 <= n {
        let i = at - blob.offset + 4 + 4 * n;
        if terminated_after(blob, at, n) {
            assert forall|j: int| 0 <= j < 16 implies #[trigger] byte(blob, at + 4 + 4 * n + j)
                == 0xFF by {
                assert(blob.bytes[i + j] == 0xFF);
            }
        }
        if all_ones(blob, at + 4 + 4 * n) {
            assert forall|j: int| i <= j < i + 16 implies #[trigger] blob.bytes[j] == 0xFF by {
                assert(byte(blob, at + 4 + 4 * n + (j - i)) == 0xFF);
            }
        }
    }
}

/// The slots of an entry table are the words behind its tag, up to the first
/// sixteen bytes of `0xFF`. A word is a pointer unless it is zero or one of the
/// two highest.
pub proof fn lemma_table_slots(fet: Fet, blob: Window, at: int)
    requires
        fet.decodes(blob, at),
    ensures
        blob.offset <= at,
        table_tagged(blob.bytes, at - blob.offset),
        all_ones(blob, at + 4 + 4 * fet.slots@.len()),
        forall|k: int| 0 <= k < fet.slots@.len() ==> !#[trigger] all_ones(blob, at + 4 + 4 * k),
        forall|k: int|
            0 <= k < fet.slots@.len() ==> {
                let raw = word(blob, at + 4 + 4 * k);
                &&& (#[trigger] fet.slots@[k]).slot.raw().0 == raw
                &&& fet.slots@[k].slot is Pointer <==> raw != 0 && raw != 0xFFFF_FFFF && raw
                    != 0xFFFF_FFFE
                &&& fet.slots@[k].source@.offset == at + 4 + 4 * k
            },
{
    lemma_table_tag(blob.at(at, 4).bytes, blob.bytes, at - blob.offset);
    lemma_all_ones(blob, at, fet.slots@.len() as int);
    assert forall|k: int| 0 <= k < fet.slots@.len() implies !#[trigger] all_ones(
        blob,
        at + 4 + 4 * k,
    ) by {
        lemma_all_ones(blob, at, k);
        assert(!terminated_after(blob, at, k));
    }
    assert forall|k: int| 0 <= k < fet.slots@.len() implies {
        let raw = word(blob, at + 4 + 4 * k);
        &&& (#[trigger] fet.slots@[k]).slot.raw().0 == raw
        &&& fet.slots@[k].slot is Pointer <==> raw != 0 && raw != 0xFFFF_FFFF && raw != 0xFFFF_FFFE
        &&& fet.slots@[k].source@.offset == at + 4 + 4 * k
    } by {
        assert(fet.slots@[k].decodes(blob, at, k));
        assert(le32(blob.bytes, at - blob.offset + 4 + 4 * k) == word(blob, at + 4 + 4 * k));
    }
}

/// The largest of 8, 16 and 32 MiB that an input of `len` bytes has room for.
pub open spec fn size_for(len: int) -> Option<RomSize> {
    if len < 0x80_0000 {
        None
    } else if len < 0x100_0000 {
        Some(RomSize::MIB_8)
    } else if len < 0x200_0000 {
        Some(RomSize::MIB_16)
    } else {
        Some(RomSize::MIB_32)
    }
}

/// Whether a ROM whose table at `at` stands `back` bytes from its start lies in
/// the input. Where the table stands 16 MiB or more from the start of the input,
/// 16 MiB of a larger ROM are enough.
pub open spec fn rom_fits(blob: Window, at: int, size: RomSize, back: int) -> bool {
    let span = match size {
        RomSize::MIB_8 => 0x80_0000int,
        RomSize::MIB_16 => 0x100_0000int,
        RomSize::MIB_32 => if at - blob.offset >= 0x100_0000 {
            0x100_0000int
        } else {
            0x200_0000int
        },
    };
    blob.offset <= at - back && at - back + span <= blob.offset + blob.bytes.len()
}

/// How far behind the start of its ROM a table at `at` stands: the first of seven
/// distances with which the ROM lies in the input.
pub open spec fn table_distance(blob: Window, at: int, size: RomSize) -> Option<int> {
    if rom_fits(blob, at, size, 0x02_0000) {
        Some(0x02_0000)
    } else if rom_fits(blob, at, size, 0xFA_0000) {
        Some(0xFA_0000)
    } else if rom_fits(blob, at, size, 0xF2_0000) {
        Some(0xF2_0000)
    } else if rom_fits(blob, at, size, 0xE2_0000) {
        Some(0xE2_0000)
    } else if rom_fits(blob, at, size, 0xC2_0000) {
        Some(0xC2_0000)
    } else if rom_fits(blob, at, size, 0x82_0000) {
        Some(0x82_0000)
    } else if rom_fits(blob, at, size, 0x12_0000) {
        Some(0x12_0000)
    } else {
        None
    }
}

proof fn lemma_known_distances(blob: Window, at: int, size: RomSize)
    ensures
        layout_fits(blob, at, size, 0) <==> rom_fits(blob, at, size, 0x02_0000),
        layout_fits(blob, at, size, 1) <==> rom_fits(blob, at, size, 0xFA_0000),
        layout_fits(blob, at, size, 2) <==> rom_fits(blob, at, size, 0xF2_0000),
        layout_fits(blob, at, size, 3) <==> rom_fits(blob, at, size, 0xE2_0000),
        layout_fits(blob, at, size, 4) <==> rom_fits(blob, at, size, 0xC2_0000),
        layout_fits(blob, at, size, 5) <==> rom_fits(blob, at, size, 0x82_0000),
        layout_fits(blob, at, size, 6) <==> rom_fits(blob, at, size, 0x12_0000),
        KNOWN_FET_OFFSETS@ == seq![
            0x02_0000u64,
            0xFA_0000,
            0xF2_0000,
            0xE2_0000,
            0xC2_0000,
            0x82_0000,
            0x12_0000,
        ],
{
    let known: [u64; 7] = KNOWN_FET_OFFSETS;
    assert(known@ =~= seq![
        0x02_0000u64,
        0xFA_0000,
        0xF2_0000,
        0xE2_0000,
        0xC2_0000,
        0x82_0000,
        0x12_0000,
    ]);
}

/// A ROM is laid out around its table: it has the largest size that the input has
/// room for, and starts the first known distance in front of the table with which
/// it lies in the input. Without such a distance there is no ROM.
pub proof fn lemma_rom_around_table(blob: Window, at: int, layout: RomLayout)
    ensures
        has_layout(blob, at) <==> {
            &&& fet_at(blob, at)
            &&& size_for(blob.bytes.len() as int) matches Some(size)
            &&& table_distance(blob, at, size) is Some
        },
        layout.describes(blob, at) ==> {
            &&& size_for(blob.bytes.len() as int) == Some(layout.rom_size)
            &&& table_distance(blob, at, layout.rom_size) == Some(at - layout.rom_origin.0)
            &&& layout.fet.decodes(blob, at)
        },
{
    if let Some(size) = size_for(blob.bytes.len() as int) {
        lemma_known_distances(blob, at, size);
        if has_layout(blob, at) {
            let k = choose|k: int| #[trigger] layout_fits(blob, at, size, k);
            assert(0 <= k < 7);
        }
    }
    if layout.describes(blob, at) {
        let k = choose|k: int|
            {
                &&& #[trigger] layout_fits(blob, at, layout.rom_size, k)
                &&& layout.rom_origin.0 == at - KNOWN_FET_OFFSETS@[k]
                &&& forall|m: int|
                    0 <= m < k ==> !#[trigger] layout_fits(blob, at, layout.rom_size, m)
            };
        assert(0 <= k < 7);
        lemma_known_distances(blob, at, layout.rom_size);
    }
}

proof fn lemma_replaced_bytes(
    blob: Window,
    entry: Entry,
    start: int,
    to: int,
    size: int,
    after: Edits,
    outcome: Result<(), ReplaceError>,
    body: Seq<u8>,
    image: Seq<u8>,
)
    requires
        body_replaced(unedited(blob), after, entry, body, outcome),
        outcome is Ok,
        after.renders(image),
        entry.record.window().offset == start,
        entry.record.window().bytes.len() >= 8,
        entry.body@.offset == to,
        entry.body@.bytes.len() == size,
        size <= u32::MAX,
    ensures
        !(entry.class is SoftFuseChain),
        body.len() <= size,
        image.len() == blob.bytes.len(),
        body.len() > 0 ==> image.subrange(to - blob.offset, to - blob.offset + body.len()) == body,
        body.len() != size ==> blob.covers(start + 4, 4) && word(
            Window { bytes: image, offset: blob.offset },
            start + 4,
        ) == body.len(),
        forall|i: int|
            0 <= i < image.len() && !(to <= blob.offset + i < to + body.len()) && !(body.len()
                != size && start + 4 <= blob.offset + i < start + 8) ==> #[trigger] image[i]
                == blob.bytes[i],
{
    let before = unedited(blob);
    assert(before.renders(blob.bytes));
    lemma_replacing_is_local(before, after, entry, body, outcome, blob.bytes, image);
    assert forall|i: int|
        0 <= i < image.len() && !(to <= blob.offset + i < to + body.len()) && !(body.len() != size
            && start + 4 <= blob.offset + i < start + 8) implies #[trigger] image[i]
        == blob.bytes[i] by {
        assert(!may_change(entry, body.len(), blob.offset + i));
    }
    if body.len() != size {
        let w = Window { bytes: image, offset: blob.offset };
        assert(le32(image, start + 4 - blob.offset) == word(w, start + 4));
    }
}

/// What an image with a replaced body is: as long as the input, the new body where
/// the record points, its length in the record where it is shorter than the old
/// one, and every other byte as it was. A longer body is refused, and so is any
/// for type `0x0B`.
pub proof fn lemma_replaced_image(
    blob: Window,
    dir: Directory,
    at: int,
    file: usize,
    rom_size: RomSize,
    rom_origin: FlashOffset,
    body: Seq<u8>,
    image: Vec<u8>,
)
    requires
        0 <= blob.offset,
        blob.offset + blob.bytes.len() <= u64::MAX,
        dir.decodes(blob, at),
        replaced_in(
            blob,
            dir,
            file,
            rom_size,
            rom_origin,
            body,
            Ok::<Vec<u8>, EditError>(image),
        ),
    ensures
        ({
            let start = record_start(blob, at, file as int);
            let to = around(record_target(blob, at, start, rom_size, rom_origin));
            let size = word(blob, start + 4);
            let local = to - blob.offset;
            &&& file < entry_count(dir)
            &&& byte(blob, start) != 0x0B
            &&& body.len() <= size
            &&& image@.len() == blob.bytes.len()
            &&& body.len() > 0 ==> image@.subrange(local, local + body.len()) == body
            &&& body.len() != size ==> word(
                Window { bytes: image@, offset: blob.offset },
                start + 4,
            ) == body.len()
            &&& forall|i: int|
                0 <= i < image@.len() && !(to <= blob.offset + i < to + body.len()) && !(body.len()
                    != size && start + 4 <= blob.offset + i < start + 8) ==> #[trigger] image@[i]
                    == blob.bytes[i]
        }),
{
    let record = record_in(dir, file as int);
    let mode = mode_in(dir);
    let ctx = context_in(dir, rom_size, rom_origin);
    let start = record_start(blob, at, file as int);
    let to = around(record_target(blob, at, start, rom_size, rom_origin));
    let size = word(blob, start + 4);
    let (after, outcome) = choose|after: Edits, outcome: Result<(), ReplaceError>|
        {
            &&& #[trigger] record_replaced(
                unedited(blob),
                after,
                record,
                mode,
                ctx,
                body,
                outcome,
            )
            &&& match outcome {
                Ok(_) => after.renders(image@),
                Err(e) => false,
            }
        };
    lemma_body_window(dir, blob, at, file as int, rom_size, rom_origin);
    let entry = choose|entry: Entry|
        #![trigger body_replaced(unedited(blob), after, entry, body, outcome)]
        entry.resolves(record, mode, ctx, blob) && body_replaced(
            unedited(blob),
            after,
            entry,
            body,
            outcome,
        );
    assert(entry.record.same_as(record));
    if byte(blob, start) == 0x0B {
        assert(entry.class is SoftFuseChain);
    } else {
        lemma_stands(blob, to, size);
        lemma_replaced_bytes(blob, entry, start, to, size, after, outcome, body, image@);
    }
}

proof fn lemma_rom_tables(blob: Window, found: Seq<int>, n: int)
    requires
        0 <= n <= found.len(),
        forall|j: int, k: int| 0 <= j < k < found.len() ==> found[j] < found[k],
    ensures
        forall|i: int| #[trigger]
            rom_tables(blob, found, n).contains(i) <==> exists|k: int|
                0 <= k < n && #[trigger] found[k] == i && has_layout(blob, blob.offset + i),
        forall|j: int, k: int|
            0 <= j < k < rom_tables(blob, found, n).len() ==> #[trigger] rom_tables(
                blob,
                found,
                n,
            )[j] < #[trigger] rom_tables(blob, found, n)[k],
    decreases n,
{
    if n > 0 {
        lemma_rom_tables(blob, found, n - 1);
        let before = rom_tables(blob, found, n - 1);
        let all = rom_tables(blob, found, n);
        assert forall|i: int| #[trigger] all.contains(i) <==> exists|k: int|
            0 <= k < n && #[trigger] found[k] == i && has_layout(blob, blob.offset + i) by {
            if all.contains(i) {
                let m = choose|m: int| 0 <= m < all.len() && all[m] == i;
                if m < before.len() {
                    assert(before[m] == i);
                    assert(before.contains(i));
                } else {
                    assert(found[n - 1] == i);
                }
            }
            if exists|k: int|
                0 <= k < n && #[trigger] found[k] == i && has_layout(blob, blob.offset + i) {
                let k = choose|k: int|
                    0 <= k < n && #[trigger] found[k] == i && has_layout(blob, blob.offset + i);
                if k < n - 1 {
                    assert(before.contains(i));
                    let m = choose|m: int| 0 <= m < before.len() && before[m] == i;
                    assert(all[m] == i);
                } else {
                    assert(all[before.len() as int] == i);
                }
            }
        }
        assert forall|j: int, k: int| 0 <= j < k < all.len() implies #[trigger] all[j]
            < #[trigger] all[k] by {
            if k < before.len() {
                assert(all[j] == before[j] && all[k] == before[k]);
            } else {
                assert(before.contains(before[j]));
                let m = choose|m: int|
                    0 <= m < n - 1 && #[trigger] found[m] == before[j] && has_layout(
                        blob,
                        blob.offset + before[j],
                    );
                assert(found[m] < found[n - 1]);
            }
        }
    }
}

/// The ROMs of an input, by the indices of their tables: every place at which a
/// scan sees a table and around which a ROM lies in the input, in ascending order.
pub proof fn lemma_roms_of_input(blob: Window)
    ensures
        forall|i: int| #[trigger]
            roms(blob).contains(i) <==> candidates(blob.bytes, blob.bytes.len() as int).contains(i)
                && fet_at(blob, blob.offset + i) && size_for(blob.bytes.len() as int) is Some
                && table_distance(
                blob,
                blob.offset + i,
                size_for(blob.bytes.len() as int)->Some_0,
            ) is Some,
        forall|j: int, k: int|
            0 <= j < k < roms(blob).len() ==> #[trigger] roms(blob)[j] < #[trigger] roms(blob)[k],
{
    let found = candidates(blob.bytes, blob.bytes.len() as int);
    lemma_scanned_places(blob.bytes);
    lemma_rom_tables(blob, found, found.len() as int);
    assert forall|i: int| #[trigger] roms(blob).contains(i) <==> found.contains(i) && fet_at(
        blob,
        blob.offset + i,
    ) && size_for(blob.bytes.len() as int) is Some && table_distance(
        blob,
        blob.offset + i,
        size_for(blob.bytes.len() as int)->Some_0,
    ) is Some by {
        lemma_rom_around_table(blob, blob.offset + i, arbitrary());
        assert(roms(blob).contains(i) <==> exists|k: int|
            0 <= k < found.len() && #[trigger] found[k] == i && has_layout(blob, blob.offset + i));
        if found.contains(i) && has_layout(blob, blob.offset + i) {
            let k = choose|k: int| 0 <= k < found.len() && found[k] == i;
            assert(found[k] == i);
        }
    }
}

/// Where record `i` of the directory at input offset `at` leads when it leads to a
/// directory: every record of a combo directory does, and of other directories
/// those of three types.
pub open spec fn leads_to(
    blob: Window,
    at: int,
    i: int,
    rom_size: RomSize,
    rom_origin: FlashOffset,
    to: int,
) -> bool {
    let start = record_start(blob, at, i);
    if combo_tagged(blob, at) {
        to == around(rom_origin.0 + rom_place(word(blob, start + 8), rom_size))
    } else {
        &&& byte(blob, start) == 0x40 || byte(blob, start) == 0x49 || byte(blob, start) == 0x70
        &&& to == around(record_target(blob, at, start, rom_size, rom_origin))
    }
}

proof fn lemma_secondary_at(
    dir: Directory,
    blob: Window,
    at: int,
    i: int,
    rom_size: RomSize,
    rom_origin: FlashOffset,
    to: u64,
)
    requires
        0 <= blob.offset,
        blob.offset + blob.bytes.len() <= u64::MAX,
        dir.decodes(blob, at),
        0 <= i < record_count(dir),
    ensures
        secondary_at(dir, i, rom_size, rom_origin) == Some(to) <==> leads_to(
            blob,
            at,
            i,
            rom_size,
            rom_origin,
            to as int,
        ),
        record_count(dir) == word(blob, at + 8),
{
    lemma_tag_bytes(blob, at);
    lemma_word(blob, at, 16, 8);
    if let Directory::Combo(c) = dir {
        assert(c.entries@[i].decodes(record_at(blob, at, DirectoryFamily::Combo, i)));
        lemma_word(blob, at + 0x20 + 0x10 * i, 16, 8);
        lemma_rom_place(c.entries@[i].pointer.0, rom_size);
    } else {
        lemma_record_of_directory(dir, blob, at, i);
        lemma_record_target(blob, at, dir.shape(), i, rom_size, rom_origin);
    }
}

proof fn lemma_secondary_of(
    dir: Directory,
    blob: Window,
    at: int,
    n: int,
    rom_size: RomSize,
    rom_origin: FlashOffset,
    to: u64,
)
    requires
        0 <= blob.offset,
        blob.offset + blob.bytes.len() <= u64::MAX,
        dir.decodes(blob, at),
        0 <= n <= record_count(dir),
    ensures
        secondary_of(dir, n, rom_size, rom_origin).contains(to) <==> exists|i: int|
            0 <= i < n && #[trigger] leads_to(blob, at, i, rom_size, rom_origin, to as int),
    decreases n,
{
    if n > 0 {
        lemma_secondary_of(dir, blob, at, n - 1, rom_size, rom_origin, to);
        lemma_secondary_at(dir, blob, at, n - 1, rom_size, rom_origin, to);
        let before = secondary_of(dir, n - 1, rom_size, rom_origin);
        let all = secondary_of(dir, n, rom_size, rom_origin);
        if before.contains(to) {
            let m = choose|m: int| 0 <= m < before.len() && before[m] == to;
            assert(all[m] == to);
        }
        if all.contains(to) {
            let m = choose|m: int| 0 <= m < all.len() && all[m] == to;
            if m < before.len() {
                assert(before[m] == to);
                assert(before.contains(to));
            }
        }
        if leads_to(blob, at, n - 1, rom_size, rom_origin, to as int) {
            assert(all[before.len() as int] == to);
        }
    }
}

/// The places that a directory is listed to lead to are those that its records
/// lead to, and no others.
pub proof fn lemma_listed_places(
    dir: Directory,
    blob: Window,
    at: int,
    rom_size: RomSize,
    rom_origin: FlashOffset,
)
    requires
        0 <= blob.offset,
        blob.offset + blob.bytes.len() <= u64::MAX,
        dir.decodes(blob, at),
    ensures
        forall|to: u64| #[trigger]
            secondaries(dir, rom_size, rom_origin).contains(to) <==> exists|i: int|
                0 <= i < word(blob, at + 8) && #[trigger] leads_to(
                    blob,
                    at,
                    i,
                    rom_size,
                    rom_origin,
                    to as int,
                ),
{
    lemma_word(blob, at, 16, 8);
    assert(record_count(dir) == count_at(blob, at));
    assert forall|to: u64| #[trigger]
        secondaries(dir, rom_size, rom_origin).contains(to) <==> exists|i: int|
            0 <= i < word(blob, at + 8) && #[trigger] leads_to(
                blob,
                at,
                i,
                rom_size,
                rom_origin,
                to as int,
            ) by {
        lemma_secondary_of(dir, blob, at, record_count(dir), rom_size, rom_origin, to);
    }
}

/// A replacement that fits succeeds: a body that is not longer than the old one,
/// in an unedited input, unless it is shorter and the new body and the size field
/// of the record share a byte.
pub proof fn lemma_fitting_body_is_taken(
    blob: Window,
    dir: Directory,
    at: int,
    file: usize,
    rom_size: RomSize,
    rom_origin: FlashOffset,
    body: Seq<u8>,
    r: Result<Vec<u8>, EditError>,
)
    requires
        0 <= blob.offset,
        blob.offset + blob.bytes.len() <= u64::MAX,
        dir.decodes(blob, at),
        file < entry_count(dir),
        replaced_in(blob, dir, file, rom_size, rom_origin, body, r),
        ({
            let start = record_start(blob, at, file as int);
            let to = around(record_target(blob, at, start, rom_size, rom_origin));
            let size = word(blob, start + 4);
            &&& byte(blob, start) != 0x0B
            &&& blob.offset <= to
            &&& to + size <= blob.offset + blob.bytes.len()
            &&& body.len() <= size
            &&& body.len() == size || to + body.len() <= start + 4 || start + 8 <= to
        }),
    ensures
        r is Ok,
{
    let record = record_in(dir, file as int);
    let mode = mode_in(dir);
    let ctx = context_in(dir, rom_size, rom_origin);
    let start = record_start(blob, at, file as int);
    let to = around(record_target(blob, at, start, rom_size, rom_origin));
    let size = word(blob, start + 4);
    lemma_body_window(dir, blob, at, file as int, rom_size, rom_origin);
    let (after, outcome) = choose|after: Edits, outcome: Result<(), ReplaceError>|
        {
            &&& #[trigger] record_replaced(
                unedited(blob),
                after,
                record,
                mode,
                ctx,
                body,
                outcome,
            )
            &&& match outcome {
                Ok(_) => r matches Ok(image) && after.renders(image@),
                Err(e) => r == Err::<Vec<u8>, EditError>(EditError::Replace(e)),
            }
        };
    let entry = choose|entry: Entry|
        #![trigger body_replaced(unedited(blob), after, entry, body, outcome)]
        entry.resolves(record, mode, ctx, blob) && body_replaced(
            unedited(blob),
            after,
            entry,
            body,
            outcome,
        );
    assert(entry.record.same_as(record));
    lemma_stands(blob, to, size);
    lemma_class_follows_type(
        entry.class,
        record.kind().0,
        record is Bios,
        entry.body@,
    );
    lemma_no_refusal(blob, entry, start, to, size, after, outcome, body);
}

proof fn lemma_no_refusal(
    blob: Window,
    entry: Entry,
    start: int,
    to: int,
    size: int,
    after: Edits,
    outcome: Result<(), ReplaceError>,
    body: Seq<u8>,
)
    requires
        body_replaced(unedited(blob), after, entry, body, outcome),
        !(entry.class is SoftFuseChain),
        entry.record.window().offset == start,
        blob.offset <= start,
        start + 8 <= blob.offset + blob.bytes.len(),
        entry.body@.offset == to,
        entry.body@.bytes.len() == size,
        size <= u32::MAX,
        body.len() <= size,
        blob.offset <= to,
        to + size <= blob.offset + blob.bytes.len(),
        body.len() == size || to + body.len() <= start + 4 || start + 8 <= to,
    ensures
        outcome is Ok,
{
    let before = unedited(blob);
    if body.len() != size {
        let bytes = le32_bytes(body.len() as u32);
        assert forall|middle: Edits| #[trigger]
            patched(before, middle, size_field(entry), bytes, Ok(())) implies !middle.obstructed(
            to,
            to + body.len(),
        ) by {
            let patch = Patch { at: size_field(entry), bytes };
            let k = choose|k: int|
                0 <= k <= before.patches.len() && middle.patches == #[trigger] before.patches.insert(
                    k,
                    patch,
                ) && middle.ordered();
            assert(middle.patches =~= seq![patch]);
        }
    }
}

} // verus!
