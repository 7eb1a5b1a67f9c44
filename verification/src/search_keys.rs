//! Public keys in an image: those that entries hold, and those that are found
//! by their shape.

use vstd::prelude::*;

use crate::address::{FlashOffset, RomSize};
use crate::entry::{EntryClass, PubkeyEntry};
use crate::fet::Fet;
use crate::inventory::{complete, parse_all, Item};
use crate::source::{SourceBytes, Window};
use crate::text::{
    dec, group_text, hex_bytes, prefixed_hex_padded, push_dec, push_hex_bytes,
    push_prefixed_hex_padded,
};
use crate::verify::{key_in, KeyId};
use crate::walk::{all_decode, places, reached, walk_directories, DirectoryRef};
use crate::wire::{le32, read_array16, read_le32};

verus! {

/// The place of an entry.
#[derive(Copy, Clone, Debug, PartialEq, Eq, Structural)]
pub struct EntryRef {
    /// Index of the directory, in the order of the walk.
    pub directory_index: usize,
    /// Index of the entry in its directory.
    pub entry_index: usize,
}

/// How a key was found.
#[derive(Copy, Clone, Debug, PartialEq, Eq, Structural)]
pub enum KeyHitLocation {
    /// An entry holds it.
    Structured(EntryRef),
    /// Some bytes have the shape of a key.
    Heuristic,
}

/// A public key that was found.
#[derive(Copy, Clone, Debug, PartialEq, Eq)]
pub struct KeyHit {
    /// Input offset of the first byte.
    pub offset: FlashOffset,
    pub key_id: KeyId,
    /// Length of the modulus in bytes.
    pub modulus_size: u32,
    pub location: KeyHitLocation,
}

/// What a `KeyHit` says.
pub struct Hit {
    pub offset: FlashOffset,
    pub key_id: Seq<u8>,
    pub modulus_size: u32,
    pub location: KeyHitLocation,
}

impl View for KeyHit {
    type V = Hit;

    open spec fn view(&self) -> Hit {
        Hit {
            offset: self.offset,
            key_id: self.key_id@,
            modulus_size: self.modulus_size,
            location: self.location,
        }
    }
}

/// What some hits say.
pub open spec fn hits_view(hits: Seq<KeyHit>) -> Seq<Hit> {
    hits.map_values(|h: KeyHit| h@)
}

/// The length of a key whose numbers have `bits` bits each.
pub open spec fn key_extent(bits: u32) -> int {
    0x40 + 2 * (bits as int / 8)
}

/// Whether the bytes from index `i` on have the shape of a public key: a known
/// version, two numbers of one usual width that fit in, and an exponent that
/// starts as 65537 does.
pub open spec fn key_shape_at(s: Seq<u8>, i: int) -> bool {
    let bits = le32(s, i + 0x38);
    &&& 0 <= i
    &&& i + 0x40 <= s.len()
    &&& le32(s, i) == 1 || le32(s, i) == 2
    &&& bits == 2048 || bits == 4096
    &&& le32(s, i + 0x3C) == bits
    &&& i + key_extent(bits) <= s.len()
    &&& s[i + 0x40] == 1
    &&& s[i + 0x41] == 0
    &&& s[i + 0x42] == 1
    &&& s[i + 0x43] == 0
}

/// The hit for bytes from index `i` on that have the shape of a key.
pub open spec fn shape_hit(blob: Window, i: int) -> Hit {
    Hit {
        offset: FlashOffset((blob.offset + i) as u64),
        key_id: blob.bytes.subrange(i + 4, i + 0x14),
        modulus_size: (le32(blob.bytes, i + 0x3C) / 8) as u32,
        location: KeyHitLocation::Heuristic,
    }
}

/// The hit for a key that the entry at a place holds.
pub open spec fn entry_hit(key: PubkeyEntry, item: Item) -> Hit {
    Hit {
        offset: FlashOffset(key.source@.offset as u64),
        key_id: key.key_id@,
        modulus_size: key.modulus_bits / 8,
        location: KeyHitLocation::Structured(
            EntryRef { directory_index: item.directory_index, entry_index: item.entry_index },
        ),
    }
}

/// The hits for the keys that the first `n` items hold, in order.
pub open spec fn entry_hits(items: Seq<Item>, n: int) -> Seq<Hit>
    decreases n,
{
    if n <= 0 {
        Seq::empty()
    } else {
        match key_in(items[n - 1]) {
            Some(key) => entry_hits(items, n - 1).push(entry_hit(key, items[n - 1])),
            None => entry_hits(items, n - 1),
        }
    }
}

/// Whether the `len` bytes at input offset `at` share a byte with a key that
/// an item holds.
pub open spec fn overlaps_entry(items: Seq<Item>, at: int, len: int) -> bool {
    exists|k: int|
        0 <= k < items.len() && {
            &&& key_in(#[trigger] items[k]) matches Some(key)
            &&& key.source@.offset < at + len
            &&& at < key.source@.end()
        }
}

/// Whether there is a hit for the shape of the bytes from index `i` on. One
/// that overlaps a key of an entry does not count.
pub open spec fn counts(blob: Window, items: Seq<Item>, i: int) -> bool {
    &&& key_shape_at(blob.bytes, i)
    &&& !overlaps_entry(items, blob.offset + i, key_extent(le32(blob.bytes, i + 0x38)))
}

/// The hits for the shapes that start before index `n`, in ascending order.
pub open spec fn shape_hits(blob: Window, items: Seq<Item>, n: int) -> Seq<Hit>
    decreases n,
{
    if n <= 0 {
        Seq::empty()
    } else if counts(blob, items, n - 1) {
        shape_hits(blob, items, n - 1).push(shape_hit(blob, n - 1))
    } else {
        shape_hits(blob, items, n - 1)
    }
}

/// Whether `hits` are those for some directories: first the keys of entries,
/// then what is found by shape.
pub open spec fn finds(
    hits: Seq<Hit>,
    dirs: Seq<DirectoryRef>,
    blob: Window,
    rom_size: RomSize,
    rom_origin: FlashOffset,
) -> bool {
    exists|items: Seq<Item>| #[trigger]
        complete(items, dirs, blob, rom_size, rom_origin) && hits == entry_hits(
            items,
            items.len() as int,
        ) + shape_hits(blob, items, blob.bytes.len() as int)
}

/// The hit for the bytes from index `local` on, if they have the shape of a
/// key. The first byte stands at input offset `blob_start`.
pub fn try_heuristic_at(bytes: &[u8], local: usize, blob_start: u64) -> (r: Option<KeyHit>)
    requires
        blob_start + local <= u64::MAX,
    ensures
        forall|version: int, width: int| #[trigger]
            key_bytes_at(bytes@, local as int, version, width) ==> {
                &&& r matches Some(hit)
                &&& hit.offset.0 == blob_start + local
                &&& hit.key_id@ == bytes@.subrange(local + 4, local + 0x14)
                &&& hit.modulus_size == width / 8
                &&& hit.location is Heuristic
            },
        r is Some ==> exists|version: int, width: int| #[trigger]
            key_bytes_at(bytes@, local as int, version, width),
        r is Some <==> key_shape_at(bytes@, local as int),
        r matches Some(hit) ==> hit@ == shape_hit(
            Window { bytes: bytes@, offset: blob_start as int },
            local as int,
        ),
{
    proof {
        lemma_key_shape(bytes@, local as int);
    }
    let len: usize = bytes.len();
    if local > len || len - local < 0x40 {
        return None;
    }
    let version: u32 = read_le32(bytes, local);
    if version != 1 && version != 2 {
        return None;
    }
    let pubexp_bits: u32 = read_le32(bytes, local + 0x38);
    if pubexp_bits != 2048 && pubexp_bits != 4096 {
        return None;
    }
    let modulus_bits: u32 = read_le32(bytes, local + 0x3C);
    if modulus_bits != pubexp_bits {
        return None;
    }
    let modulus_size: u32 = modulus_bits / 8;
    let total: usize = 0x40 + 2 * (pubexp_bits / 8) as usize;
    if len - local < total {
        return None;
    }
    if bytes[local + 0x40] != 1 || bytes[local + 0x41] != 0 || bytes[local + 0x42] != 1
        || bytes[local + 0x43] != 0 {
        return None;
    }
    Some(
        KeyHit {
            offset: FlashOffset(blob_start + local as u64),
            key_id: read_array16(bytes, local + 4),
            modulus_size,
            location: KeyHitLocation::Heuristic,
        },
    )
}

fn overlaps(items: &Vec<Item>, at: u64, len: u64) -> (r: bool)
    requires
        at + len <= u64::MAX,
    ensures
        r == overlaps_entry(items@, at as int, len as int),
{
    let mut k: usize = 0;
    while k < items.len()
        invariant
            k <= items@.len(),
            at + len <= u64::MAX,
            forall|j: int|
                0 <= j < k ==> !({
                    &&& key_in(#[trigger] items@[j]) matches Some(key)
                    &&& key.source@.offset < at + len
                    &&& at < key.source@.end()
                }),
        decreases items@.len() - k,
    {
        if let Ok(entry) = &items[k].entry {
            if let EntryClass::Pubkey(key) = &entry.class {
                let range = key.source.flash_range();
                if range.start < at + len && at < range.end {
                    assert(key_in(items@[k as int]) == Some(*key));
                    return true;
                }
            }
        }
        k += 1;
    }
    false
}

/// Find the public keys in the entries of some directories, and in the rest of
/// the input.
pub fn search_keys_with_directories(
    blob: &SourceBytes,
    directories: &[DirectoryRef],
    rom_size: RomSize,
    rom_origin: FlashOffset,
) -> (r: Vec<KeyHit>)
    ensures
        finds(hits_view(r@), directories@, blob@, rom_size, rom_origin),
{
    let items = parse_all(blob, directories, rom_size, rom_origin);
    let mut out: Vec<KeyHit> = Vec::new();
    push_entry_hits(&items, &mut out);
    assert(Seq::<Hit>::empty() + entry_hits(items@, items@.len() as int) =~= entry_hits(
        items@,
        items@.len() as int,
    ));
    push_shape_hits(blob, &items, &mut out);
    out
}

fn push_entry_hits(items: &Vec<Item>, out: &mut Vec<KeyHit>)
    ensures
        hits_view(final(out)@) == hits_view(old(out)@) + entry_hits(items@, items@.len() as int),
{
    let ghost start = hits_view(out@);
    let mut k: usize = 0;
    assert(start + entry_hits(items@, 0) =~= start);
    while k < items.len()
        invariant
            k <= items@.len(),
            hits_view(out@) == start + entry_hits(items@, k as int),
        decreases items@.len() - k,
    {
        if let Ok(entry) = &items[k].entry {
            if let EntryClass::Pubkey(key) = &entry.class {
                let hit = KeyHit {
                    offset: key.source.offset(),
                    key_id: key.key_id,
                    modulus_size: key.modulus_bits / 8,
                    location: KeyHitLocation::Structured(
                        EntryRef {
                            directory_index: items[k].directory_index,
                            entry_index: items[k].entry_index,
                        },
                    ),
                };
                let ghost before = out@;
                out.push(hit);
                assert(hits_view(out@) =~= hits_view(before).push(hit@));
                assert(hits_view(out@) =~= start + entry_hits(items@, k + 1));
            }
        }
        k += 1;
    }
}

fn push_shape_hits(blob: &SourceBytes, items: &Vec<Item>, out: &mut Vec<KeyHit>)
    ensures
        hits_view(final(out)@) == hits_view(old(out)@) + shape_hits(
            blob@,
            items@,
            blob@.bytes.len() as int,
        ),
{
    let bytes = blob.as_bytes();
    let blob_start: u64 = blob.offset().0;
    let ghost start = hits_view(out@);
    let mut i: usize = 0;
    assert(start + shape_hits(blob@, items@, 0) =~= start);
    while i < bytes.len()
        invariant
            i <= bytes@.len(),
            bytes@ == blob@.bytes,
            blob_start == blob@.offset,
            blob@.end() <= u64::MAX,
            hits_view(out@) == start + shape_hits(blob@, items@, i as int),
        decreases bytes@.len() - i,
    {
        if let Some(hit) = try_heuristic_at(bytes, i, blob_start) {
            let extent: u64 = 0x40 + 2 * (hit.modulus_size as u64);
            if !overlaps(items, blob_start + i as u64, extent) {
                let ghost before = out@;
                out.push(hit);
                assert(hits_view(out@) =~= hits_view(before).push(hit@));
                assert(hits_view(out@) =~= start + shape_hits(blob@, items@, i + 1));
            }
        }
        i += 1;
    }
}

/// Find the public keys in all entries that can be reached from `fet`, and in
/// the rest of the input.
pub fn search_keys(
    blob: &SourceBytes,
    fet: &Fet,
    rom_size: RomSize,
    rom_origin: FlashOffset,
) -> (r: Vec<KeyHit>)
    ensures
        exists|dirs: Seq<DirectoryRef>|
            #![trigger all_decode(dirs, blob@)]
            places(dirs) == reached(blob@, fet.slots@, rom_size, rom_origin) && all_decode(
                dirs,
                blob@,
            ) && finds(hits_view(r@), dirs, blob@, rom_size, rom_origin),
{
    let directories = walk_directories(blob, fet, rom_size, rom_origin);
    search_keys_with_directories(blob, directories.as_slice(), rom_size, rom_origin)
}

/// Every hit by shape is of a place where a key may stand and which no key of
/// an entry overlaps, and every such place has its hit.
pub proof fn lemma_shape_hits(blob: Window, items: Seq<Item>, n: int)
    ensures
        forall|h: Hit|
            shape_hits(blob, items, n).contains(h) <==> exists|i: int|
                0 <= i < n && #[trigger] counts(blob, items, i) && h == shape_hit(blob, i),
    decreases n,
{
    if n > 0 {
        lemma_shape_hits(blob, items, n - 1);
        let before = shape_hits(blob, items, n - 1);
        let all = shape_hits(blob, items, n);
        assert forall|h: Hit|
            all.contains(h) <==> exists|i: int|
                0 <= i < n && #[trigger] counts(blob, items, i) && h == shape_hit(blob, i) by {
            if all.contains(h) {
                let k = choose|k: int| 0 <= k < all.len() && all[k] == h;
                if k < before.len() {
                    assert(before[k] == h);
                    assert(before.contains(h));
                } else {
                    assert(counts(blob, items, n - 1));
                }
            }
            if exists|i: int|
                0 <= i < n && #[trigger] counts(blob, items, i) && h == shape_hit(blob, i) {
                let i = choose|i: int|
                    0 <= i < n && #[trigger] counts(blob, items, i) && h == shape_hit(blob, i);
                if i < n - 1 {
                    assert(before.contains(h));
                    let k = choose|k: int| 0 <= k < before.len() && before[k] == h;
                    assert(all[k] == h);
                } else {
                    assert(all[before.len() as int] == h);
                }
            }
        }
    }
}

/// One line for a hit.
pub open spec fn hit_text(h: Hit) -> Seq<char> {
    let place = match h.location {
        KeyHitLocation::Structured(r) => "structured(d"@ + (dec(r.directory_index as nat) + (".e"@
            + (dec(r.entry_index as nat) + ")"@))),
        KeyHitLocation::Heuristic => "heuristic"@,
    };
    prefixed_hex_padded(h.offset.0 as nat, 8) + ("  "@ + (hex_bytes(h.key_id) + ("  modulus="@ + (
    dec(h.modulus_size as nat) + ("  "@ + (place + "\n"@))))))
}

/// One line for each of the first `n` hits.
pub open spec fn hits_text(hits: Seq<Hit>, n: int) -> Seq<char>
    decreases n,
{
    if n <= 0 {
        Seq::empty()
    } else {
        hits_text(hits, n - 1) + hit_text(hits[n - 1])
    }
}

fn push_hit(hit: &KeyHit, out: &mut String)
    ensures
        final(out)@ == old(out)@ + hit_text(hit@),
{
    broadcast use group_text;

    push_prefixed_hex_padded(hit.offset.0, 8, out);
    out.append("  ");
    push_hex_bytes(&hit.key_id, out);
    out.append("  modulus=");
    push_dec(hit.modulus_size as u64, out);
    out.append("  ");
    match hit.location {
        KeyHitLocation::Structured(r) => {
            out.append("structured(d");
            push_dec(r.directory_index as u64, out);
            out.append(".e");
            push_dec(r.entry_index as u64, out);
            out.append(")");
        },
        KeyHitLocation::Heuristic => {
            out.append("heuristic");
        },
    }
    out.append("\n");
}

/// The hits as text, one line each.
pub fn render_hits(hits: &[KeyHit]) -> (r: String)
    ensures
        r@ == hits_text(hits_view(hits@), hits@.len() as int),
{
    let mut out = String::new();
    let mut i: usize = 0;
    assert(out@ =~= Seq::<char>::empty());
    while i < hits.len()
        invariant
            i <= hits@.len(),
            out@ == hits_text(hits_view(hits@), i as int),
        decreases hits@.len() - i,
    {
        assert(hits_view(hits@)[i as int] == hits@[i as int]@);
        push_hit(&hits[i], &mut out);
        i += 1;
    }
    out
}

/// Whether a public key of a version and of a width in bits stands at index `i`:
/// version 1 or 2, numbers of 2048 or of 4096 bits whose width is given twice,
/// an exponent that starts with 65537, and room for both numbers. All numbers
/// have their least significant byte first.
pub open spec fn key_bytes_at(s: Seq<u8>, i: int, version: int, width: int) -> bool {
    &&& 0 <= i
    &&& version == 1 || version == 2
    &&& width == 2048 || width == 4096
    &&& i + 0x40 + width / 8 + width / 8 <= s.len()
    &&& s[i] == version && s[i + 1] == 0 && s[i + 2] == 0 && s[i + 3] == 0
    &&& s[i + 0x38] == 0 && s[i + 0x39] == width / 256 && s[i + 0x3A] == 0 && s[i + 0x3B] == 0
    &&& s[i + 0x3C] == 0 && s[i + 0x3D] == width / 256 && s[i + 0x3E] == 0 && s[i + 0x3F] == 0
    &&& s[i + 0x40] == 1 && s[i + 0x41] == 0 && s[i + 0x42] == 1 && s[i + 0x43] == 0
}

proof fn lemma_word_bytes(s: Seq<u8>, at: int, low: int, next: int)
    requires
        0 <= at,
        at + 4 <= s.len(),
        0 <= low < 0x100,
        0 <= next < 0x100,
    ensures
        le32(s, at) == low + 0x100 * next <==> s[at] == low && s[at + 1] == next && s[at + 2] == 0
            && s[at + 3] == 0,
{
}

/// Bytes have the shape of a key exactly when a key of a known version and width
/// stands there; its length and that of its modulus follow from the width.
pub proof fn lemma_key_shape(s: Seq<u8>, i: int)
    ensures
        key_shape_at(s, i) <==> exists|version: int, width: int| #[trigger]
            key_bytes_at(s, i, version, width),
        forall|version: int, width: int| #[trigger]
            key_bytes_at(s, i, version, width) ==> le32(s, i + 0x38) == width && le32(s, i + 0x3C)
                == width && key_extent(le32(s, i + 0x38)) == 0x40 + width / 8 + width / 8,
{
    if 0 <= i && i + 0x44 <= s.len() {
        lemma_word_bytes(s, i, 1, 0);
        lemma_word_bytes(s, i, 2, 0);
        lemma_word_bytes(s, i + 0x38, 0, 8);
        lemma_word_bytes(s, i + 0x38, 0, 16);
        lemma_word_bytes(s, i + 0x3C, 0, 8);
        lemma_word_bytes(s, i + 0x3C, 0, 16);
        let version = le32(s, i) as int;
        let width = le32(s, i + 0x38) as int;
        if key_shape_at(s, i) {
            assert(key_bytes_at(s, i, version, width));
        }
    }
}

/// Whether the `len` bytes at input offset `at` share one with the public key of
/// an entry among `items`.
pub open spec fn meets_key(items: Seq<Item>, at: int, len: int) -> bool {
    exists|k: int|
        0 <= k < items.len() && {
            &&& (#[trigger] items[k]).entry matches Ok(entry)
            &&& entry.class matches EntryClass::Pubkey(key)
            &&& key.source@.offset < at + len && at < key.source@.offset + key.source@.bytes.len()
        }
}

/// The hit for a key of a width that stands at index `i`.
pub open spec fn hit_by_shape(blob: Window, i: int, width: int) -> Hit {
    Hit {
        offset: FlashOffset((blob.offset + i) as u64),
        key_id: blob.bytes.subrange(i + 4, i + 0x14),
        modulus_size: (width / 8) as u32,
        location: KeyHitLocation::Heuristic,
    }
}

/// The hit for the public key of an item.
pub open spec fn hit_of_entry(key: PubkeyEntry, item: Item) -> Hit {
    Hit {
        offset: FlashOffset(key.source@.offset as u64),
        key_id: key.key_id@,
        modulus_size: key.modulus_bits / 8,
        location: KeyHitLocation::Structured(
            EntryRef { directory_index: item.directory_index, entry_index: item.entry_index },
        ),
    }
}

proof fn lemma_entry_hits(items: Seq<Item>, n: int, h: Hit)
    requires
        0 <= n <= items.len(),
    ensures
        entry_hits(items, n).contains(h) <==> exists|k: int|
            0 <= k < n && {
                &&& (#[trigger] items[k]).entry matches Ok(entry)
                &&& entry.class matches EntryClass::Pubkey(key)
                &&& h == hit_of_entry(key, items[k])
            },
    decreases n,
{
    if n > 0 {
        lemma_entry_hits(items, n - 1, h);
        let before = entry_hits(items, n - 1);
        let all = entry_hits(items, n);
        if before.contains(h) {
            let k = choose|k: int| 0 <= k < before.len() && before[k] == h;
            assert(all[k] == h);
        }
        if all.contains(h) {
            let k = choose|k: int| 0 <= k < all.len() && all[k] == h;
            if k < before.len() {
                assert(before[k] == h);
                assert(before.contains(h));
            } else {
                assert(items[n - 1].entry is Ok);
            }
        }
        if key_in(items[n - 1]) is Some && h == hit_of_entry(
            key_in(items[n - 1])->Some_0,
            items[n - 1],
        ) {
            assert(all[before.len() as int] == h);
        }
    }
}

/// What a search gives: the public key of every entry that holds one, and every
/// key of a known version and width, 2048 or 4096 bits, that stands anywhere in
/// the input without sharing a byte with one of those. Nothing else is given.
pub proof fn lemma_keys_are_found(
    hits: Seq<Hit>,
    dirs: Seq<DirectoryRef>,
    blob: Window,
    rom_size: RomSize,
    rom_origin: FlashOffset,
)
    requires
        finds(hits, dirs, blob, rom_size, rom_origin),
    ensures
        exists|items: Seq<Item>| #[trigger]
            complete(items, dirs, blob, rom_size, rom_origin) && forall|h: Hit| #[trigger]
                hits.contains(h) <==> {
                    ||| exists|k: int|
                        0 <= k < items.len() && {
                            &&& (#[trigger] items[k]).entry matches Ok(entry)
                            &&& entry.class matches EntryClass::Pubkey(key)
                            &&& h == hit_of_entry(key, items[k])
                        }
                    ||| exists|i: int, version: int, width: int| #[trigger]
                        key_bytes_at(blob.bytes, i, version, width) && !meets_key(
                            items,
                            blob.offset + i,
                            0x40 + width / 8 + width / 8,
                        ) && h == hit_by_shape(blob, i, width)
                },
{
    let items = choose|items: Seq<Item>| #[trigger]
        complete(items, dirs, blob, rom_size, rom_origin) && hits == entry_hits(
            items,
            items.len() as int,
        ) + shape_hits(blob, items, blob.bytes.len() as int);
    let first = entry_hits(items, items.len() as int);
    let second = shape_hits(blob, items, blob.bytes.len() as int);
    lemma_shape_hits(blob, items, blob.bytes.len() as int);
    assert forall|h: Hit| #[trigger] hits.contains(h) <==> {
        ||| exists|k: int|
            0 <= k < items.len() && {
                &&& (#[trigger] items[k]).entry matches Ok(entry)
                &&& entry.class matches EntryClass::Pubkey(key)
                &&& h == hit_of_entry(key, items[k])
            }
        ||| exists|i: int, version: int, width: int| #[trigger]
            key_bytes_at(blob.bytes, i, version, width) && !meets_key(
                items,
                blob.offset + i,
                0x40 + width / 8 + width / 8,
            ) && h == hit_by_shape(blob, i, width)
    } by {
        lemma_entry_hits(items, items.len() as int, h);
        lemma_contains_either(first, second, h);
        lemma_shape_hit_bytes(blob, items, h);
    }
}

proof fn lemma_contains_either(a: Seq<Hit>, b: Seq<Hit>, h: Hit)
    ensures
        (a + b).contains(h) <==> a.contains(h) || b.contains(h),
{
    let both = a + b;
    if a.contains(h) {
        let k = choose|k: int| 0 <= k < a.len() && a[k] == h;
        assert(both[k] == h);
    }
    if b.contains(h) {
        let k = choose|k: int| 0 <= k < b.len() && b[k] == h;
        assert(both[a.len() + k] == h);
    }
    if both.contains(h) {
        let k = choose|k: int| 0 <= k < both.len() && both[k] == h;
        if k < a.len() {
            assert(a[k] == h);
        } else {
            assert(b[k - a.len()] == h);
        }
    }
}

proof fn lemma_counts_bytes(blob: Window, items: Seq<Item>, i: int, version: int, width: int)
    requires
        key_bytes_at(blob.bytes, i, version, width),
    ensures
        counts(blob, items, i) <==> !meets_key(
            items,
            blob.offset + i,
            0x40 + width / 8 + width / 8,
        ),
        shape_hit(blob, i) == hit_by_shape(blob, i, width),
{
    lemma_key_shape(blob.bytes, i);
    let at = blob.offset + i;
    let len = 0x40 + width / 8 + width / 8;
    if overlaps_entry(items, at, len) {
        let k = choose|k: int|
            0 <= k < items.len() && {
                &&& key_in(#[trigger] items[k]) matches Some(key)
                &&& key.source@.offset < at + len
                &&& at < key.source@.end()
            };
        assert(items[k].entry is Ok);
    }
    if meets_key(items, at, len) {
        let k = choose|k: int|
            0 <= k < items.len() && {
                &&& (#[trigger] items[k]).entry matches Ok(entry)
                &&& entry.class matches EntryClass::Pubkey(key)
                &&& key.source@.offset < at + len && at < key.source@.offset
                    + key.source@.bytes.len()
            };
        assert(key_in(items[k]) is Some);
    }
}

proof fn lemma_shape_hit_bytes(blob: Window, items: Seq<Item>, h: Hit)
    ensures
        (exists|i: int|
            0 <= i < blob.bytes.len() && #[trigger] counts(blob, items, i) && h == shape_hit(
                blob,
                i,
            )) <==> exists|i: int, version: int, width: int| #[trigger]
            key_bytes_at(blob.bytes, i, version, width) && !meets_key(
                items,
                blob.offset + i,
                0x40 + width / 8 + width / 8,
            ) && h == hit_by_shape(blob, i, width),
{
    if exists|i: int|
        0 <= i < blob.bytes.len() && #[trigger] counts(blob, items, i) && h == shape_hit(blob, i) {
        let i = choose|i: int|
            0 <= i < blob.bytes.len() && #[trigger] counts(blob, items, i) && h == shape_hit(
                blob,
                i,
            );
        lemma_key_shape(blob.bytes, i);
        let (version, width) = choose|version: int, width: int| #[trigger]
            key_bytes_at(blob.bytes, i, version, width);
        lemma_counts_bytes(blob, items, i, version, width);
        assert(key_bytes_at(blob.bytes, i, version, width));
    }
    if exists|i: int, version: int, width: int| #[trigger]
        key_bytes_at(blob.bytes, i, version, width) && !meets_key(
            items,
            blob.offset + i,
            0x40 + width / 8 + width / 8,
        ) && h == hit_by_shape(blob, i, width) {
        let (i, version, width) = choose|i: int, version: int, width: int| #[trigger]
            key_bytes_at(blob.bytes, i, version, width) && !meets_key(
                items,
                blob.offset + i,
                0x40 + width / 8 + width / 8,
            ) && h == hit_by_shape(blob, i, width);
        lemma_counts_bytes(blob, items, i, version, width);
        assert(counts(blob, items, i));
    }
}

/// Every hit has its line in the text, behind those of the hits before it.
pub proof fn lemma_every_hit_is_shown(hits: Seq<Hit>, n: int, k: int)
    requires
        0 <= k < n <= hits.len(),
    ensures
        exists|behind: Seq<char>|
            hits_text(hits, n) == #[trigger] (hits_text(hits, k) + hit_text(hits[k]) + behind),
    decreases n,
{
    let front = hits_text(hits, k) + hit_text(hits[k]);
    if k == n - 1 {
        assert(hits_text(hits, n) =~= front + Seq::<char>::empty());
    } else {
        lemma_every_hit_is_shown(hits, n - 1, k);
        let behind = choose|behind: Seq<char>|
            hits_text(hits, n - 1) == #[trigger] (front + behind);
        let more = behind + hit_text(hits[n - 1]);
        assert(hits_text(hits, n) =~= front + more);
    }
}

} // verus!
