//! All entries of some directories, in order.

use vstd::prelude::*;

use crate::address::{directory_mode, AddressMode, FlashOffset, ResolveContext, RomSize};
use crate::directory::Directory;
use crate::entry::{body_error, body_of, entry_context, Entry, EntryRecord};
use crate::error::ParseError;
use crate::source::{SourceBytes, Window};
use crate::walk::DirectoryRef;

verus! {

/// The number of entries of a directory. A combo directory has none: its
/// records point to directories.
pub open spec fn entry_count(dir: Directory) -> int {
    match dir {
        Directory::Psp(d) => d.entries@.len() as int,
        Directory::Bios(d) => d.entries@.len() as int,
        Directory::Combo(_) => 0,
    }
}

/// Record `i` of a PSP or BIOS directory.
pub open spec fn record_in(dir: Directory, i: int) -> EntryRecord {
    match dir {
        Directory::Bios(d) => EntryRecord::Bios(d.entries@[i]),
        Directory::Psp(d) => EntryRecord::Psp(d.entries@[i]),
        Directory::Combo(_) => arbitrary(),
    }
}

/// What the pointers of a directory's records are read against.
pub open spec fn context_in(
    dir: Directory,
    rom_size: RomSize,
    rom_origin: FlashOffset,
) -> ResolveContext {
    entry_context(dir.window().offset, rom_size, rom_origin)
}

/// The mode of a directory.
pub open spec fn mode_in(dir: Directory) -> AddressMode {
    directory_mode(dir.head().additional_info)
}

/// Whether `r` is what parsing entry `i` of a directory comes to.
pub open spec fn parsed_as(
    dir: Directory,
    i: int,
    blob: Window,
    rom_size: RomSize,
    rom_origin: FlashOffset,
    r: Result<Entry, ParseError>,
) -> bool {
    let record = record_in(dir, i);
    let ctx = context_in(dir, rom_size, rom_origin);
    match body_of(record, mode_in(dir), ctx, blob) {
        Some(_) => r matches Ok(entry) && entry.resolves(record, mode_in(dir), ctx, blob),
        None => r == Err::<Entry, ParseError>(body_error(record, mode_in(dir), ctx, blob)),
    }
}

/// Count the entries of a directory.
pub fn count_entries(dir: &Directory) -> (r: usize)
    ensures
        r == entry_count(*dir),
{
    match dir {
        Directory::Psp(d) => d.entries.len(),
        Directory::Bios(d) => d.entries.len(),
        Directory::Combo(_) => 0,
    }
}

/// Parse entry `i` of a directory.
pub fn parse_entry(
    blob: &SourceBytes,
    dir: &Directory,
    i: usize,
    rom_size: RomSize,
    rom_origin: FlashOffset,
) -> (r: Result<Entry, ParseError>)
    requires
        i < entry_count(*dir),
    ensures
        parsed_as(*dir, i as int, blob@, rom_size, rom_origin, r),
{
    match dir {
        Directory::Psp(d) => Entry::parse_psp(blob, d, i, rom_size, rom_origin),
        Directory::Bios(d) => Entry::parse_bios(blob, d, i, rom_size, rom_origin),
        Directory::Combo(_) => {
            assert(false);
            Err(ParseError::ComboReservedNonZero { offset: dir.source().offset() })
        },
    }
}

/// Parse all entries of a directory.
pub fn parse_dir_entries(
    blob: &SourceBytes,
    dir: &Directory,
    rom_size: RomSize,
    rom_origin: FlashOffset,
) -> (r: Vec<Result<Entry, ParseError>>)
    ensures
        r@.len() == entry_count(*dir),
        forall|i: int|
            0 <= i < r@.len() ==> parsed_as(
                *dir,
                i,
                blob@,
                rom_size,
                rom_origin,
                #[trigger] r@[i],
            ),
{
    let count: usize = count_entries(dir);
    let mut out: Vec<Result<Entry, ParseError>> = Vec::new();
    while out.len() < count
        invariant
            count == entry_count(*dir),
            out@.len() <= count,
            forall|i: int|
                0 <= i < out@.len() ==> parsed_as(
                    *dir,
                    i,
                    blob@,
                    rom_size,
                    rom_origin,
                    #[trigger] out@[i],
                ),
        decreases count - out@.len(),
    {
        let i: usize = out.len();
        out.push(parse_entry(blob, dir, i, rom_size, rom_origin));
    }
    out
}

/// An entry and where it was found.
pub struct Item {
    pub directory_index: usize,
    pub entry_index: usize,
    pub entry: Result<Entry, ParseError>,
}

/// The place of an entry: the index of its directory and its own in there.
pub struct Place {
    pub directory: int,
    pub entry: int,
}

/// The places of the entries of the first `n` directories, in order.
pub open spec fn places_in(dirs: Seq<DirectoryRef>, n: int) -> Seq<Place>
    decreases n,
{
    if n <= 0 {
        Seq::empty()
    } else {
        places_in(dirs, n - 1) + Seq::new(
            entry_count(dirs[n - 1].directory) as nat,
            |i: int| Place { directory: n - 1, entry: i },
        )
    }
}

/// Whether `item` is what parsing the entry at a place comes to.
pub open spec fn item_at(
    item: Item,
    place: Place,
    dirs: Seq<DirectoryRef>,
    blob: Window,
    rom_size: RomSize,
    rom_origin: FlashOffset,
) -> bool {
    &&& item.directory_index == place.directory
    &&& item.entry_index == place.entry
    &&& parsed_as(
        dirs[place.directory].directory,
        place.entry,
        blob,
        rom_size,
        rom_origin,
        item.entry,
    )
}

/// Whether `items` are all entries of the directories, in order.
pub open spec fn complete(
    items: Seq<Item>,
    dirs: Seq<DirectoryRef>,
    blob: Window,
    rom_size: RomSize,
    rom_origin: FlashOffset,
) -> bool {
    let places = places_in(dirs, dirs.len() as int);
    &&& items.len() == places.len()
    &&& forall|k: int|
        0 <= k < items.len() ==> item_at(
            #[trigger] items[k],
            places[k],
            dirs,
            blob,
            rom_size,
            rom_origin,
        )
}

/// Parse all entries of some directories.
pub fn parse_all(
    blob: &SourceBytes,
    directories: &[DirectoryRef],
    rom_size: RomSize,
    rom_origin: FlashOffset,
) -> (r: Vec<Item>)
    ensures
        complete(r@, directories@, blob@, rom_size, rom_origin),
{
    let ghost dirs = directories@;
    let mut out: Vec<Item> = Vec::new();
    let mut d: usize = 0;
    while d < directories.len()
        invariant
            d <= dirs.len(),
            dirs == directories@,
            out@.len() == places_in(dirs, d as int).len(),
            forall|k: int|
                0 <= k < out@.len() ==> item_at(
                    #[trigger] out@[k],
                    places_in(dirs, d as int)[k],
                    dirs,
                    blob@,
                    rom_size,
                    rom_origin,
                ),
        decreases dirs.len() - d,
    {
        let dir = &directories[d].directory;
        let count: usize = count_entries(dir);
        let ghost before = places_in(dirs, d as int);
        let ghost after = places_in(dirs, d + 1);
        assert(after.len() == before.len() + count);
        assert forall|k: int| 0 <= k < before.len() implies #[trigger] after[k] == before[k] by {}
        let mut i: usize = 0;
        while i < count
            invariant
                i <= count,
                d < dirs.len(),
                dirs == directories@,
                *dir == dirs[d as int].directory,
                count == entry_count(*dir),
                before == places_in(dirs, d as int),
                after == places_in(dirs, d + 1),
                after.len() == before.len() + count,
                out@.len() == before.len() + i,
                forall|k: int|
                    0 <= k < out@.len() ==> item_at(
                        #[trigger] out@[k],
                        after[k],
                        dirs,
                        blob@,
                        rom_size,
                        rom_origin,
                    ),
            decreases count - i,
        {
            let entry = parse_entry(blob, dir, i, rom_size, rom_origin);
            assert(after[before.len() + i] == (Place { directory: d as int, entry: i as int }));
            out.push(Item { directory_index: d, entry_index: i, entry });
            i += 1;
        }
        d += 1;
    }
    out
}

/// The places of entries are distinct and each is one of its directory.
pub proof fn lemma_places(dirs: Seq<DirectoryRef>, n: int)
    requires
        0 <= n <= dirs.len(),
    ensures
        forall|k: int|
            #![trigger places_in(dirs, n)[k]]
            0 <= k < places_in(dirs, n).len() ==> 0 <= places_in(dirs, n)[k].directory < n && 0
                <= places_in(dirs, n)[k].entry < entry_count(
                dirs[places_in(dirs, n)[k].directory].directory,
            ),
        forall|j: int, k: int|
            0 <= j < k < places_in(dirs, n).len() ==> #[trigger] places_in(dirs, n)[j]
                != #[trigger] places_in(dirs, n)[k],
    decreases n,
{
    if n > 0 {
        lemma_places(dirs, n - 1);
        let before = places_in(dirs, n - 1);
        let all = places_in(dirs, n);
        assert forall|k: int|
            #![trigger all[k]]
            0 <= k < all.len() implies 0 <= all[k].directory < n && 0 <= all[k].entry
            < entry_count(dirs[all[k].directory].directory) by {
            if k < before.len() {
                assert(all[k] == before[k]);
            }
        }
        assert forall|j: int, k: int| 0 <= j < k < all.len() implies #[trigger] all[j]
            != #[trigger] all[k] by {
            if j < before.len() {
                assert(all[j] == before[j]);
            }
            if k < before.len() {
                assert(all[k] == before[k]);
            }
        }
    }
}

/// Every record of every directory has its place.
pub proof fn lemma_every_place(dirs: Seq<DirectoryRef>, n: int, d: int, e: int)
    requires
        0 <= d < n <= dirs.len(),
        0 <= e,
        match dirs[d].directory {
            Directory::Psp(p) => e < p.entries@.len(),
            Directory::Bios(b) => e < b.entries@.len(),
            Directory::Combo(_) => false,
        },
    ensures
        exists|k: int|
            0 <= k < places_in(dirs, n).len() && #[trigger] places_in(dirs, n)[k] == (Place {
                directory: d,
                entry: e,
            }),
    decreases n,
{
    let before = places_in(dirs, n - 1);
    let all = places_in(dirs, n);
    if d == n - 1 {
        assert(all[before.len() + e] == (Place { directory: d, entry: e }));
    } else {
        lemma_every_place(dirs, n - 1, d, e);
        let k = choose|k: int|
            0 <= k < before.len() && #[trigger] before[k] == (Place { directory: d, entry: e });
        assert(all[k] == before[k]);
    }
}

} // verus!
