//! Every directory that can be reached from a firmware entry table.

use vstd::prelude::*;

use crate::address::{
    directory_mode, entry_mode, entry_target, target, Address, AddressMode, FlashOffset,
    ResolveContext, RomSize,
};
use crate::directory::{
    count_at, directory_at, directory_of_family_at, record_at, tag_at, Directory,
};
use crate::fet::{Fet, FetSlot, FetSlotRecord};
use crate::id::EntryType;
use crate::magic::{family_of, DirectoryFamily};
use crate::source::{SourceBytes, Window};
use crate::wire::le32;

verus! {

/// How a directory was reached.
#[derive(Copy, Clone, Debug, PartialEq, Eq, Structural)]
pub enum DirectoryProvenance {
    /// From slot `index` of the entry table.
    FetSlot { index: usize },
    /// From record `index` of the combo directory at `combo_offset`.
    ComboEntry { combo_offset: FlashOffset, index: usize },
    /// From record `index` of the directory at `parent_offset`.
    L2Pointer { parent_offset: FlashOffset, index: usize },
}

/// A directory and the link that led to it.
#[derive(Clone, Debug, PartialEq, Eq)]
pub struct DirectoryRef {
    pub directory: Directory,
    pub provenance: DirectoryProvenance,
}

/// A place where a directory may stand, and what points there.
#[derive(Copy, Clone)]
struct Link {
    target: FlashOffset,
    provenance: DirectoryProvenance,
}

/// What a pointer of an entry table or of a combo directory is read against.
pub open spec fn root_context(rom_size: RomSize, rom_origin: FlashOffset) -> ResolveContext {
    ResolveContext { rom_size, directory_base: FlashOffset(0), rom_origin }
}

/// Where slot `i` of an entry table points; `None` when it points nowhere.
pub open spec fn fet_link(
    slots: Seq<FetSlotRecord>,
    i: int,
    rom_size: RomSize,
    rom_origin: FlashOffset,
) -> Option<Found> {
    match slots[i].slot {
        FetSlot::Pointer(a) => Some(
            Found {
                at: target(AddressMode::PhysicalX86, a, root_context(rom_size, rom_origin)) as int,
                provenance: DirectoryProvenance::FetSlot { index: i as usize },
            },
        ),
        FetSlot::Sentinel(_) => None,
    }
}

/// Where the first `n` slots of an entry table point, in order.
pub open spec fn fet_links(
    slots: Seq<FetSlotRecord>,
    n: int,
    rom_size: RomSize,
    rom_origin: FlashOffset,
) -> Seq<Found>
    decreases n,
{
    if n <= 0 {
        Seq::empty()
    } else {
        let before = fet_links(slots, n - 1, rom_size, rom_origin);
        match fet_link(slots, n - 1, rom_size, rom_origin) {
            Some(link) => before.push(link),
            None => before,
        }
    }
}

/// Where record `i` of the directory at `at` points; `None` when it does not
/// point to a directory. Every record of a combo directory does; of the
/// others those of the types that say so.
pub open spec fn record_link(
    blob: Window,
    at: int,
    i: int,
    rom_size: RomSize,
    rom_origin: FlashOffset,
) -> Option<Found> {
    match family_of(tag_at(blob, at)) {
        None => None,
        Some(family) => {
            let record = record_at(blob, at, family, i).bytes;
            let raw = Address(le32(record, 8));
            if family == DirectoryFamily::Combo {
                Some(
                    Found {
                        at: target(
                            AddressMode::PhysicalX86,
                            raw,
                            root_context(rom_size, rom_origin),
                        ) as int,
                        provenance: DirectoryProvenance::ComboEntry {
                            combo_offset: FlashOffset(at as u64),
                            index: i as usize,
                        },
                    },
                )
            } else if EntryType(record[0]).points_to_directory() {
                Some(
                    Found {
                        at: entry_target(
                            directory_mode(le32(blob.at(at, 16).bytes, 12)),
                            entry_mode(le32(record, 12)),
                            raw,
                            ResolveContext {
                                rom_size,
                                directory_base: FlashOffset(at as u64),
                                rom_origin,
                            },
                        ) as int,
                        provenance: DirectoryProvenance::L2Pointer {
                            parent_offset: FlashOffset(at as u64),
                            index: i as usize,
                        },
                    },
                )
            } else {
                None
            }
        },
    }
}

/// Where the first `n` records of the directory at `at` point, in order.
pub open spec fn record_links(
    blob: Window,
    at: int,
    n: int,
    rom_size: RomSize,
    rom_origin: FlashOffset,
) -> Seq<Found>
    decreases n,
{
    if n <= 0 {
        Seq::empty()
    } else {
        let before = record_links(blob, at, n - 1, rom_size, rom_origin);
        match record_link(blob, at, n - 1, rom_size, rom_origin) {
            Some(link) => before.push(link),
            None => before,
        }
    }
}

/// Where the records of the directory at `at` point, in order.
pub open spec fn directory_links(
    blob: Window,
    at: int,
    rom_size: RomSize,
    rom_origin: FlashOffset,
) -> Seq<Found> {
    record_links(blob, at, count_at(blob, at), rom_size, rom_origin)
}

/// A place in the input and what points there.
pub struct Found {
    pub at: int,
    pub provenance: DirectoryProvenance,
}

/// A walk under way: the directories found so far, and the indices of those
/// whose own pointers have yet to be followed. The last one comes first.
#[verifier::ext_equal]
pub struct Walk {
    pub found: Seq<Found>,
    pub work: Seq<int>,
}

/// Whether a place is among those found.
pub open spec fn known(found: Seq<Found>, at: int) -> bool {
    exists|i: int| 0 <= i < found.len() && (#[trigger] found[i]).at == at
}

/// The walk after a link was followed: a directory that stands there and was
/// not found before is added.
pub open spec fn followed(w: Walk, blob: Window, link: Found) -> Walk {
    if directory_at(blob, link.at) && !known(w.found, link.at) {
        Walk { found: w.found.push(link), work: w.work.push(w.found.len() as int) }
    } else {
        w
    }
}

/// The walk after some links were followed, in order.
pub open spec fn followed_all(w: Walk, blob: Window, links: Seq<Found>) -> Walk
    decreases links.len(),
{
    if links.len() == 0 {
        w
    } else {
        followed(followed_all(w, blob, links.drop_last()), blob, links.last())
    }
}

/// The walk after the pointers of the last pending directory were followed.
pub open spec fn advanced(
    w: Walk,
    blob: Window,
    rom_size: RomSize,
    rom_origin: FlashOffset,
) -> Walk {
    followed_all(
        Walk { found: w.found, work: w.work.drop_last() },
        blob,
        directory_links(blob, w.found[w.work.last()].at, rom_size, rom_origin),
    )
}

/// How many directories a walk may still find.
pub open spec fn room(w: Walk, blob: Window) -> int {
    if w.found.len() <= blob.bytes.len() {
        blob.bytes.len() + 1 - w.found.len()
    } else {
        0
    }
}

/// The walk after all pending directories were dealt with. No two directories
/// start at one place, so there are never more of them than bytes.
pub open spec fn finished(
    w: Walk,
    blob: Window,
    rom_size: RomSize,
    rom_origin: FlashOffset,
) -> Walk
    decreases room(w, blob), w.work.len(),
{
    if w.work.len() == 0 || w.found.len() > blob.bytes.len() {
        w
    } else {
        proof {
            lemma_followed_grows(
                Walk { found: w.found, work: w.work.drop_last() },
                blob,
                directory_links(blob, w.found[w.work.last()].at, rom_size, rom_origin),
            );
        }
        finished(advanced(w, blob, rom_size, rom_origin), blob, rom_size, rom_origin)
    }
}

/// The walk after the pointers of the entry table were followed.
pub open spec fn started(
    blob: Window,
    slots: Seq<FetSlotRecord>,
    rom_size: RomSize,
    rom_origin: FlashOffset,
) -> Walk {
    followed_all(
        Walk { found: Seq::empty(), work: Seq::empty() },
        blob,
        fet_links(slots, slots.len() as int, rom_size, rom_origin),
    )
}

/// The directories that can be reached from the slots of an entry table, in
/// the order in which they are found.
pub open spec fn reached(
    blob: Window,
    slots: Seq<FetSlotRecord>,
    rom_size: RomSize,
    rom_origin: FlashOffset,
) -> Seq<Found> {
    finished(started(blob, slots, rom_size, rom_origin), blob, rom_size, rom_origin).found
}

/// Links only add directories; where they add none, nothing changes.
pub proof fn lemma_followed_grows(w: Walk, blob: Window, links: Seq<Found>)
    ensures
        w.found.len() <= followed_all(w, blob, links).found.len(),
        w.found.len() == followed_all(w, blob, links).found.len() ==> followed_all(w, blob, links)
            == w,
    decreases links.len(),
{
    if links.len() > 0 {
        lemma_followed_grows(w, blob, links.drop_last());
    }
}

/// Whether the directories found stand where they were found, none of them
/// twice, and those pending are among them.
pub open spec fn sound(w: Walk, blob: Window) -> bool {
    &&& forall|i: int| 0 <= i < w.found.len() ==> directory_at(blob, (#[trigger] w.found[i]).at)
    &&& forall|i: int, j: int|
        0 <= i < j < w.found.len() ==> (#[trigger] w.found[i]).at != (#[trigger] w.found[j]).at
    &&& forall|k: int|
        0 <= k < w.work.len() ==> 0 <= (#[trigger] w.work[k]) < w.found.len()
}

proof fn lemma_followed_all_sound(w: Walk, blob: Window, links: Seq<Found>)
    requires
        sound(w, blob),
    ensures
        sound(followed_all(w, blob, links), blob),
    decreases links.len(),
{
    if links.len() > 0 {
        lemma_followed_all_sound(w, blob, links.drop_last());
    }
}

proof fn lemma_sound_is_bounded(w: Walk, blob: Window)
    requires
        sound(w, blob),
    ensures
        w.found.len() <= blob.bytes.len(),
{
    let places = w.found.map_values(|f: Found| f.at);
    assert(places.no_duplicates());
    places.unique_seq_to_set();
    let all = vstd::set_lib::set_int_range(blob.offset, blob.end());
    vstd::set_lib::lemma_int_range(blob.offset, blob.end());
    assert forall|x: int| places.to_set().contains(x) implies all.contains(x) by {
        let i = choose|i: int| 0 <= i < places.len() && places[i] == x;
        assert(directory_at(blob, w.found[i].at));
        let family = choose|family: DirectoryFamily|
            #[trigger] directory_of_family_at(blob, w.found[i].at, family);
        assert(blob.covers(x, 16));
    }
    vstd::set_lib::lemma_len_subset(places.to_set(), all);
}

proof fn lemma_finished_sound(
    w: Walk,
    blob: Window,
    rom_size: RomSize,
    rom_origin: FlashOffset,
)
    requires
        sound(w, blob),
    ensures
        sound(finished(w, blob, rom_size, rom_origin), blob),
        finished(w, blob, rom_size, rom_origin).work.len() == 0,
    decreases room(w, blob), w.work.len(),
{
    lemma_sound_is_bounded(w, blob);
    if w.work.len() > 0 {
        let popped = Walk { found: w.found, work: w.work.drop_last() };
        let links = directory_links(blob, w.found[w.work.last()].at, rom_size, rom_origin);
        lemma_followed_grows(popped, blob, links);
        lemma_followed_all_sound(popped, blob, links);
        lemma_finished_sound(
            advanced(w, blob, rom_size, rom_origin),
            blob,
            rom_size,
            rom_origin,
        );
    }
}

/// What a walk returns stands in the input, and each directory occurs once.
pub proof fn lemma_reached_once(
    blob: Window,
    slots: Seq<FetSlotRecord>,
    rom_size: RomSize,
    rom_origin: FlashOffset,
)
    ensures
        forall|i: int|
            0 <= i < reached(blob, slots, rom_size, rom_origin).len() ==> directory_at(
                blob,
                (#[trigger] reached(blob, slots, rom_size, rom_origin)[i]).at,
            ),
        forall|i: int, j: int|
            0 <= i < j < reached(blob, slots, rom_size, rom_origin).len() ==> (
            #[trigger] reached(blob, slots, rom_size, rom_origin)[i]).at != (
            #[trigger] reached(blob, slots, rom_size, rom_origin)[j]).at,
{
    let none = Walk { found: Seq::empty(), work: Seq::empty() };
    let links = fet_links(slots, slots.len() as int, rom_size, rom_origin);
    lemma_followed_all_sound(none, blob, links);
    lemma_finished_sound(started(blob, slots, rom_size, rom_origin), blob, rom_size, rom_origin);
}

/// Whether each of the links that lead to a directory leads to one found.
pub open spec fn settled(found: Seq<Found>, blob: Window, links: Seq<Found>) -> bool {
    forall|k: int|
        0 <= k < links.len() && directory_at(blob, (#[trigger] links[k]).at) ==> known(
            found,
            links[k].at,
        )
}

proof fn lemma_followed_all_settles(w: Walk, blob: Window, links: Seq<Found>)
    ensures
        w.found.is_prefix_of(followed_all(w, blob, links).found),
        settled(followed_all(w, blob, links).found, blob, links),
        forall|i: int|
            w.found.len() <= i < followed_all(w, blob, links).found.len()
                ==> #[trigger] followed_all(w, blob, links).work.contains(i),
        forall|i: int|
            w.found.len() <= i < followed_all(w, blob, links).found.len() ==> links.contains(
                #[trigger] followed_all(w, blob, links).found[i],
            ),
        forall|k: int|
            0 <= k < w.work.len() ==> followed_all(w, blob, links).work.contains(
                #[trigger] w.work[k],
            ),
    decreases links.len(),
{
    let after = followed_all(w, blob, links);
    if links.len() == 0 {
        assert(after == w);
    } else {
        let rest = links.drop_last();
        let link = links.last();
        let before = followed_all(w, blob, rest);
        lemma_followed_all_settles(w, blob, rest);
        assert(before.found.is_prefix_of(after.found));
        if directory_at(blob, link.at) && !known(before.found, link.at) {
            assert(after.found[before.found.len() as int].at == link.at);
        }
        assert forall|k: int|
            0 <= k < links.len() && directory_at(blob, (#[trigger] links[k]).at) implies known(
            after.found,
            links[k].at,
        ) by {
            if k < rest.len() {
                assert(rest[k] == links[k]);
                let i = choose|i: int|
                    0 <= i < before.found.len() && (#[trigger] before.found[i]).at == links[k].at;
                assert(after.found[i].at == links[k].at);
            } else if known(before.found, link.at) {
                let i = choose|i: int|
                    0 <= i < before.found.len() && (#[trigger] before.found[i]).at == link.at;
                assert(after.found[i].at == link.at);
            }
        }
        assert forall|x: int| before.work.contains(x) implies after.work.contains(x) by {
            let k = choose|k: int| 0 <= k < before.work.len() && before.work[k] == x;
            assert(after.work[k] == x);
        }
        assert forall|i: int|
            w.found.len() <= i < after.found.len() implies #[trigger] after.work.contains(i) by {
            if i < before.found.len() {
                assert(before.work.contains(i));
            } else {
                assert(after.work[after.work.len() - 1] == i);
            }
        }
        assert forall|i: int| w.found.len() <= i < after.found.len() implies links.contains(
            #[trigger] after.found[i],
        ) by {
            if i < before.found.len() {
                assert(after.found[i] == before.found[i]);
                let k = choose|k: int| 0 <= k < rest.len() && rest[k] == before.found[i];
                assert(links[k] == after.found[i]);
            } else {
                assert(links[links.len() - 1] == after.found[i]);
            }
        }
    }
}

/// Whether the pointers of all directories found, but for those pending, have
/// been followed.
pub open spec fn caught_up(
    w: Walk,
    blob: Window,
    rom_size: RomSize,
    rom_origin: FlashOffset,
) -> bool {
    forall|i: int|
        0 <= i < w.found.len() && !w.work.contains(i) ==> settled(
            w.found,
            blob,
            directory_links(blob, (#[trigger] w.found[i]).at, rom_size, rom_origin),
        )
}

proof fn lemma_settled_stays(small: Seq<Found>, large: Seq<Found>, blob: Window, links: Seq<Found>)
    requires
        settled(small, blob, links),
        small.is_prefix_of(large),
    ensures
        settled(large, blob, links),
{
    assert forall|k: int|
        0 <= k < links.len() && directory_at(blob, (#[trigger] links[k]).at) implies known(
        large,
        links[k].at,
    ) by {
        let i = choose|i: int| 0 <= i < small.len() && (#[trigger] small[i]).at == links[k].at;
        assert(large[i].at == links[k].at);
    }
}

proof fn lemma_finished_catches_up(
    w: Walk,
    blob: Window,
    rom_size: RomSize,
    rom_origin: FlashOffset,
)
    requires
        sound(w, blob),
        caught_up(w, blob, rom_size, rom_origin),
    ensures
        w.found.is_prefix_of(finished(w, blob, rom_size, rom_origin).found),
        caught_up(finished(w, blob, rom_size, rom_origin), blob, rom_size, rom_origin),
    decreases room(w, blob), w.work.len(),
{
    lemma_sound_is_bounded(w, blob);
    if w.work.len() > 0 {
        let popped = Walk { found: w.found, work: w.work.drop_last() };
        let top = w.work.last();
        let links = directory_links(blob, w.found[top].at, rom_size, rom_origin);
        let next = advanced(w, blob, rom_size, rom_origin);
        lemma_followed_grows(popped, blob, links);
        lemma_followed_all_sound(popped, blob, links);
        lemma_followed_all_settles(popped, blob, links);
        assert forall|i: int| 0 <= i < next.found.len() && !next.work.contains(i) implies settled(
            next.found,
            blob,
            directory_links(blob, (#[trigger] next.found[i]).at, rom_size, rom_origin),
        ) by {
            assert(i < w.found.len());
            assert(next.found[i] == w.found[i]);
            if i != top {
                if w.work.contains(i) {
                    let k = choose|k: int| 0 <= k < w.work.len() && w.work[k] == i;
                    assert(popped.work[k] == i);
                    assert(next.work.contains(popped.work[k]));
                }
                lemma_settled_stays(
                    w.found,
                    next.found,
                    blob,
                    directory_links(blob, w.found[i].at, rom_size, rom_origin),
                );
            }
        }
        lemma_finished_catches_up(next, blob, rom_size, rom_origin);
    }
}

/// A walk misses nothing: wherever the entry table or a directory that was
/// found points to a directory, that one was found too.
pub proof fn lemma_reached_is_closed(
    blob: Window,
    slots: Seq<FetSlotRecord>,
    rom_size: RomSize,
    rom_origin: FlashOffset,
)
    ensures
        settled(
            reached(blob, slots, rom_size, rom_origin),
            blob,
            fet_links(slots, slots.len() as int, rom_size, rom_origin),
        ),
        forall|i: int|
            0 <= i < reached(blob, slots, rom_size, rom_origin).len() ==> settled(
                reached(blob, slots, rom_size, rom_origin),
                blob,
                directory_links(
                    blob,
                    (#[trigger] reached(blob, slots, rom_size, rom_origin)[i]).at,
                    rom_size,
                    rom_origin,
                ),
            ),
{
    let none = Walk { found: Seq::empty(), work: Seq::empty() };
    let links = fet_links(slots, slots.len() as int, rom_size, rom_origin);
    let first = started(blob, slots, rom_size, rom_origin);
    lemma_followed_all_sound(none, blob, links);
    lemma_followed_all_settles(none, blob, links);
    lemma_finished_sound(first, blob, rom_size, rom_origin);
    lemma_finished_catches_up(first, blob, rom_size, rom_origin);
    lemma_settled_stays(
        first.found,
        reached(blob, slots, rom_size, rom_origin),
        blob,
        links,
    );
}

/// Whether the entry table or a directory found before index `i` points to
/// the directory of that index, in the way its provenance tells.
pub open spec fn justified(
    found: Seq<Found>,
    i: int,
    blob: Window,
    slots: Seq<FetSlotRecord>,
    rom_size: RomSize,
    rom_origin: FlashOffset,
) -> bool {
    ||| fet_links(slots, slots.len() as int, rom_size, rom_origin).contains(found[i])
    ||| exists|j: int|
        0 <= j < i && #[trigger] directory_links(
            blob,
            found[j].at,
            rom_size,
            rom_origin,
        ).contains(found[i])
}

proof fn lemma_finished_justified(
    w: Walk,
    blob: Window,
    slots: Seq<FetSlotRecord>,
    rom_size: RomSize,
    rom_origin: FlashOffset,
)
    requires
        sound(w, blob),
        forall|i: int|
            0 <= i < w.found.len() ==> #[trigger] justified(
                w.found,
                i,
                blob,
                slots,
                rom_size,
                rom_origin,
            ),
    ensures
        forall|i: int|
            0 <= i < finished(w, blob, rom_size, rom_origin).found.len() ==> #[trigger] justified(
                finished(w, blob, rom_size, rom_origin).found,
                i,
                blob,
                slots,
                rom_size,
                rom_origin,
            ),
    decreases room(w, blob), w.work.len(),
{
    lemma_sound_is_bounded(w, blob);
    if w.work.len() > 0 {
        let popped = Walk { found: w.found, work: w.work.drop_last() };
        let top = w.work.last();
        let links = directory_links(blob, w.found[top].at, rom_size, rom_origin);
        let next = advanced(w, blob, rom_size, rom_origin);
        lemma_followed_grows(popped, blob, links);
        lemma_followed_all_sound(popped, blob, links);
        lemma_followed_all_settles(popped, blob, links);
        assert forall|i: int| 0 <= i < next.found.len() implies #[trigger] justified(
            next.found,
            i,
            blob,
            slots,
            rom_size,
            rom_origin,
        ) by {
            if i < w.found.len() {
                assert(justified(w.found, i, blob, slots, rom_size, rom_origin));
                assert(next.found[i] == w.found[i]);
                if !fet_links(slots, slots.len() as int, rom_size, rom_origin).contains(
                    w.found[i],
                ) {
                    let j = choose|j: int|
                        0 <= j < i && #[trigger] directory_links(
                            blob,
                            w.found[j].at,
                            rom_size,
                            rom_origin,
                        ).contains(w.found[i]);
                    assert(next.found[j] == w.found[j]);
                    assert(directory_links(
                        blob,
                        next.found[j].at,
                        rom_size,
                        rom_origin,
                    ).contains(next.found[i]));
                }
            } else {
                assert(next.found[top] == w.found[top]);
                assert(links.contains(next.found[i]));
                assert(directory_links(
                    blob,
                    next.found[top].at,
                    rom_size,
                    rom_origin,
                ).contains(next.found[i]));
            }
        }
        lemma_finished_justified(next, blob, slots, rom_size, rom_origin);
        assert(finished(w, blob, rom_size, rom_origin) == finished(
            next,
            blob,
            rom_size,
            rom_origin,
        ));
    } else {
        assert(finished(w, blob, rom_size, rom_origin) == w);
    }
}

/// A walk makes nothing up: each directory is one that the entry table or a
/// directory found earlier points to, as its provenance says.
pub proof fn lemma_reached_is_justified(
    blob: Window,
    slots: Seq<FetSlotRecord>,
    rom_size: RomSize,
    rom_origin: FlashOffset,
)
    ensures
        forall|i: int|
            0 <= i < reached(blob, slots, rom_size, rom_origin).len() ==> #[trigger] justified(
                reached(blob, slots, rom_size, rom_origin),
                i,
                blob,
                slots,
                rom_size,
                rom_origin,
            ),
{
    let none = Walk { found: Seq::empty(), work: Seq::empty() };
    let links = fet_links(slots, slots.len() as int, rom_size, rom_origin);
    let first = started(blob, slots, rom_size, rom_origin);
    lemma_followed_all_sound(none, blob, links);
    lemma_followed_all_settles(none, blob, links);
    assert forall|i: int| 0 <= i < first.found.len() implies #[trigger] justified(
        first.found,
        i,
        blob,
        slots,
        rom_size,
        rom_origin,
    ) by {
        assert(links.contains(first.found[i]));
    }
    lemma_finished_justified(first, blob, slots, rom_size, rom_origin);
}

spec fn link_found(link: Link) -> Found {
    Found { at: link.target.0 as int, provenance: link.provenance }
}

spec fn links_found(links: Seq<Link>) -> Seq<Found> {
    links.map_values(|link: Link| link_found(link))
}

/// The places and provenances of some directories.
pub open spec fn places(dirs: Seq<DirectoryRef>) -> Seq<Found> {
    dirs.map_values(
        |d: DirectoryRef| Found { at: d.directory.window().offset, provenance: d.provenance },
    )
}

/// Whether each directory is the one that the input holds at its place.
pub open spec fn all_decode(dirs: Seq<DirectoryRef>, blob: Window) -> bool {
    forall|i: int|
        0 <= i < dirs.len() ==> (#[trigger] dirs[i]).directory.decodes(
            blob,
            dirs[i].directory.window().offset,
        )
}

spec fn walk_state(out: Seq<DirectoryRef>, work: Seq<usize>) -> Walk {
    Walk { found: places(out), work: work.map_values(|i: usize| i as int) }
}

fn links_of_fet(fet: &Fet, rom_size: RomSize, rom_origin: FlashOffset) -> (r: Vec<Link>)
    ensures
        links_found(r@) == fet_links(
            fet.slots@,
            fet.slots@.len() as int,
            rom_size,
            rom_origin,
        ),
{
    let ctx = ResolveContext { rom_size, directory_base: FlashOffset(0), rom_origin };
    let mut out: Vec<Link> = Vec::new();
    let mut i: usize = 0;
    assert(links_found(out@) =~= Seq::<Found>::empty());
    while i < fet.slots.len()
        invariant
            i <= fet.slots@.len(),
            ctx == root_context(rom_size, rom_origin),
            links_found(out@) == fet_links(fet.slots@, i as int, rom_size, rom_origin),
        decreases fet.slots@.len() - i,
    {
        if let FetSlot::Pointer(a) = fet.slots[i].slot {
            if let Ok(target) = AddressMode::PhysicalX86.resolve(a, ctx) {
                let ghost before = out@;
                let link = Link { target, provenance: DirectoryProvenance::FetSlot { index: i } };
                out.push(link);
                assert(links_found(out@) =~= links_found(before).push(link_found(link)));
            }
        }
        i += 1;
    }
    out
}

fn links_of_directory(
    dir: &Directory,
    rom_size: RomSize,
    rom_origin: FlashOffset,
    Ghost(blob): Ghost<Window>,
) -> (r: Vec<Link>)
    requires
        dir.decodes(blob, dir.window().offset),
    ensures
        links_found(r@) == directory_links(blob, dir.window().offset, rom_size, rom_origin),
{
    let base = dir.source().offset();
    let ghost at = dir.window().offset;
    let root = ResolveContext { rom_size, directory_base: FlashOffset(0), rom_origin };
    let own = ResolveContext { rom_size, directory_base: base, rom_origin };
    let mode = dir.header().address_mode();
    let mut out: Vec<Link> = Vec::new();
    let mut i: usize = 0;
    assert(links_found(out@) =~= Seq::<Found>::empty());
    match dir {
        Directory::Combo(combo) => {
            while i < combo.entries.len()
                invariant
                    i <= combo.entries@.len(),
                    base.0 == at,
                    root == root_context(rom_size, rom_origin),
                    combo.decodes(blob, at),
                    links_found(out@) == record_links(blob, at, i as int, rom_size, rom_origin),
                decreases combo.entries@.len() - i,
            {
                assert(combo.entries@[i as int].decodes(
                    record_at(blob, at, DirectoryFamily::Combo, i as int),
                ));
                if let Ok(target) = AddressMode::PhysicalX86.resolve(combo.entries[i].pointer, root) {
                    let ghost before = out@;
                    let link = Link {
                        target,
                        provenance: DirectoryProvenance::ComboEntry { combo_offset: base, index: i },
                    };
                    out.push(link);
                    assert(links_found(out@) =~= links_found(before).push(link_found(link)));
                }
                i += 1;
            }
        },
        Directory::Psp(psp) => {
            while i < psp.entries.len()
                invariant
                    i <= psp.entries@.len(),
                    base.0 == at,
                    own == (ResolveContext { rom_size, directory_base: base, rom_origin }),
                    mode == directory_mode(psp.header.additional_info),
                    psp.decodes(blob, at),
                    links_found(out@) == record_links(blob, at, i as int, rom_size, rom_origin),
                decreases psp.entries@.len() - i,
            {
                assert(psp.entries@[i as int].decodes(
                    record_at(blob, at, DirectoryFamily::Psp, i as int),
                ));
                let entry = &psp.entries[i];
                if entry.entry_type.is_secondary_directory_pointer() {
                    let target = mode.resolve_with_entry(
                        entry.entry_address_mode(),
                        entry.offset,
                        own,
                    );
                    let ghost before = out@;
                    let link = Link {
                        target,
                        provenance: DirectoryProvenance::L2Pointer { parent_offset: base, index: i },
                    };
                    out.push(link);
                    assert(links_found(out@) =~= links_found(before).push(link_found(link)));
                }
                i += 1;
            }
        },
        Directory::Bios(bios) => {
            while i < bios.entries.len()
                invariant
                    i <= bios.entries@.len(),
                    base.0 == at,
                    own == (ResolveContext { rom_size, directory_base: base, rom_origin }),
                    mode == directory_mode(bios.header.additional_info),
                    bios.decodes(blob, at),
                    links_found(out@) == record_links(blob, at, i as int, rom_size, rom_origin),
                decreases bios.entries@.len() - i,
            {
                assert(bios.entries@[i as int].decodes(
                    record_at(blob, at, DirectoryFamily::Bios, i as int),
                ));
                let entry = &bios.entries[i];
                if entry.entry_type.is_secondary_directory_pointer() {
                    let target = mode.resolve_with_entry(
                        entry.entry_address_mode(),
                        entry.offset,
                        own,
                    );
                    let ghost before = out@;
                    let link = Link {
                        target,
                        provenance: DirectoryProvenance::L2Pointer { parent_offset: base, index: i },
                    };
                    out.push(link);
                    assert(links_found(out@) =~= links_found(before).push(link_found(link)));
                }
                i += 1;
            }
        },
    }
    out
}

/// Whether a directory at `at` is among `dirs`.
fn already_found(dirs: &Vec<DirectoryRef>, at: FlashOffset) -> (r: bool)
    ensures
        r == known(places(dirs@), at.0 as int),
{
    let mut i: usize = 0;
    while i < dirs.len()
        invariant
            i <= dirs@.len(),
            forall|j: int| 0 <= j < i ==> (#[trigger] places(dirs@)[j]).at != at.0,
        decreases dirs@.len() - i,
    {
        if dirs[i].directory.source().offset().0 == at.0 {
            assert(places(dirs@)[i as int].at == at.0);
            return true;
        }
        i += 1;
    }
    false
}

fn follow_all(
    blob: &SourceBytes,
    links: &Vec<Link>,
    out: &mut Vec<DirectoryRef>,
    work: &mut Vec<usize>,
)
    requires
        all_decode(old(out)@, blob@),
    ensures
        all_decode(final(out)@, blob@),
        walk_state(final(out)@, final(work)@) == followed_all(
            walk_state(old(out)@, old(work)@),
            blob@,
            links_found(links@),
        ),
{
    let ghost start = walk_state(out@, work@);
    let mut i: usize = 0;
    while i < links.len()
        invariant
            i <= links@.len(),
            all_decode(out@, blob@),
            walk_state(out@, work@) == followed_all(
                start,
                blob@,
                links_found(links@).take(i as int),
            ),
        decreases links@.len() - i,
    {
        let link = links[i];
        let ghost so_far = links_found(links@).take(i + 1);
        assert(so_far.drop_last() =~= links_found(links@).take(i as int));
        assert(so_far.last() == link_found(link));
        if let Ok(directory) = Directory::parse_at(blob, link.target) {
            if !already_found(out, link.target) {
                let ghost before = walk_state(out@, work@);
                let ghost dirs = out@;
                work.push(out.len());
                out.push(DirectoryRef { directory, provenance: link.provenance });
                assert(walk_state(out@, work@).found =~= before.found.push(link_found(link)));
                assert(walk_state(out@, work@).work =~= before.work.push(
                    before.found.len() as int,
                ));
                assert forall|k: int| 0 <= k < out@.len() implies (
                #[trigger] out@[k]).directory.decodes(
                    blob@,
                    out@[k].directory.window().offset,
                ) by {
                    if k < dirs.len() {
                        assert(out@[k] == dirs[k]);
                    }
                }
            }
        }
        i += 1;
    }
    assert(links_found(links@).take(i as int) =~= links_found(links@));
}

/// All directories that can be reached from `fet`, in the order in which they
/// are found: pointers that lead to no directory are passed over, and one that
/// several pointers lead to occurs once. The ROM's first byte stands at
/// `rom_origin` in the input.
pub fn walk_directories(
    blob: &SourceBytes,
    fet: &Fet,
    rom_size: RomSize,
    rom_origin: FlashOffset,
) -> (r: Vec<DirectoryRef>)
    ensures
        places(r@) == reached(blob@, fet.slots@, rom_size, rom_origin),
        all_decode(r@, blob@),
{
    let mut out: Vec<DirectoryRef> = Vec::new();
    let mut work: Vec<usize> = Vec::new();
    assert(walk_state(out@, work@) =~= (Walk { found: Seq::empty(), work: Seq::empty() }));
    let links = links_of_fet(fet, rom_size, rom_origin);
    follow_all(blob, &links, &mut out, &mut work);
    proof {
        let none = Walk { found: Seq::empty(), work: Seq::empty() };
        lemma_followed_all_sound(none, blob@, links_found(links@));
    }
    while work.len() > 0
        invariant
            all_decode(out@, blob@),
            sound(walk_state(out@, work@), blob@),
            finished(walk_state(out@, work@), blob@, rom_size, rom_origin).found == reached(
                blob@,
                fet.slots@,
                rom_size,
                rom_origin,
            ),
        decreases room(walk_state(out@, work@), blob@), work@.len(),
    {
        let ghost before = walk_state(out@, work@);
        let ghost popped = Walk { found: before.found, work: before.work.drop_last() };
        let top: usize = work.pop().unwrap();
        assert(before.work.last() == top);
        assert(before.work.last() == before.work[before.work.len() - 1]);
        assert(walk_state(out@, work@) =~= popped);
        assert(all_decode(out@, blob@) && top < out@.len());
        assert(before.found[top as int].at == out@[top as int].directory.window().offset);
        let links = links_of_directory(&out[top].directory, rom_size, rom_origin, Ghost(blob@));
        follow_all(blob, &links, &mut out, &mut work);
        proof {
            lemma_sound_is_bounded(before, blob@);
            lemma_followed_grows(popped, blob@, links_found(links@));
            lemma_followed_all_sound(popped, blob@, links_found(links@));
            assert(walk_state(out@, work@) == advanced(before, blob@, rom_size, rom_origin));
        }
    }
    out
}

} // verus!
