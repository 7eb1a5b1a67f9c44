//! Picking one entry of a ROM, by its indices or by its type.

use regex::{Regex, RegexBuilder};
use vstd::prelude::*;

use crate::address::{FlashOffset, RomSize};
use crate::directory::Directory;
use crate::entry::Entry;
use crate::error::{parse_error_text, ParseError};
use crate::inventory::{
    complete, entry_count, parse_all, parsed_as, Item,
};
use crate::source::{equal_bytes, SourceBytes, Window};
use crate::text::{dec, group_text, push_dec};
use crate::types::{readable_type, type_text};
use crate::walk::DirectoryRef;

verus! {

/// `regex::Regex`, a compiled pattern.
#[verifier::external_type_specification]
#[verifier::external_body]
pub struct ExRegex(regex::Regex);

/// The pattern that was compiled, without regard to case.
pub uninterp spec fn pattern_of(re: regex::Regex) -> Seq<char>;

/// Why a pattern does not compile; `None` when it does.
pub uninterp spec fn pattern_fault(pattern: Seq<char>) -> Option<Seq<char>>;

/// Whether a pattern matches somewhere in a text, without regard to case.
pub uninterp spec fn pattern_matches(pattern: Seq<char>, text: Seq<char>) -> bool;

/// `regex::RegexBuilder::build` with `case_insensitive(true)`: the compiled
/// pattern, or the text of the error.
#[verifier::external_body]
fn compile_pattern(pattern: &str) -> (r: Result<Regex, String>)
    ensures
        match r {
            Ok(re) => pattern_fault(pattern@) is None && pattern_of(re) == pattern@,
            Err(text) => pattern_fault(pattern@) == Some(text@),
        },
{
    RegexBuilder::new(pattern).case_insensitive(true).build().map_err(|e| e.to_string())
}

/// `regex::Regex::is_match` of a pattern compiled without regard to case:
/// whether it matches somewhere in the text.
#[verifier::external_body]
fn is_match(re: &Regex, text: &str) -> (r: bool)
    ensures
        r == pattern_matches(pattern_of(*re), text@),
{
    re.is_match(text)
}

/// Why there is no entry at a place.
#[derive(Clone, Debug, PartialEq, Eq)]
pub enum PlaceError {
    /// There is no directory with this index.
    NoDirectory { index: usize },
    /// The directory with this index is a combo directory.
    ComboDirectory { index: usize },
    /// The entry could not be parsed.
    Parse(ParseError),
}

/// One-line description of an error.
pub open spec fn place_error_text(e: PlaceError) -> Seq<char> {
    match e {
        PlaceError::NoDirectory { index } => "directory index "@ + (dec(index as nat)
            + " out of range"@),
        PlaceError::ComboDirectory { index } => "directory "@ + (dec(index as nat)
            + " is a combo directory; entries cannot be extracted directly"@),
        PlaceError::Parse(inner) => parse_error_text(inner),
    }
}

impl PlaceError {
    pub fn text(&self) -> (r: String)
        ensures
            r@ == place_error_text(*self),
    {
        broadcast use group_text;

        let mut out = String::new();
        match self {
            PlaceError::NoDirectory { index } => {
                out.append("directory index ");
                push_dec(*index as u64, &mut out);
                out.append(" out of range");
            },
            PlaceError::ComboDirectory { index } => {
                out.append("directory ");
                push_dec(*index as u64, &mut out);
                out.append(" is a combo directory; entries cannot be extracted directly");
            },
            PlaceError::Parse(inner) => {
                let text = inner.text();
                out.append(text.as_str());
            },
        }
        out
    }
}

/// Whether `r` is what looking for entry `file` of directory `dir` comes to.
pub open spec fn entry_found(
    dirs: Seq<DirectoryRef>,
    dir: usize,
    file: usize,
    blob: Window,
    rom_size: RomSize,
    rom_origin: FlashOffset,
    r: Result<Entry, PlaceError>,
) -> bool {
    if dir >= dirs.len() {
        r == Err::<Entry, PlaceError>(PlaceError::NoDirectory { index: dir })
    } else if dirs[dir as int].directory is Combo {
        r == Err::<Entry, PlaceError>(PlaceError::ComboDirectory { index: dir })
    } else if file >= entry_count(dirs[dir as int].directory) {
        r == Err::<Entry, PlaceError>(
            PlaceError::Parse(
                ParseError::EntryIndexOutOfRange {
                    offset: FlashOffset(dirs[dir as int].directory.window().offset as u64),
                    index: file,
                    count: entry_count(dirs[dir as int].directory) as usize,
                },
            ),
        )
    } else {
        match r {
            Ok(entry) => parsed_as(
                dirs[dir as int].directory,
                file as int,
                blob,
                rom_size,
                rom_origin,
                Ok(entry),
            ),
            Err(PlaceError::Parse(e)) => parsed_as(
                dirs[dir as int].directory,
                file as int,
                blob,
                rom_size,
                rom_origin,
                Err(e),
            ),
            Err(_) => false,
        }
    }
}

/// Parse entry `file` of directory `dir`.
pub fn parse_entry_at(
    blob: &SourceBytes,
    directories: &[DirectoryRef],
    dir: usize,
    file: usize,
    rom_size: RomSize,
    rom_origin: FlashOffset,
) -> (r: Result<Entry, PlaceError>)
    ensures
        entry_found(directories@, dir, file, blob@, rom_size, rom_origin, r),
{
    if dir >= directories.len() {
        return Err(PlaceError::NoDirectory { index: dir });
    }
    let parsed = match &directories[dir].directory {
        Directory::Psp(d) => Entry::parse_psp(blob, d, file, rom_size, rom_origin),
        Directory::Bios(d) => Entry::parse_bios(blob, d, file, rom_size, rom_origin),
        Directory::Combo(_) => {
            return Err(PlaceError::ComboDirectory { index: dir });
        },
    };
    match parsed {
        Ok(entry) => Ok(entry),
        Err(e) => Err(PlaceError::Parse(e)),
    }
}

/// Why no entry was picked by its type.
#[derive(Clone, Debug, PartialEq, Eq)]
pub enum MatchError {
    /// The pattern does not compile, for the reason given.
    BadPattern(String),
    NoMatch,
    /// Several entries match and their bodies are not all the same.
    Differing { count: usize },
}

/// An entry that was picked by its type.
pub struct Picked {
    pub entry: Entry,
    /// How many entries match; their bodies are all the same.
    pub count: usize,
}

/// Whether the bodies of some entries are all the same.
pub open spec fn same_bodies(entries: Seq<Entry>) -> bool {
    forall|i: int|
        0 <= i < entries.len() ==> (#[trigger] entries[i]).body@.bytes == entries[0].body@.bytes
}

/// Pick the first of the entries that match, unless their bodies differ.
pub fn pick_match(matches: Vec<Entry>) -> (r: Result<Picked, MatchError>)
    ensures
        match r {
            Ok(picked) => matches@.len() > 0 && same_bodies(matches@) && picked.entry
                == matches@[0] && picked.count == matches@.len(),
            Err(MatchError::NoMatch) => matches@.len() == 0,
            Err(MatchError::Differing { count }) => !same_bodies(matches@) && count
                == matches@.len(),
            Err(MatchError::BadPattern(_)) => false,
        },
{
    let count: usize = matches.len();
    if count == 0 {
        return Err(MatchError::NoMatch);
    }
    let mut i: usize = 1;
    while i < count
        invariant
            1 <= i <= count,
            count == matches@.len(),
            forall|j: int|
                0 <= j < i ==> (#[trigger] matches@[j]).body@.bytes == matches@[0].body@.bytes,
        decreases count - i,
    {
        if !equal_bytes(matches[i].body.as_bytes(), matches[0].body.as_bytes()) {
            assert(!same_bodies(matches@));
            return Err(MatchError::Differing { count });
        }
        i += 1;
    }
    let mut matches = matches;
    let entry = matches.remove(0);
    Ok(Picked { entry, count })
}

/// Whether an item was parsed and its type matches a pattern.
pub open spec fn type_matches(item: Item, dirs: Seq<DirectoryRef>, pattern: Seq<char>) -> bool {
    item.entry matches Ok(entry) && pattern_matches(
        pattern,
        type_text(entry.record.kind().0, dirs[item.directory_index as int].directory is Bios),
    )
}

/// The entries of the first `n` items whose type matches a pattern.
pub open spec fn matching(
    items: Seq<Item>,
    dirs: Seq<DirectoryRef>,
    pattern: Seq<char>,
    n: int,
) -> Seq<Entry>
    decreases n,
{
    if n <= 0 {
        Seq::empty()
    } else if type_matches(items[n - 1], dirs, pattern) {
        matching(items, dirs, pattern, n - 1).push(items[n - 1].entry->Ok_0)
    } else {
        matching(items, dirs, pattern, n - 1)
    }
}

/// Pick the entry whose type, as text, matches a pattern. Several entries may
/// match when their bodies are all the same.
pub fn pick_by_type(
    blob: &SourceBytes,
    directories: &[DirectoryRef],
    pattern: &str,
    rom_size: RomSize,
    rom_origin: FlashOffset,
) -> (r: Result<Picked, MatchError>)
    ensures
        match pattern_fault(pattern@) {
            Some(fault) => r matches Err(MatchError::BadPattern(text)) && text@ == fault,
            None => exists|items: Seq<Item>|
                {
                    let found = matching(items, directories@, pattern@, items.len() as int);
                    &&& #[trigger] complete(items, directories@, blob@, rom_size, rom_origin)
                    &&& match r {
                        Ok(picked) => found.len() > 0 && same_bodies(found) && picked.entry
                            == found[0] && picked.count == found.len(),
                        Err(MatchError::NoMatch) => found.len() == 0,
                        Err(MatchError::Differing { count }) => !same_bodies(found) && count
                            == found.len(),
                        Err(MatchError::BadPattern(_)) => false,
                    }
                },
        },
{
    let re = match compile_pattern(pattern) {
        Ok(re) => re,
        Err(text) => {
            return Err(MatchError::BadPattern(text));
        },
    };
    let mut items = parse_all(blob, directories, rom_size, rom_origin);
    let ghost all = items@;
    let total: usize = items.len();
    proof {
        crate::inventory::lemma_places(directories@, directories@.len() as int);
        assert(complete(all, directories@, blob@, rom_size, rom_origin));
    }
    let mut found: Vec<Entry> = Vec::new();
    let mut n: usize = 0;
    while n < total
        invariant
            n <= total,
            total == all.len(),
            items@ == all.skip(n as int),
            pattern_of(re) == pattern@,
            forall|k: int|
                0 <= k < all.len() ==> (#[trigger] all[k]).directory_index < directories@.len(),
            found@ == matching(all, directories@, pattern@, n as int),
        decreases total - n,
    {
        let item = items.remove(0);
        assert(item == all[n as int]);
        assert(items@ =~= all.skip(n + 1));
        let is_bios = directories[item.directory_index].directory.is_bios();
        if let Ok(entry) = item.entry {
            let name = readable_type(entry.entry_type(), is_bios);
            if is_match(&re, name.as_str()) {
                found.push(entry);
            }
        }
        n += 1;
    }
    pick_match(found)
}

/// What picking by type looks at: the entries of all items that were parsed and
/// whose type, named as in their directory, matches. The first of them is that of
/// the first item that does, and there is none when no item does.
pub proof fn lemma_matching(items: Seq<Item>, dirs: Seq<DirectoryRef>, pattern: Seq<char>, n: int)
    requires
        0 <= n <= items.len(),
    ensures
        ({
            let found = matching(items, dirs, pattern, n);
            let suits = |k: int| items[k].entry matches Ok(entry) && pattern_matches(
                pattern,
                type_text(
                    entry.record.kind().0,
                    dirs[items[k].directory_index as int].directory is Bios,
                ),
            );
            &&& forall|e: Entry| #[trigger]
                found.contains(e) <==> exists|k: int|
                    0 <= k < n && #[trigger] suits(k) && items[k].entry == Ok::<Entry, ParseError>(
                        e,
                    )
            &&& found.len() > 0 ==> exists|k: int|
                0 <= k < n && #[trigger] suits(k) && items[k].entry == Ok::<Entry, ParseError>(
                    found[0],
                ) && forall|j: int| 0 <= j < k ==> !#[trigger] suits(j)
            &&& found.len() <= n
        }),
    decreases n,
{
    if n > 0 {
        lemma_matching(items, dirs, pattern, n - 1);
        let suits = |k: int| items[k].entry matches Ok(entry) && pattern_matches(
            pattern,
            type_text(
                entry.record.kind().0,
                dirs[items[k].directory_index as int].directory is Bios,
            ),
        );
        let before = matching(items, dirs, pattern, n - 1);
        let found = matching(items, dirs, pattern, n);
        assert(suits(n - 1) <==> type_matches(items[n - 1], dirs, pattern));
        assert forall|e: Entry| #[trigger] found.contains(e) <==> exists|k: int|
            0 <= k < n && #[trigger] suits(k) && items[k].entry == Ok::<Entry, ParseError>(e) by {
            if found.contains(e) {
                let m = choose|m: int| 0 <= m < found.len() && found[m] == e;
                if m < before.len() {
                    assert(before[m] == e);
                    assert(before.contains(e));
                } else {
                    assert(suits(n - 1));
                }
            }
            if exists|k: int|
                0 <= k < n && #[trigger] suits(k) && items[k].entry == Ok::<Entry, ParseError>(
                    e,
                ) {
                let k = choose|k: int|
                    0 <= k < n && #[trigger] suits(k) && items[k].entry == Ok::<Entry, ParseError>(
                        e,
                    );
                if k < n - 1 {
                    assert(before.contains(e));
                    let m = choose|m: int| 0 <= m < before.len() && before[m] == e;
                    assert(found[m] == e);
                } else {
                    assert(found[before.len() as int] == e);
                }
            }
        }
        if found.len() > 0 {
            if before.len() > 0 {
                assert(found[0] == before[0]);
            } else {
                assert(suits(n - 1));
                assert forall|j: int| 0 <= j < n - 1 implies !#[trigger] suits(j) by {
                    if suits(j) {
                        assert(before.contains(items[j].entry->Ok_0));
                    }
                }
            }
        }
    }
}

/// Entries count as the same only when any two of them have the same bytes.
pub proof fn lemma_same_bodies(entries: Seq<Entry>)
    ensures
        same_bodies(entries) <==> forall|i: int, j: int|
            0 <= i < entries.len() && 0 <= j < entries.len() ==> (
            #[trigger] entries[i]).body@.bytes =~= (#[trigger] entries[j]).body@.bytes,
{
}

} // verus!
