//! The commands on an opened ROM, short of reading and writing files.

use rsa::RsaPrivateKey;
use vstd::prelude::*;

use crate::address::{FlashOffset, RomSize};
use crate::cli::EntrySelector;
use crate::directory::Directory;
use crate::entry::Entry;
use crate::error::{parse_error_text, ParseError};
use crate::fet::{Fet, FetSlotRecord};
use crate::inventory::{complete, context_in, entry_count, mode_in, record_in, Item};
use crate::list::{
    list_default, list_json, list_verbose, lists, metrics_text, render_metrics, DirectoryListing,
    RomListing,
};
use crate::load::OpenedRom;
use crate::pick::{
    entry_found, matching, parse_entry_at, pattern_fault, pick_by_type, same_bodies, MatchError,
    Picked, PlaceError,
};
use crate::replace::{
    record_replaced, replace_bios_entry_body, replace_error_text, replace_psp_entry_body,
    ReplaceError,
};
use crate::sign::{sign_entry, sign_fault_text, signed_anew, SignError};
use crate::source::{copy_of, SourceBytes, Window};
use crate::text::{dec, group_text, push_dec};
use crate::walk::{all_decode, places, reached, walk_directories, DirectoryRef};
use crate::writer::{lemma_clean_image, BlobEditor, Edits};

verus! {

/// An input without patches.
pub open spec fn unedited(blob: Window) -> Edits {
    Edits { original: blob, patches: Seq::empty() }
}

/// What a listing is shown as.
pub enum ListOutput {
    Text(String),
    Records(Vec<DirectoryListing>),
}

/// Which listing is wanted.
#[derive(Copy, Clone, Debug, PartialEq, Eq, Structural)]
pub struct ListOptions {
    pub json: bool,
    pub key_tree: bool,
    pub metrics: bool,
    pub verbose: bool,
}

/// Whether `rom` is the listing of an opened ROM.
pub open spec fn shows(rom: RomListing<'_>, opened: OpenedRom, rom_index: usize) -> bool {
    &&& rom.index == rom_index
    &&& *rom.blob == opened.blob
    &&& rom.rom_size == opened.rom_size
    &&& rom.rom_origin == opened.rom_origin
    &&& *rom.fet == opened.fet
    &&& rom.directories@ == opened.directories@
}

/// Whether `records` are those of a ROM's directories.
pub open spec fn records_of(
    records: Seq<DirectoryListing>,
    rom: RomListing<'_>,
    verbose: bool,
) -> bool {
    &&& records.len() == rom.directories@.len()
    &&& forall|d: int|
        0 <= d < records.len() ==> (#[trigger] records[d]).describes(
            d,
            rom.directories@[d].directory,
            rom,
            verbose,
        )
}

/// What is printed when a tree of keys is asked for.
pub open spec fn key_tree_notice() -> Seq<char> {
    "key-tree printing is not yet implemented (psptool-ops cert-tree wiring is a follow-up)\n"@
}

/// List a ROM: a notice for a tree of keys, a few numbers, records or tables,
/// whichever of these is asked for first.
pub fn run_list(opened: &OpenedRom, rom_index: usize, options: ListOptions) -> (r: ListOutput)
    ensures
        if options.key_tree {
            r matches ListOutput::Text(text) && text@ == key_tree_notice()
        } else if options.metrics {
            r matches ListOutput::Text(text) && text@ == metrics_text(
                opened.directories@,
                opened.rom_size,
            )
        } else if options.json {
            r matches ListOutput::Records(records) && exists|rom: RomListing<'_>| #[trigger]
                shows(rom, *opened, rom_index) && records_of(records@, rom, options.verbose)
        } else {
            r matches ListOutput::Text(text) && exists|rom: RomListing<'_>| #[trigger]
                shows(rom, *opened, rom_index) && lists(text@, rom, options.verbose)
        },
{
    broadcast use group_text;

    if options.key_tree {
        let mut text = String::new();
        text.append(
            "key-tree printing is not yet implemented (psptool-ops cert-tree wiring is a follow-up)\n",
        );
        return ListOutput::Text(text);
    }
    if options.metrics {
        return ListOutput::Text(render_metrics(opened.directories.as_slice(), opened.rom_size));
    }
    let rom = RomListing {
        index: rom_index,
        blob: &opened.blob,
        rom_size: opened.rom_size,
        rom_origin: opened.rom_origin,
        fet: &opened.fet,
        directories: opened.directories.as_slice(),
    };
    assert(shows(rom, *opened, rom_index));
    if options.json {
        ListOutput::Records(list_json(&rom, options.verbose))
    } else if options.verbose {
        ListOutput::Text(list_verbose(&rom))
    } else {
        ListOutput::Text(list_default(&rom))
    }
}

/// Why no entry was selected.
#[derive(Clone, Debug, PartialEq, Eq)]
pub enum SelectError {
    Place(PlaceError),
    Match(MatchError),
}

/// Whether `r` is what looking for the entries whose type matches a pattern
/// comes to.
pub open spec fn type_picked(
    opened: OpenedRom,
    pattern: Seq<char>,
    r: Result<Picked, SelectError>,
) -> bool {
    match pattern_fault(pattern) {
        Some(fault) => r matches Err(SelectError::Match(MatchError::BadPattern(text))) && text@
            == fault,
        None => exists|items: Seq<Item>|
            {
                let found = matching(items, opened.directories@, pattern, items.len() as int);
                &&& #[trigger] complete(
                    items,
                    opened.directories@,
                    opened.blob@,
                    opened.rom_size,
                    opened.rom_origin,
                )
                &&& match r {
                    Ok(picked) => found.len() > 0 && same_bodies(found) && picked.entry == found[0]
                        && picked.count == found.len(),
                    Err(SelectError::Match(MatchError::NoMatch)) => found.len() == 0,
                    Err(SelectError::Match(MatchError::Differing { count })) => !same_bodies(found)
                        && count == found.len(),
                    _ => false,
                }
            },
    }
}

/// The one entry that a selector stands for.
pub fn resolve_single(opened: &OpenedRom, selector: &EntrySelector) -> (r: Result<
    Picked,
    SelectError,
>)
    ensures
        match selector {
            EntrySelector::Indices { dir, file } => match r {
                Ok(picked) => picked.count == 1 && entry_found(
                    opened.directories@,
                    *dir,
                    *file,
                    opened.blob@,
                    opened.rom_size,
                    opened.rom_origin,
                    Ok(picked.entry),
                ),
                Err(SelectError::Place(e)) => entry_found(
                    opened.directories@,
                    *dir,
                    *file,
                    opened.blob@,
                    opened.rom_size,
                    opened.rom_origin,
                    Err(e),
                ),
                Err(_) => false,
            },
            EntrySelector::Regex(pattern) => type_picked(*opened, pattern@, r),
        },
{
    match selector {
        EntrySelector::Indices { dir, file } => match parse_entry_at(
            &opened.blob,
            opened.directories.as_slice(),
            *dir,
            *file,
            opened.rom_size,
            opened.rom_origin,
        ) {
            Ok(entry) => Ok(Picked { entry, count: 1 }),
            Err(e) => Err(SelectError::Place(e)),
        },
        EntrySelector::Regex(pattern) => match pick_by_type(
            &opened.blob,
            opened.directories.as_slice(),
            pattern.as_str(),
            opened.rom_size,
            opened.rom_origin,
        ) {
            Ok(picked) => Ok(picked),
            Err(e) => Err(SelectError::Match(e)),
        },
    }
}

/// Why an entry was not replaced or signed.
#[derive(Debug)]
pub enum EditError {
    NoDirectory { index: usize },
    /// After the replacement there is no directory with this index.
    NoDirectoryAfterReplace { index: usize },
    ReplaceInCombo,
    TargetInCombo,
    SignInCombo,
    /// The entry to be signed has no header.
    NotSignable,
    Parse(ParseError),
    Replace(ReplaceError),
    Sign(SignError),
}

/// One-line description of an error.
pub open spec fn edit_error_text(e: EditError) -> Seq<char> {
    match e {
        EditError::NoDirectory { index } => "directory index "@ + (dec(index as nat)
            + " out of range"@),
        EditError::NoDirectoryAfterReplace { index } => "directory index "@ + (dec(index as nat)
            + " out of range after replace"@),
        EditError::ReplaceInCombo => "cannot replace entries in a combo directory"@,
        EditError::TargetInCombo => "combo directory cannot host replace target"@,
        EditError::SignInCombo => "cannot sign entries in a combo directory"@,
        EditError::NotSignable => "target entry is not a HeaderFile-class signed entry"@,
        EditError::Parse(inner) => parse_error_text(inner),
        EditError::Replace(inner) => replace_error_text(inner),
        EditError::Sign(inner) => sign_fault_text(inner@),
    }
}

impl EditError {
    pub fn text(&self) -> (r: String)
        ensures
            r@ == edit_error_text(*self),
    {
        broadcast use group_text;

        let mut out = String::new();
        match self {
            EditError::NoDirectory { index } => {
                out.append("directory index ");
                push_dec(*index as u64, &mut out);
                out.append(" out of range");
            },
            EditError::NoDirectoryAfterReplace { index } => {
                out.append("directory index ");
                push_dec(*index as u64, &mut out);
                out.append(" out of range after replace");
            },
            EditError::ReplaceInCombo => out.append("cannot replace entries in a combo directory"),
            EditError::TargetInCombo => out.append("combo directory cannot host replace target"),
            EditError::SignInCombo => out.append("cannot sign entries in a combo directory"),
            EditError::NotSignable => out.append(
                "target entry is not a HeaderFile-class signed entry",
            ),
            EditError::Parse(inner) => {
                let text = inner.text();
                out.append(text.as_str());
            },
            EditError::Replace(inner) => {
                let text = inner.text();
                out.append(text.as_str());
            },
            EditError::Sign(inner) => {
                let text = inner.text();
                out.append(text.as_str());
            },
        }
        out
    }
}

/// What replacing entry `file` of a directory comes to: an image, or why there
/// is none.
pub open spec fn replaced_in(
    blob: Window,
    dir: Directory,
    file: usize,
    rom_size: RomSize,
    rom_origin: FlashOffset,
    body: Seq<u8>,
    r: Result<Vec<u8>, EditError>,
) -> bool {
    if dir is Combo {
        r == Err::<Vec<u8>, EditError>(EditError::ReplaceInCombo)
    } else if file >= entry_count(dir) {
        r == Err::<Vec<u8>, EditError>(
            EditError::Replace(
                ReplaceError::Parse(
                    ParseError::EntryIndexOutOfRange {
                        offset: FlashOffset(dir.window().offset as u64),
                        index: file,
                        count: entry_count(dir) as usize,
                    },
                ),
            ),
        )
    } else {
        exists|after: Edits, outcome: Result<(), ReplaceError>|
            {
                &&& #[trigger] record_replaced(
                    unedited(blob),
                    after,
                    record_in(dir, file as int),
                    mode_in(dir),
                    context_in(dir, rom_size, rom_origin),
                    body,
                    outcome,
                )
                &&& match outcome {
                    Ok(_) => r matches Ok(image) && after.renders(image@),
                    Err(e) => r == Err::<Vec<u8>, EditError>(EditError::Replace(e)),
                }
            }
    }
}

/// The image with the body of entry `file` of directory `dir` replaced, or the
/// input as it is when there is no new body.
pub fn replace_in_rom(
    opened: &OpenedRom,
    dir: usize,
    file: usize,
    new_body: Option<&[u8]>,
) -> (r: Result<Vec<u8>, EditError>)
    requires
        all_decode(opened.directories@, opened.blob@),
    ensures
        if dir >= opened.directories@.len() {
            r == Err::<Vec<u8>, EditError>(EditError::NoDirectory { index: dir })
        } else {
            match new_body {
                None => r matches Ok(image) && image@ == opened.blob@.bytes,
                Some(body) => replaced_in(
                    opened.blob@,
                    opened.directories@[dir as int].directory,
                    file,
                    opened.rom_size,
                    opened.rom_origin,
                    body@,
                    r,
                ),
            }
        },
{
    if dir >= opened.directories.len() {
        return Err(EditError::NoDirectory { index: dir });
    }
    let mut editor = BlobEditor::from_blob(opened.blob.clone());
    let ghost before = editor@;
    assert(before == unedited(opened.blob@));
    if let Some(body) = new_body {
        let directory = &opened.directories[dir].directory;
        assert(directory.decodes(opened.blob@, directory.window().offset));
        let outcome = match directory {
            Directory::Psp(p) => {
                assert(file < p.entries@.len() ==> p.entries@[file as int].source@.bytes.len()
                    == 16);
                replace_psp_entry_body(
                    &mut editor,
                    p,
                    file,
                    opened.rom_size,
                    opened.rom_origin,
                    body,
                )
            },
            Directory::Bios(b) => {
                assert(file < b.entries@.len() ==> b.entries@[file as int].source@.bytes.len()
                    == 24);
                replace_bios_entry_body(
                    &mut editor,
                    b,
                    file,
                    opened.rom_size,
                    opened.rom_origin,
                    body,
                )
            },
            Directory::Combo(_) => {
                return Err(EditError::ReplaceInCombo);
            },
        };
        let ghost after = editor@;
        assert(file < entry_count(*directory) ==> record_replaced(
            unedited(opened.blob@),
            after,
            record_in(*directory, file as int),
            mode_in(*directory),
            context_in(*directory, opened.rom_size, opened.rom_origin),
            body@,
            outcome,
        ));
        return match outcome {
            Ok(_) => Ok(editor.serialize()),
            Err(e) => Err(EditError::Replace(e)),
        };
    }
    let image = editor.serialize();
    proof {
        lemma_clean_image(editor@, image@);
    }
    Ok(image)
}

/// An image, and whether an entry was signed in there.
pub struct Resigned {
    pub image: Vec<u8>,
    pub signed: bool,
}

/// What signing an entry of an unedited input comes to.
pub open spec fn signed_in(
    blob: Window,
    entry: Entry,
    key: RsaPrivateKey,
    r: Result<Vec<u8>, SignError>,
) -> bool {
    exists|after: Edits, outcome: Result<(), SignError>|
        {
            &&& #[trigger] signed_anew(unedited(blob), after, entry, key, None, outcome)
            &&& match outcome {
                Ok(_) => r matches Ok(image) && after.renders(image@),
                Err(e) => r == Err::<Vec<u8>, SignError>(e),
            }
        }
}

/// The image with an entry signed anew.
pub fn sign_image(blob: &SourceBytes, entry: &Entry, key: &RsaPrivateKey) -> (r: Result<
    Vec<u8>,
    SignError,
>)
    ensures
        signed_in(blob@, *entry, *key, r),
{
    let mut editor = BlobEditor::from_blob(blob.clone());
    let ghost before = editor@;
    assert(before == unedited(blob@));
    let outcome = sign_entry(&mut editor, entry, key, None);
    let ghost after = editor@;
    assert(signed_anew(unedited(blob@), after, *entry, *key, None, outcome));
    match outcome {
        Ok(_) => Ok(editor.serialize()),
        Err(e) => Err(e),
    }
}

/// What signing the entry that was found comes to, for `image`.
pub open spec fn resigned(
    image: Seq<u8>,
    found: Result<Entry, PlaceError>,
    key: RsaPrivateKey,
    r: Result<Resigned, EditError>,
) -> bool {
    match found {
        Err(PlaceError::NoDirectory { index }) => r == Err::<Resigned, EditError>(
            EditError::NoDirectoryAfterReplace { index },
        ),
        Err(PlaceError::ComboDirectory { .. }) => r == Err::<Resigned, EditError>(
            EditError::TargetInCombo,
        ),
        Err(PlaceError::Parse(e)) => r == Err::<Resigned, EditError>(EditError::Parse(e)),
        Ok(entry) => if entry.class.head() is None {
            r matches Ok(done) && !done.signed && done.image@ == image
        } else {
            match r {
                Ok(done) => done.signed && signed_in(
                    Window { bytes: image, offset: 0 },
                    entry,
                    key,
                    Ok(done.image),
                ),
                Err(EditError::Sign(e)) => signed_in(
                    Window { bytes: image, offset: 0 },
                    entry,
                    key,
                    Err(e),
                ),
                Err(_) => false,
            }
        },
    }
}

/// What looking for entry `file` of directory `dir` comes to, when the
/// directories are those that the slots of a table lead to.
pub open spec fn found_anew(
    blob: Window,
    slots: Seq<FetSlotRecord>,
    rom_size: RomSize,
    rom_origin: FlashOffset,
    dir: usize,
    file: usize,
    found: Result<Entry, PlaceError>,
) -> bool {
    exists|dirs: Seq<DirectoryRef>|
        {
            &&& #[trigger] all_decode(dirs, blob)
            &&& places(dirs) == reached(blob, slots, rom_size, rom_origin)
            &&& entry_found(dirs, dir, file, blob, rom_size, rom_origin, found)
        }
}

/// Sign entry `file` of directory `dir` of an image whose table is `fet`. The
/// directories are looked up anew. An entry without a header is left as it is.
pub fn resign(
    image: Vec<u8>,
    fet: &Fet,
    rom_size: RomSize,
    rom_origin: FlashOffset,
    dir: usize,
    file: usize,
    key: &RsaPrivateKey,
) -> (r: Result<Resigned, EditError>)
    ensures
        exists|found: Result<Entry, PlaceError>| #[trigger]
            found_anew(
                Window { bytes: image@, offset: 0 },
                fet.slots@,
                rom_size,
                rom_origin,
                dir,
                file,
                found,
            ) && resigned(image@, found, *key, r),
{
    let blob = SourceBytes::from_blob(image);
    let directories = walk_directories(&blob, fet, rom_size, rom_origin);
    let found = parse_entry_at(
        &blob,
        directories.as_slice(),
        dir,
        file,
        rom_size,
        rom_origin,
    );
    let ghost result = found;
    assert(found_anew(blob@, fet.slots@, rom_size, rom_origin, dir, file, result)) by {
        assert(all_decode(directories@, blob@));
    }
    let entry = match found {
        Ok(entry) => entry,
        Err(PlaceError::NoDirectory { index }) => {
            return Err(EditError::NoDirectoryAfterReplace { index });
        },
        Err(PlaceError::ComboDirectory { .. }) => {
            return Err(EditError::TargetInCombo);
        },
        Err(PlaceError::Parse(e)) => {
            return Err(EditError::Parse(e));
        },
    };
    if entry.class.header().is_none() {
        return Ok(Resigned { image: copy_of(blob.as_bytes()), signed: false });
    }
    match sign_image(&blob, &entry, key) {
        Ok(image) => Ok(Resigned { image, signed: true }),
        Err(e) => Err(EditError::Sign(e)),
    }
}

/// What looking for an entry to be signed comes to.
pub open spec fn signable_found(
    found: Result<Entry, PlaceError>,
    r: Result<Entry, EditError>,
) -> bool {
    match found {
        Err(PlaceError::NoDirectory { index }) => r == Err::<Entry, EditError>(
            EditError::NoDirectory { index },
        ),
        Err(PlaceError::ComboDirectory { .. }) => r == Err::<Entry, EditError>(
            EditError::SignInCombo,
        ),
        Err(PlaceError::Parse(e)) => r == Err::<Entry, EditError>(EditError::Parse(e)),
        Ok(entry) => if entry.class.head() is None {
            r == Err::<Entry, EditError>(EditError::NotSignable)
        } else {
            r == Ok::<Entry, EditError>(entry)
        },
    }
}

/// Entry `file` of directory `dir`, if it can be signed.
pub fn entry_to_sign(opened: &OpenedRom, dir: usize, file: usize) -> (r: Result<Entry, EditError>)
    ensures
        exists|found: Result<Entry, PlaceError>| #[trigger]
            entry_found(
                opened.directories@,
                dir,
                file,
                opened.blob@,
                opened.rom_size,
                opened.rom_origin,
                found,
            ) && signable_found(found, r),
{
    let found = parse_entry_at(
        &opened.blob,
        opened.directories.as_slice(),
        dir,
        file,
        opened.rom_size,
        opened.rom_origin,
    );
    let ghost result = found;
    assert(entry_found(
        opened.directories@,
        dir,
        file,
        opened.blob@,
        opened.rom_size,
        opened.rom_origin,
        result,
    ));
    match found {
        Err(PlaceError::NoDirectory { index }) => Err(EditError::NoDirectory { index }),
        Err(PlaceError::ComboDirectory { .. }) => Err(EditError::SignInCombo),
        Err(PlaceError::Parse(e)) => Err(EditError::Parse(e)),
        Ok(entry) => {
            if entry.class.header().is_none() {
                Err(EditError::NotSignable)
            } else {
                Ok(entry)
            }
        },
    }
}

/// An entry is found exactly when its directory exists and is not a combo
/// directory, the directory has a record with its index, and the record's body
/// lies in the input.
pub proof fn lemma_when_an_entry_is_found(
    dirs: Seq<DirectoryRef>,
    dir: usize,
    file: usize,
    blob: Window,
    rom_size: RomSize,
    rom_origin: FlashOffset,
    r: Result<Entry, PlaceError>,
)
    requires
        entry_found(dirs, dir, file, blob, rom_size, rom_origin, r),
    ensures
        r is Ok <==> {
            &&& dir < dirs.len()
            &&& !(dirs[dir as int].directory is Combo)
            &&& file < entry_count(dirs[dir as int].directory)
            &&& crate::entry::body_of(
                record_in(dirs[dir as int].directory, file as int),
                mode_in(dirs[dir as int].directory),
                context_in(dirs[dir as int].directory, rom_size, rom_origin),
                blob,
            ) is Some
        },
        r matches Ok(entry) ==> entry.record.same_as(
            record_in(dirs[dir as int].directory, file as int),
        ),
{
}

/// What signing comes to for an image: an entry without a header leaves it as it
/// is; any other gives an image of the same length that differs in the signature
/// of the entry alone.
pub proof fn lemma_resigned_image(
    image: Seq<u8>,
    entry: Entry,
    key: RsaPrivateKey,
    done: Resigned,
)
    requires
        resigned(
            image,
            Ok::<Entry, PlaceError>(entry),
            key,
            Ok::<Resigned, EditError>(done),
        ),
    ensures
        done.signed <==> entry.class is Header || entry.class is KeyStore,
        !done.signed ==> done.image@ == image,
        done.signed ==> {
            let room = crate::sign::signature_window(entry);
            &&& done.image@.len() == image.len()
            &&& forall|i: int|
                0 <= i < image.len() && !(room.offset <= i < room.end())
                    ==> #[trigger] done.image@[i] == image[i]
        },
{
    if done.signed {
        let blob = Window { bytes: image, offset: 0 };
        let before = unedited(blob);
        let (after, outcome) = choose|after: Edits, outcome: Result<(), SignError>|
            {
                &&& #[trigger] signed_anew(before, after, entry, key, None, outcome)
                &&& match outcome {
                    Ok(_) => after.renders(done.image@),
                    Err(e) => false,
                }
            };
        let message = crate::sign::request(
            entry,
            crate::crypto::bit_length(crate::crypto::signing_modulus_of(key)),
            None,
        )->Ok_0;
        let signature = choose|signature: Seq<u8>|
            #![trigger crate::sign::placed(before, after, entry, signature, outcome)]
            entry.class.head()->Some_0.accepts(
                crate::crypto::signing_modulus_of(key),
                crate::crypto::signing_exponent_of(key),
                message,
                signature,
            ) && signature.len() == crate::sign::signature_window(entry).bytes.len()
                && crate::sign::placed(before, after, entry, signature, outcome);
        assert(before.renders(image));
        crate::sign::lemma_request_is_signable(
            entry,
            crate::crypto::bit_length(crate::crypto::signing_modulus_of(key)),
            None,
        );
        crate::sign::lemma_signing_is_local(
            before,
            after,
            entry,
            signature,
            outcome,
            image,
            done.image@,
        );
    }
}

} // verus!
