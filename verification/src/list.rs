//! A ROM's directories and entries, as tables or as plain records.

use md5::{Digest, Md5};
use vstd::prelude::*;

use crate::address::{
    entry_target, target, AddressMode, FlashOffset, ResolveContext, RomSize,
};
use crate::directory::Directory;
use crate::entry::{Entry, EntryClass, EntryRecord, PubkeyEntry};
use crate::error::{parse_error_text, ParseError};
use crate::fet::Fet;
use crate::id::{generation_of, EntryType, ZenGeneration};
use crate::inventory::{
    context_in, count_entries, entry_count, mode_in, parse_dir_entries, parsed_as, record_in,
};
use crate::source::{SourceBytes, Window};
use crate::table::{fitted, Align, Grid, Table};
use crate::text::{
    ascii_or_hex, ascii_or_hex_4, dec, format_dec, format_hex_u64, group_text, hex, hex16,
    hex_bytes, join, joined, lemma_concat_assoc, magic_string, pad_left, prefixed_hex, push_dec,
    push_hex, push_hex_padded, views,
};
use crate::types::{readable_type, type_text};
use crate::walk::{root_context, DirectoryProvenance, DirectoryRef};
use crate::wire::{be32, le64};

verus! {

/// The MD5 digest of some bytes.
pub uninterp spec fn md5_of(bytes: Seq<u8>) -> Seq<u8>;

/// `md5::Digest::digest` of `md5::Md5`: the digest of the bytes.
#[verifier::external_body]
fn md5_digest(bytes: &[u8]) -> (r: [u8; 16])
    ensures
        r@ == md5_of(bytes@),
{
    Md5::digest(bytes).into()
}

/// All that is listed of one ROM.
pub struct RomListing<'a> {
    /// Index of the ROM in the input.
    pub index: usize,
    pub blob: &'a SourceBytes,
    pub rom_size: RomSize,
    /// Input offset of the first byte of the ROM.
    pub rom_origin: FlashOffset,
    pub fet: &'a Fet,
    pub directories: &'a [DirectoryRef],
}

/// The string of a literal.
fn text_of(s: &str) -> (r: String)
    ensures
        r@ == s@,
{
    broadcast use group_text;

    let mut out = String::new();
    out.append(s);
    out
}

/// The name of a generation.
pub open spec fn zen_name(g: ZenGeneration) -> &'static str {
    match g {
        ZenGeneration::Zen1 => "Zen1",
        ZenGeneration::Zen2 => "Zen2",
        ZenGeneration::Zen3 => "Zen3",
        ZenGeneration::Zen4 => "Zen4",
        ZenGeneration::Zen4Or5 => "Zen4Or5",
    }
}

fn zen_label(g: ZenGeneration) -> (r: &'static str)
    ensures
        r == zen_name(g),
{
    match g {
        ZenGeneration::Zen1 => "Zen1",
        ZenGeneration::Zen2 => "Zen2",
        ZenGeneration::Zen3 => "Zen3",
        ZenGeneration::Zen4 => "Zen4",
        ZenGeneration::Zen4Or5 => "Zen4Or5",
    }
}

/// The generation that a record of a combo directory names.
pub open spec fn combo_generation(dir: Directory, i: int) -> Option<ZenGeneration> {
    match dir {
        Directory::Combo(c) => if 0 <= i < c.entries@.len() {
            generation_of(c.entries@[i].psp_generation.0 / 0x100)
        } else {
            None
        },
        _ => None,
    }
}

/// The generations that the first `n` records of a combo directory name, each
/// once, in the order in which they come up.
pub open spec fn distinct_generations(dir: Directory, n: int) -> Seq<ZenGeneration>
    decreases n,
{
    if n <= 0 {
        Seq::empty()
    } else {
        let before = distinct_generations(dir, n - 1);
        match combo_generation(dir, n - 1) {
            Some(g) => if before.contains(g) {
                before
            } else {
                before.push(g)
            },
            None => before,
        }
    }
}

/// The generation that record `index` of the combo directory at `offset`
/// names, looked for in the directories from index `from` on.
pub open spec fn inherited_generation(
    dirs: Seq<DirectoryRef>,
    offset: FlashOffset,
    index: int,
    from: int,
) -> Seq<char>
    decreases dirs.len() - from,
{
    if from >= dirs.len() {
        Seq::empty()
    } else {
        let dir = dirs[from].directory;
        match combo_generation(dir, index) {
            Some(g) if dir.window().offset == offset.0 => zen_name(g)@,
            _ => inherited_generation(dirs, offset, index, from + 1),
        }
    }
}

/// The generation of a directory as text: for a combo directory all that its
/// records name, for one that a combo directory points to the one it is for.
pub open spec fn generation_text(d: DirectoryRef, dirs: Seq<DirectoryRef>) -> Seq<char> {
    match d.directory {
        Directory::Combo(c) => joined(
            distinct_generations(d.directory, c.entries@.len() as int).map_values(
                |g: ZenGeneration| zen_name(g)@,
            ),
            ", "@,
        ),
        _ => match d.provenance {
            DirectoryProvenance::ComboEntry { combo_offset, index } => inherited_generation(
                dirs,
                combo_offset,
                index as int,
                0,
            ),
            _ => Seq::empty(),
        },
    }
}

/// Where record `i` of a directory points to another directory.
pub open spec fn secondary_at(
    dir: Directory,
    i: int,
    rom_size: RomSize,
    rom_origin: FlashOffset,
) -> Option<u64> {
    match dir {
        Directory::Combo(c) => Some(
            target(
                AddressMode::PhysicalX86,
                c.entries@[i].pointer,
                root_context(rom_size, rom_origin),
            ),
        ),
        _ => {
            let record = record_in(dir, i);
            if record.kind().points_to_directory() {
                Some(
                    entry_target(
                        mode_in(dir),
                        record.own_mode(),
                        record.pointer(),
                        context_in(dir, rom_size, rom_origin),
                    ),
                )
            } else {
                None
            }
        },
    }
}

/// Where the first `n` records of a directory point to other directories.
pub open spec fn secondary_of(
    dir: Directory,
    n: int,
    rom_size: RomSize,
    rom_origin: FlashOffset,
) -> Seq<u64>
    decreases n,
{
    if n <= 0 {
        Seq::empty()
    } else {
        match secondary_at(dir, n - 1, rom_size, rom_origin) {
            Some(at) => secondary_of(dir, n - 1, rom_size, rom_origin).push(at),
            None => secondary_of(dir, n - 1, rom_size, rom_origin),
        }
    }
}

/// The number of records of a directory of any family.
pub open spec fn record_count(dir: Directory) -> int {
    match dir {
        Directory::Combo(c) => c.entries@.len() as int,
        _ => entry_count(dir),
    }
}

/// Where a directory points to other directories.
pub open spec fn secondaries(dir: Directory, rom_size: RomSize, rom_origin: FlashOffset) -> Seq<
    u64,
> {
    secondary_of(dir, record_count(dir), rom_size, rom_origin)
}

/// What a body's tag is shown as: that of its header, or the start of the
/// identifier that a public key is certified by.
pub open spec fn magic_id_text(class: EntryClass) -> Seq<char> {
    match class {
        EntryClass::Header(h) => ascii_or_hex(h.magic@),
        EntryClass::KeyStore(h) => ascii_or_hex(h.magic@),
        EntryClass::Pubkey(p) => ascii_or_hex(p.certifying_id@.subrange(0, 4)),
        _ => Seq::empty(),
    }
}

/// The version of a body with a header, its first part first.
pub open spec fn version_text(class: EntryClass) -> Seq<char> {
    match class.head() {
        Some(h) => pad_left(hex(h.version[3] as nat), '0', 2) + ("."@ + (pad_left(
            hex(h.version[2] as nat),
            '0',
            2,
        ) + ("."@ + (pad_left(hex(h.version[1] as nat), '0', 2) + ("."@ + pad_left(
            hex(h.version[0] as nat),
            '0',
            2,
        )))))),
        None => Seq::empty(),
    }
}

/// What a public key is for.
pub open spec fn usage_text(p: PubkeyEntry) -> Seq<char> {
    if p.key_usage == 0 {
        "AMD_CODE_SIGN"@
    } else {
        "key_usage("@ + (prefixed_hex(p.key_usage as nat) + ")"@)
    }
}

/// `words` when `shown`, nothing otherwise.
pub open spec fn shown_if(shown: bool, words: Seq<Seq<char>>) -> Seq<Seq<char>> {
    if shown {
        words
    } else {
        Seq::empty()
    }
}

/// Whether the record or the header says that the body is compressed.
pub open spec fn is_packed(e: Entry) -> bool {
    (e.record matches EntryRecord::Bios(b) && b.flags / 8 % 2 == 1) || (
    e.class.head() matches Some(h) && h.is_compressed)
}

/// The memory address that an entry is copied to, where it is shown.
pub open spec fn shown_destination(e: Entry, is_bios_directory: bool) -> Option<u64> {
    match e.record {
        EntryRecord::Bios(b) => if is_bios_directory && (b.entry_type.0 == 0x61 || b.entry_type.0
            == 0x62) && b.destination != u64::MAX {
            Some(b.destination)
        } else {
            None
        },
        _ => None,
    }
}

/// What is known of a body with a header.
pub open spec fn header_words(class: EntryClass) -> Seq<Seq<char>> {
    match class.head() {
        Some(h) => shown_if(h.signed_raw != 0, seq!["signed"@, "SIG_UNKNOWN"@]) + (shown_if(
            h.is_encrypted,
            seq!["encrypted"@],
        ) + (shown_if(h.bitfield % 2 == 1, seq!["sha256"@, "SHA_UNKNOWN"@]) + shown_if(
            h.bitfield / 2 % 2 == 1,
            seq!["sha384"@, "SHA_UNKNOWN"@],
        ))),
        None => Seq::empty(),
    }
}

/// What a public key is for, and where a BIOS entry is copied to.
pub open spec fn closing_words(e: Entry, is_bios_directory: bool) -> Seq<Seq<char>> {
    (match e.class {
        EntryClass::Pubkey(p) => seq![usage_text(p)],
        _ => Seq::empty(),
    }) + (match shown_destination(e, is_bios_directory) {
        Some(at) => seq!["destination("@ + (hex(at as nat) + ")"@)],
        None => Seq::empty(),
    })
}

/// What is known of an entry, in a few words each.
pub open spec fn info_words(e: Entry, is_bios_directory: bool) -> Seq<Seq<char>> {
    shown_if(is_packed(e), seq!["compressed"@]) + (header_words(e.class) + closing_words(
        e,
        is_bios_directory,
    ))
}

fn subprogram_and_instance(rec: &EntryRecord) -> (r: (u8, u8))
    ensures
        r == (subprogram_of(*rec), instance_of(*rec)),
{
    match rec {
        EntryRecord::Psp(p) => (p.subprogram, p.instance()),
        EntryRecord::Bios(b) => (b.subprogram(), b.instance()),
    }
}

/// The subprogram that a record names.
pub open spec fn subprogram_of(rec: EntryRecord) -> u8 {
    match rec {
        EntryRecord::Psp(p) => p.subprogram,
        EntryRecord::Bios(b) => (b.flags / 256 % 8) as u8,
    }
}

/// The instance that a record names.
pub open spec fn instance_of(rec: EntryRecord) -> u8 {
    match rec {
        EntryRecord::Psp(p) => (p.flags / 8 % 16) as u8,
        EntryRecord::Bios(b) => (b.flags / 16 % 16) as u8,
    }
}

/// The flags of a record.
pub open spec fn flags_of(rec: EntryRecord) -> u16 {
    match rec {
        EntryRecord::Psp(p) => p.flags,
        EntryRecord::Bios(b) => b.flags,
    }
}

fn entry_flags(rec: &EntryRecord) -> (r: u16)
    ensures
        r == flags_of(*rec),
{
    match rec {
        EntryRecord::Psp(p) => p.flags,
        EntryRecord::Bios(b) => b.flags,
    }
}

fn magic_id_string(class: &EntryClass) -> (r: String)
    ensures
        r@ == magic_id_text(*class),
{
    if let Some(h) = class.header() {
        return ascii_or_hex_4(&h.magic);
    }
    if let Some(p) = class.pubkey() {
        let leading: [u8; 4] = [
            p.certifying_id[0],
            p.certifying_id[1],
            p.certifying_id[2],
            p.certifying_id[3],
        ];
        assert(leading@ =~= p.certifying_id@.subrange(0, 4));
        return ascii_or_hex_4(&leading);
    }
    let out = String::new();
    assert(out@ =~= Seq::<char>::empty());
    out
}

fn version_string(class: &EntryClass) -> (r: String)
    ensures
        r@ == version_text(*class),
{
    broadcast use group_text;

    let mut out = String::new();
    if let Some(h) = class.header() {
        push_hex_padded(h.version[3] as u64, 2, &mut out);
        out.append(".");
        push_hex_padded(h.version[2] as u64, 2, &mut out);
        out.append(".");
        push_hex_padded(h.version[1] as u64, 2, &mut out);
        out.append(".");
        push_hex_padded(h.version[0] as u64, 2, &mut out);
    } else {
        assert(out@ =~= Seq::<char>::empty());
    }
    out
}

fn pubkey_usage(p: &PubkeyEntry) -> (r: String)
    ensures
        r@ == usage_text(*p),
{
    broadcast use group_text;

    let mut out = String::new();
    if p.key_usage == 0 {
        out.append("AMD_CODE_SIGN");
    } else {
        out.append("key_usage(");
        out.append("0x");
        push_hex(p.key_usage as u64, &mut out);
        out.append(")");
    }
    out
}

fn push_word(info: &mut Vec<String>, word: String)
    ensures
        views(final(info)@) == views(old(info)@) + seq![word@],
{
    let ghost before = info@;
    info.push(word);
    assert(views(info@) =~= views(before) + seq![word@]);
}

fn push_header_words(class: &EntryClass, info: &mut Vec<String>)
    ensures
        views(final(info)@) == views(old(info)@) + header_words(*class),
{
    let ghost start = views(info@);
    if let Some(h) = class.header() {
        if h.is_signed() {
            push_word(info, text_of("signed"));
            push_word(info, text_of("SIG_UNKNOWN"));
        }
        let ghost a = shown_if(h.signed_raw != 0, seq!["signed"@, "SIG_UNKNOWN"@]);
        assert(views(info@) =~= start + a);
        if h.is_encrypted {
            push_word(info, text_of("encrypted"));
        }
        let ghost b = shown_if(h.is_encrypted, seq!["encrypted"@]);
        assert(views(info@) =~= start + a + b);
        if h.has_sha256_checksum() {
            push_word(info, text_of("sha256"));
            push_word(info, text_of("SHA_UNKNOWN"));
        }
        let ghost c = shown_if(h.bitfield % 2 == 1, seq!["sha256"@, "SHA_UNKNOWN"@]);
        assert(views(info@) =~= start + a + b + c);
        if h.has_sha384_checksum() {
            push_word(info, text_of("sha384"));
            push_word(info, text_of("SHA_UNKNOWN"));
        }
        let ghost d = shown_if(h.bitfield / 2 % 2 == 1, seq!["sha384"@, "SHA_UNKNOWN"@]);
        assert(views(info@) =~= start + (a + (b + (c + d))));
    } else {
        assert(views(info@) =~= start + header_words(*class));
    }
}

fn push_closing_words(e: &Entry, is_bios_directory: bool, info: &mut Vec<String>)
    ensures
        views(final(info)@) == views(old(info)@) + closing_words(*e, is_bios_directory),
{
    broadcast use group_text;

    let ghost start = views(info@);
    if let Some(p) = e.class.pubkey() {
        push_word(info, pubkey_usage(p));
    }
    let ghost a = match &e.class {
        EntryClass::Pubkey(p) => seq![usage_text(*p)],
        _ => Seq::<Seq<char>>::empty(),
    };
    assert(views(info@) =~= start + a);
    if let Some(at) = destination(e, is_bios_directory) {
        let mut word = String::new();
        word.append("destination(");
        push_hex(at, &mut word);
        word.append(")");
        push_word(info, word);
    }
    assert(views(info@) =~= start + closing_words(*e, is_bios_directory));
}

fn destination(e: &Entry, is_bios_directory: bool) -> (r: Option<u64>)
    ensures
        r == shown_destination(*e, is_bios_directory),
{
    match &e.record {
        EntryRecord::Bios(b) => {
            if is_bios_directory && (b.entry_type.0 == 0x61 || b.entry_type.0 == 0x62)
                && !b.destination_is_unused() {
                Some(b.destination)
            } else {
                None
            }
        },
        _ => None,
    }
}

fn info_list(e: &Entry, is_bios_directory: bool) -> (r: Vec<String>)
    ensures
        views(r@) == info_words(*e, is_bios_directory),
{
    let mut info: Vec<String> = Vec::new();
    assert(views(info@) =~= Seq::<Seq<char>>::empty());
    let flagged = match &e.record {
        EntryRecord::Bios(b) => b.is_compressed(),
        _ => false,
    };
    let header_compressed = match e.class.header() {
        Some(h) => h.is_compressed,
        None => false,
    };
    if flagged || header_compressed {
        push_word(&mut info, text_of("compressed"));
    }
    let ghost a = shown_if(is_packed(*e), seq!["compressed"@]);
    assert(views(info@) =~= a);
    push_header_words(&e.class, &mut info);
    push_closing_words(e, is_bios_directory, &mut info);
    assert(views(info@) =~= info_words(*e, is_bios_directory));
    info
}

fn info_string(e: &Entry, is_bios_directory: bool) -> (r: String)
    ensures
        r@ == joined(info_words(*e, is_bios_directory), ", "@),
{
    join(&info_list(e, is_bios_directory), ", ")
}

fn body_md5_hex(body: &SourceBytes) -> (r: String)
    ensures
        r@ == hex_bytes(md5_of(body@.bytes)),
{
    hex16(&md5_digest(body.as_bytes()))
}

fn secondary_addresses(
    dir: &Directory,
    rom_size: RomSize,
    rom_origin: FlashOffset,
) -> (r: Vec<u64>)
    ensures
        r@ == secondaries(*dir, rom_size, rom_origin),
{
    let mut out: Vec<u64> = Vec::new();
    let mode = dir.header().address_mode();
    let own = ResolveContext { rom_size, directory_base: dir.source().offset(), rom_origin };
    let root = ResolveContext { rom_size, directory_base: FlashOffset(0), rom_origin };
    let mut i: usize = 0;
    match dir {
        Directory::Psp(d) => {
            while i < d.entries.len()
                invariant
                    i <= d.entries@.len(),
                    *dir == Directory::Psp(*d),
                    mode == mode_in(*dir),
                    own == context_in(*dir, rom_size, rom_origin),
                    out@ == secondary_of(*dir, i as int, rom_size, rom_origin),
                decreases d.entries@.len() - i,
            {
                let e = &d.entries[i];
                if e.entry_type.is_secondary_directory_pointer() {
                    out.push(mode.resolve_with_entry(e.entry_address_mode(), e.offset, own).0);
                }
                i += 1;
            }
        },
        Directory::Bios(d) => {
            while i < d.entries.len()
                invariant
                    i <= d.entries@.len(),
                    *dir == Directory::Bios(*d),
                    mode == mode_in(*dir),
                    own == context_in(*dir, rom_size, rom_origin),
                    out@ == secondary_of(*dir, i as int, rom_size, rom_origin),
                decreases d.entries@.len() - i,
            {
                let e = &d.entries[i];
                if e.entry_type.is_secondary_directory_pointer() {
                    out.push(mode.resolve_with_entry(e.entry_address_mode(), e.offset, own).0);
                }
                i += 1;
            }
        },
        Directory::Combo(d) => {
            while i < d.entries.len()
                invariant
                    i <= d.entries@.len(),
                    *dir == Directory::Combo(*d),
                    root == root_context(rom_size, rom_origin),
                    out@ == secondary_of(*dir, i as int, rom_size, rom_origin),
                decreases d.entries@.len() - i,
            {
                if let Ok(at) = AddressMode::PhysicalX86.resolve(d.entries[i].pointer, root) {
                    out.push(at.0);
                }
                i += 1;
            }
        },
    }
    out
}

fn combo_zen(dir: &Directory, index: usize) -> (r: Option<ZenGeneration>)
    ensures
        r == combo_generation(*dir, index as int),
{
    match dir {
        Directory::Combo(c) => {
            if index < c.entries.len() {
                c.entries[index].psp_generation.zen_generation()
            } else {
                None
            }
        },
        _ => None,
    }
}

fn contains_generation(gens: &Vec<ZenGeneration>, g: ZenGeneration) -> (r: bool)
    ensures
        r == gens@.contains(g),
{
    let mut i: usize = 0;
    while i < gens.len()
        invariant
            i <= gens@.len(),
            forall|j: int| 0 <= j < i ==> gens@[j] != g,
        decreases gens@.len() - i,
    {
        if gens[i] == g {
            return true;
        }
        i += 1;
    }
    false
}

fn combo_labels(dir: &Directory, count: usize) -> (r: Vec<String>)
    ensures
        views(r@) == distinct_generations(*dir, count as int).map_values(
            |g: ZenGeneration| zen_name(g)@,
        ),
{
    let mut gens: Vec<ZenGeneration> = Vec::new();
    let mut labels: Vec<String> = Vec::new();
    let mut i: usize = 0;
    let ghost names = |s: Seq<ZenGeneration>| s.map_values(|g: ZenGeneration| zen_name(g)@);
    assert(views(labels@) =~= names(gens@));
    while i < count
        invariant
            i <= count,
            names == (|s: Seq<ZenGeneration>| s.map_values(|g: ZenGeneration| zen_name(g)@)),
            gens@ == distinct_generations(*dir, i as int),
            views(labels@) == names(gens@),
        decreases count - i,
    {
        if let Some(g) = combo_zen(dir, i) {
            if !contains_generation(&gens, g) {
                let ghost before = gens@;
                gens.push(g);
                push_word(&mut labels, text_of(zen_label(g)));
                assert(names(gens@) =~= names(before) + seq![zen_name(g)@]);
            }
        }
        i += 1;
    }
    labels
}

fn directory_generation(d: &DirectoryRef, dirs: &[DirectoryRef]) -> (r: String)
    ensures
        r@ == generation_text(*d, dirs@),
{
    if let Directory::Combo(c) = &d.directory {
        return join(&combo_labels(&d.directory, c.entries.len()), ", ");
    }
    if let DirectoryProvenance::ComboEntry { combo_offset, index } = d.provenance {
        let mut i: usize = 0;
        while i < dirs.len()
            invariant
                i <= dirs@.len(),
                d.directory !is Combo,
                d.provenance == (DirectoryProvenance::ComboEntry { combo_offset, index }),
                inherited_generation(dirs@, combo_offset, index as int, 0) == inherited_generation(
                    dirs@,
                    combo_offset,
                    index as int,
                    i as int,
                ),
            decreases dirs@.len() - i,
        {
            if let Some(g) = combo_zen(&dirs[i].directory, index) {
                if dirs[i].directory.source().offset().0 == combo_offset.0 {
                    return text_of(zen_label(g));
                }
            }
            i += 1;
        }
    }
    let out = String::new();
    assert(out@ =~= Seq::<char>::empty());
    out
}

/// What parsing the entries of each directory comes to.
pub open spec fn all_parsed(
    parsed: Seq<Seq<Result<Entry, ParseError>>>,
    rom: RomListing<'_>,
) -> bool {
    &&& parsed.len() == rom.directories@.len()
    &&& forall|d: int|
        #![trigger parsed[d]]
        0 <= d < parsed.len() ==> directory_parsed(parsed[d], rom.directories@[d].directory, rom)
}

/// What parsing the entries of a directory comes to.
pub open spec fn directory_parsed(
    parsed: Seq<Result<Entry, ParseError>>,
    dir: Directory,
    rom: RomListing<'_>,
) -> bool {
    &&& parsed.len() == entry_count(dir)
    &&& forall|i: int|
        0 <= i < parsed.len() ==> parsed_as(
            dir,
            i,
            rom.blob@,
            rom.rom_size,
            rom.rom_origin,
            #[trigger] parsed[i],
        )
}

/// The table of the ROM itself.
pub open spec fn rom_grid(rom: RomListing<'_>) -> Grid {
    Grid {
        headers: seq!["ROM"@, "Addr"@, "Size"@, "FET"@, "AGESA"@],
        align: Align::Center,
        rows: seq![
            seq![
                dec(rom.index as nat),
                prefixed_hex(rom.blob@.offset as nat),
                prefixed_hex(rom.blob@.bytes.len()),
                prefixed_hex(rom.fet.source@.offset as nat),
                "AGESA_UNKNOWN"@,
            ],
        ],
    }
}

/// The table of a directory.
pub open spec fn directory_grid(idx: int, d: DirectoryRef, rom: RomListing<'_>) -> Grid {
    Grid {
        headers: seq![
            ""@,
            "Directory"@,
            "Addr"@,
            "Generation"@,
            "Magic"@,
            "Secondary Directory"@,
        ],
        align: Align::Center,
        rows: seq![
            seq![
                Seq::empty(),
                dec(idx as nat),
                prefixed_hex(d.directory.window().offset as nat),
                generation_text(d, rom.directories@),
                ascii_or_hex(d.directory.head().magic.0@),
                joined(
                    secondaries(d.directory, rom.rom_size, rom.rom_origin).map_values(
                        |at: u64| prefixed_hex(at as nat),
                    ),
                    ", "@,
                ),
            ],
        ],
    }
}

/// The headers of a table of entries.
pub open spec fn entry_headers(verbose: bool) -> Seq<Seq<char>> {
    seq![
        ""@,
        " "@,
        "Entry"@,
        "Address"@,
        "Size"@,
        "Type"@,
        "Subprogram"@,
        "Instance"@,
        "Magic/ID"@,
        "File Version"@,
        "File Info"@,
    ] + shown_if(
        verbose,
        seq!["flags"@, "MD5"@, "size_signed"@, "size_full"@, "size_packed"@, "load_addr"@],
    )
}

/// The sizes and the load address of a body with a header.
pub open spec fn size_cells(class: EntryClass) -> Seq<Seq<char>> {
    match class.head() {
        Some(h) => seq![
            prefixed_hex(h.size_signed as nat),
            prefixed_hex(h.size_uncompressed as nat),
            prefixed_hex(h.rom_size as nat),
            prefixed_hex(h.load_addr as nat),
        ],
        None => seq![Seq::empty(), Seq::empty(), Seq::empty(), Seq::empty()],
    }
}

/// The cells of an entry.
pub open spec fn entry_cells(idx: int, e: Entry, is_bios: bool, verbose: bool) -> Seq<Seq<char>> {
    seq![
        Seq::empty(),
        Seq::empty(),
        dec(idx as nat),
        prefixed_hex(e.body@.offset as nat),
        prefixed_hex(e.body@.bytes.len()),
        type_text(e.record.kind().0, is_bios),
        dec(subprogram_of(e.record) as nat),
        dec(instance_of(e.record) as nat),
        magic_id_text(e.class),
        version_text(e.class),
        joined(info_words(e, is_bios), ", "@),
    ] + shown_if(
        verbose,
        seq![prefixed_hex(flags_of(e.record) as nat), hex_bytes(md5_of(e.body@.bytes))]
            + size_cells(e.class),
    )
}

/// The cells of an entry that could not be parsed.
pub open spec fn error_cells(idx: int, err: ParseError, verbose: bool) -> Seq<Seq<char>> {
    Seq::new(
        if verbose {
            17
        } else {
            11
        },
        |i: int|
            if i == 2 {
                dec(idx as nat)
            } else if i == 5 {
                "<parse error: "@ + (parse_error_text(err) + ">"@)
            } else {
                Seq::empty()
            },
    )
}

/// The cells of what parsing an entry came to.
pub open spec fn result_cells(
    idx: int,
    r: Result<Entry, ParseError>,
    is_bios: bool,
    verbose: bool,
) -> Seq<Seq<char>> {
    match r {
        Ok(e) => entry_cells(idx, e, is_bios, verbose),
        Err(err) => error_cells(idx, err, verbose),
    }
}

/// The table of a directory's entries.
pub open spec fn entries_grid(
    dir: Directory,
    parsed: Seq<Result<Entry, ParseError>>,
    verbose: bool,
) -> Grid {
    Grid {
        headers: entry_headers(verbose),
        align: Align::Right,
        rows: Seq::new(
            parsed.len(),
            |i: int| result_cells(i, parsed[i], dir is Bios, verbose),
        ),
    }
}

/// The tables of directory `i`.
pub open spec fn directory_text(
    rom: RomListing<'_>,
    i: int,
    parsed: Seq<Result<Entry, ParseError>>,
    verbose: bool,
) -> Seq<char> {
    let d = rom.directories@[i];
    directory_grid(i, d, rom).text() + (entries_grid(d.directory, parsed, verbose).text()
        + "\n\n"@)
}

/// The tables of the first `n` directories.
pub open spec fn directories_text(
    rom: RomListing<'_>,
    parsed: Seq<Seq<Result<Entry, ParseError>>>,
    verbose: bool,
    n: int,
) -> Seq<char>
    decreases n,
{
    if n <= 0 {
        Seq::empty()
    } else {
        directories_text(rom, parsed, verbose, n - 1) + directory_text(
            rom,
            n - 1,
            parsed[n - 1],
            verbose,
        )
    }
}

/// The tables of a ROM.
pub open spec fn listing_text(
    rom: RomListing<'_>,
    parsed: Seq<Seq<Result<Entry, ParseError>>>,
    verbose: bool,
) -> Seq<char> {
    rom_grid(rom).text() + ("\n"@ + directories_text(
        rom,
        parsed,
        verbose,
        rom.directories@.len() as int,
    ))
}

/// Whether `text` lists a ROM.
pub open spec fn lists(text: Seq<char>, rom: RomListing<'_>, verbose: bool) -> bool {
    exists|parsed: Seq<Seq<Result<Entry, ParseError>>>| #[trigger]
        all_parsed(parsed, rom) && text == listing_text(rom, parsed, verbose)
}

/// Render a table whose rows have as many cells as there are headers.
fn render_one_row(headers: Vec<String>, row: Vec<String>, align: Align) -> (r: String)
    requires
        headers@.len() == row@.len(),
    ensures
        r@ == (Grid { headers: views(headers@), align, rows: seq![views(row@)] }).text(),
{
    let ghost names = views(headers@);
    let ghost cells = views(row@);
    let mut t = Table::new(headers, align);
    t.add_row(row);
    assert(fitted(cells, names.len()) =~= cells);
    assert(t@.rows =~= seq![cells]);
    t.render()
}

fn render_rom_table(rom: &RomListing<'_>) -> (r: String)
    ensures
        r@ == rom_grid(*rom).text(),
{
    let headers = vec![
        text_of("ROM"),
        text_of("Addr"),
        text_of("Size"),
        text_of("FET"),
        text_of("AGESA"),
    ];
    let row = vec![
        format_dec(rom.index as u64),
        format_hex_u64(rom.blob.offset().0),
        format_hex_u64(rom.blob.len() as u64),
        format_hex_u64(rom.fet.source.offset().0),
        text_of("AGESA_UNKNOWN"),
    ];
    assert(views(headers@) =~= rom_grid(*rom).headers);
    assert(views(row@) =~= rom_grid(*rom).rows[0]);
    assert(seq![views(row@)] =~= rom_grid(*rom).rows);
    render_one_row(headers, row, Align::Center)
}

fn hex_list(values: &Vec<u64>) -> (r: Vec<String>)
    ensures
        views(r@) == values@.map_values(|at: u64| prefixed_hex(at as nat)),
{
    let mut out: Vec<String> = Vec::new();
    while out.len() < values.len()
        invariant
            out@.len() <= values@.len(),
            forall|i: int| 0 <= i < out@.len() ==> (#[trigger] out@[i])@ == prefixed_hex(
                values@[i] as nat,
            ),
        decreases values@.len() - out@.len(),
    {
        let text = format_hex_u64(values[out.len()]);
        out.push(text);
    }
    assert(views(out@) =~= values@.map_values(|at: u64| prefixed_hex(at as nat)));
    out
}

fn render_directory_header_table(idx: usize, d: &DirectoryRef, rom: &RomListing<'_>) -> (r: String)
    ensures
        r@ == directory_grid(idx as int, *d, *rom).text(),
{
    let headers = vec![
        text_of(""),
        text_of("Directory"),
        text_of("Addr"),
        text_of("Generation"),
        text_of("Magic"),
        text_of("Secondary Directory"),
    ];
    let secondary = hex_list(&secondary_addresses(&d.directory, rom.rom_size, rom.rom_origin));
    let row = vec![
        String::new(),
        format_dec(idx as u64),
        format_hex_u64(d.directory.source().offset().0),
        directory_generation(d, rom.directories),
        magic_string(&d.directory.header().magic.0),
        join(&secondary, ", "),
    ];
    let ghost grid = directory_grid(idx as int, *d, *rom);
    assert(views(headers@) =~= grid.headers);
    assert(row@[0]@ =~= Seq::<char>::empty());
    assert(views(row@) =~= grid.rows[0]);
    assert(seq![views(row@)] =~= grid.rows);
    render_one_row(headers, row, Align::Center)
}

fn entry_header_strings(verbose: bool) -> (r: Vec<String>)
    ensures
        views(r@) == entry_headers(verbose),
{
    let mut headers = vec![
        text_of(""),
        text_of(" "),
        text_of("Entry"),
        text_of("Address"),
        text_of("Size"),
        text_of("Type"),
        text_of("Subprogram"),
        text_of("Instance"),
        text_of("Magic/ID"),
        text_of("File Version"),
        text_of("File Info"),
    ];
    if verbose {
        headers.push(text_of("flags"));
        headers.push(text_of("MD5"));
        headers.push(text_of("size_signed"));
        headers.push(text_of("size_full"));
        headers.push(text_of("size_packed"));
        headers.push(text_of("load_addr"));
    }
    assert(views(headers@) =~= entry_headers(verbose));
    headers
}

fn build_entry_row(idx: usize, e: &Entry, is_bios: bool, verbose: bool) -> (r: Vec<String>)
    ensures
        views(r@) == entry_cells(idx as int, *e, is_bios, verbose),
{
    let (subprogram, instance) = subprogram_and_instance(&e.record);
    let mut row = vec![
        String::new(),
        String::new(),
        format_dec(idx as u64),
        format_hex_u64(e.body.offset().0),
        format_hex_u64(e.body.len() as u64),
        readable_type(e.entry_type(), is_bios),
        format_dec(subprogram as u64),
        format_dec(instance as u64),
        magic_id_string(&e.class),
        version_string(&e.class),
        info_string(e, is_bios),
    ];
    assert(row@[0]@ =~= Seq::<char>::empty());
    assert(row@[1]@ =~= Seq::<char>::empty());
    if verbose {
        row.push(format_hex_u64(entry_flags(&e.record) as u64));
        row.push(body_md5_hex(&e.body));
        match e.class.header() {
            Some(h) => {
                row.push(format_hex_u64(h.size_signed as u64));
                row.push(format_hex_u64(h.size_uncompressed as u64));
                row.push(format_hex_u64(h.rom_size as u64));
                row.push(format_hex_u64(h.load_addr as u64));
            },
            None => {
                push_empty_cells(4, &mut row);
            },
        }
    }
    assert(views(row@) =~= entry_cells(idx as int, *e, is_bios, verbose));
    row
}

fn push_empty_cells(n: usize, row: &mut Vec<String>)
    ensures
        views(final(row)@) == views(old(row)@) + Seq::new(n as nat, |i: int| Seq::<char>::empty()),
{
    let ghost start = views(row@);
    let mut i: usize = 0;
    assert(start + Seq::new(0, |i: int| Seq::<char>::empty()) =~= start);
    while i < n
        invariant
            i <= n,
            views(row@) == start + Seq::new(i as nat, |i: int| Seq::<char>::empty()),
        decreases n - i,
    {
        let cell = String::new();
        assert(cell@ =~= Seq::<char>::empty());
        push_word(row, cell);
        i += 1;
        assert(views(row@) =~= start + Seq::new(i as nat, |i: int| Seq::<char>::empty()));
    }
}

fn build_error_row(idx: usize, err: &ParseError, verbose: bool) -> (r: Vec<String>)
    ensures
        views(r@) == error_cells(idx as int, *err, verbose),
{
    broadcast use group_text;

    let mut message = String::new();
    message.append("<parse error: ");
    message.append(err.text().as_str());
    message.append(">");
    let mut row: Vec<String> = Vec::new();
    assert(views(row@) =~= Seq::<Seq<char>>::empty());
    push_empty_cells(2, &mut row);
    push_word(&mut row, format_dec(idx as u64));
    push_empty_cells(2, &mut row);
    push_word(&mut row, message);
    push_empty_cells(5, &mut row);
    if verbose {
        push_empty_cells(6, &mut row);
    }
    assert(views(row@) =~= error_cells(idx as int, *err, verbose));
    row
}

fn render_entries_table(
    dir: &Directory,
    parsed: &Vec<Result<Entry, ParseError>>,
    verbose: bool,
) -> (r: String)
    ensures
        r@ == entries_grid(*dir, parsed@, verbose).text(),
{
    let is_bios = dir.is_bios();
    let mut t = Table::new(entry_header_strings(verbose), Align::Right);
    let ghost grid = entries_grid(*dir, parsed@, verbose);
    let mut i: usize = 0;
    while i < parsed.len()
        invariant
            i <= parsed@.len(),
            is_bios == (dir is Bios),
            grid == entries_grid(*dir, parsed@, verbose),
            t@.headers == entry_headers(verbose),
            t@.align == Align::Right,
            t@.rows == grid.rows.take(i as int),
        decreases parsed@.len() - i,
    {
        let row = match &parsed[i] {
            Ok(e) => build_entry_row(i, e, is_bios, verbose),
            Err(err) => build_error_row(i, err, verbose),
        };
        let ghost cells = views(row@);
        assert(cells == grid.rows[i as int]);
        assert(cells.len() == entry_headers(verbose).len());
        t.add_row(row);
        assert(fitted(cells, entry_headers(verbose).len()) =~= cells);
        i += 1;
        assert(t@.rows =~= grid.rows.take(i as int));
    }
    assert(t@.rows =~= grid.rows);
    t.render()
}

fn push_directory(rom: &RomListing<'_>, d: usize, verbose: bool, out: &mut String) -> (r: Vec<
    Result<Entry, ParseError>,
>)
    requires
        d < rom.directories@.len(),
    ensures
        directory_parsed(r@, rom.directories@[d as int].directory, *rom),
        final(out)@ == old(out)@ + directory_text(*rom, d as int, r@, verbose),
{
    broadcast use group_text;

    let dir = &rom.directories[d];
    let entries = parse_dir_entries(rom.blob, &dir.directory, rom.rom_size, rom.rom_origin);
    let header_table = render_directory_header_table(d, dir, rom);
    let entries_table = render_entries_table(&dir.directory, &entries, verbose);
    out.append(header_table.as_str());
    out.append(entries_table.as_str());
    out.append("\n\n");
    entries
}

fn render_text(rom: &RomListing<'_>, verbose: bool) -> (r: String)
    ensures
        lists(r@, *rom, verbose),
{
    broadcast use group_text;

    let mut out = render_rom_table(rom);
    out.append("\n");
    let ghost start = out@;
    let ghost mut parsed: Seq<Seq<Result<Entry, ParseError>>> = Seq::empty();
    let mut d: usize = 0;
    assert(start + directories_text(*rom, parsed, verbose, 0) =~= start);
    while d < rom.directories.len()
        invariant
            d <= rom.directories@.len(),
            parsed.len() == d,
            forall|k: int|
                #![trigger parsed[k]]
                0 <= k < d ==> directory_parsed(parsed[k], rom.directories@[k].directory, *rom),
            out@ == start + directories_text(*rom, parsed, verbose, d as int),
        decreases rom.directories@.len() - d,
    {
        let entries = push_directory(rom, d, verbose, &mut out);
        proof {
            let before = parsed;
            parsed = parsed.push(entries@);
            lemma_directories_text_extends(*rom, before, parsed, verbose, d as int);
            lemma_concat_assoc(
                start,
                directories_text(*rom, parsed, verbose, d as int),
                directory_text(*rom, d as int, entries@, verbose),
            );
        }
        d += 1;
    }
    assert(all_parsed(parsed, *rom));
    out
}

proof fn lemma_directories_text_extends(
    rom: RomListing<'_>,
    a: Seq<Seq<Result<Entry, ParseError>>>,
    b: Seq<Seq<Result<Entry, ParseError>>>,
    verbose: bool,
    n: int,
)
    requires
        n <= a.len(),
        a.is_prefix_of(b),
    ensures
        directories_text(rom, a, verbose, n) == directories_text(rom, b, verbose, n),
    decreases n,
{
    if n > 0 {
        lemma_directories_text_extends(rom, a, b, verbose, n - 1);
        assert(a[n - 1] == b[n - 1]);
    }
}

/// The tables of a ROM with the usual columns.
pub fn list_default(rom: &RomListing<'_>) -> (r: String)
    ensures
        lists(r@, *rom, false),
{
    render_text(rom, false)
}

/// The tables of a ROM with all columns.
pub fn list_verbose(rom: &RomListing<'_>) -> (r: String)
    ensures
        lists(r@, *rom, true),
{
    render_text(rom, true)
}

/// Sizes and load address of a body with a header.
#[derive(Copy, Clone, Debug, PartialEq, Eq, Structural)]
pub struct SizeListing {
    pub signed: u32,
    pub uncompressed: u32,
    pub packed: u32,
    pub load_addr: u32,
}

/// What a full record of an entry adds.
#[derive(Clone, Debug, PartialEq, Eq)]
pub struct VerboseListing {
    pub md5: String,
    pub flags: u16,
    pub sizes: Option<SizeListing>,
}

/// The record of an entry.
#[derive(Clone, Debug, PartialEq, Eq)]
pub struct EntryFields {
    pub index: usize,
    pub address: u64,
    pub size: usize,
    pub section_type: String,
    pub magic: String,
    pub version: String,
    pub info: Vec<String>,
    pub destination_address: Option<String>,
    pub verbose: Option<VerboseListing>,
}

/// The record of what parsing an entry came to.
#[derive(Clone, Debug, PartialEq, Eq)]
pub enum EntryListing {
    Parsed(EntryFields),
    Failed { index: usize, error: String },
}

/// The record of a directory.
#[derive(Clone, Debug, PartialEq, Eq)]
pub struct DirectoryListing {
    pub directory: usize,
    pub address: u64,
    pub magic: String,
    pub secondary_addresses: Vec<u64>,
    pub entries: Vec<EntryListing>,
}

/// The sizes of a body with a header.
pub open spec fn sizes_of(class: EntryClass) -> Option<SizeListing> {
    match class.head() {
        Some(h) => Some(
            SizeListing {
                signed: h.size_signed,
                uncompressed: h.size_uncompressed,
                packed: h.rom_size,
                load_addr: h.load_addr,
            },
        ),
        None => None,
    }
}

impl VerboseListing {
    /// Whether this is what a full record adds for an entry.
    pub open spec fn describes(self, e: Entry) -> bool {
        &&& self.md5@ == hex_bytes(md5_of(e.body@.bytes))
        &&& self.flags == flags_of(e.record)
        &&& self.sizes == sizes_of(e.class)
    }
}

/// Whether `text` is the memory address in `at`, or neither is there.
pub open spec fn shows_address(text: Option<String>, at: Option<u64>) -> bool {
    match (text, at) {
        (Some(s), Some(v)) => s@ == hex(v as nat),
        (None, None) => true,
        _ => false,
    }
}

/// The memory address that a BIOS image is copied to.
pub open spec fn image_destination(e: Entry) -> Option<u64> {
    match e.record {
        EntryRecord::Bios(b) => if b.entry_type.0 == 0x62 && b.destination != u64::MAX {
            Some(b.destination)
        } else {
            None
        },
        _ => None,
    }
}

impl EntryFields {
    /// Whether this is the record of an entry.
    pub open spec fn describes(self, idx: int, e: Entry, is_bios: bool, verbose: bool) -> bool {
        &&& self.index == idx
        &&& self.address == e.body@.offset
        &&& self.size == e.body@.bytes.len()
        &&& self.section_type@ == type_text(e.record.kind().0, is_bios)
        &&& self.magic@ == magic_id_text(e.class)
        &&& self.version@ == version_text(e.class)
        &&& views(self.info@) == info_words(e, is_bios)
        &&& shows_address(self.destination_address, image_destination(e))
        &&& match self.verbose {
            Some(v) => verbose && v.describes(e),
            None => !verbose,
        }
    }
}

impl EntryListing {
    /// Whether this is the record of what parsing an entry came to.
    pub open spec fn describes(
        self,
        idx: int,
        r: Result<Entry, ParseError>,
        is_bios: bool,
        verbose: bool,
    ) -> bool {
        match (self, r) {
            (EntryListing::Parsed(fields), Ok(e)) => fields.describes(idx, e, is_bios, verbose),
            (EntryListing::Failed { index, error }, Err(err)) => index == idx && error@
                == parse_error_text(err),
            _ => false,
        }
    }
}

impl DirectoryListing {
    /// Whether this is the record of a directory.
    pub open spec fn describes(
        self,
        idx: int,
        dir: Directory,
        rom: RomListing<'_>,
        verbose: bool,
    ) -> bool {
        &&& self.directory == idx
        &&& self.address == dir.window().offset
        &&& self.magic@ == ascii_or_hex(dir.head().magic.0@)
        &&& self.secondary_addresses@ == secondaries(dir, rom.rom_size, rom.rom_origin)
        &&& exists|parsed: Seq<Result<Entry, ParseError>>| #[trigger]
            directory_parsed(parsed, dir, rom) && lists_entries(
                self.entries@,
                parsed,
                dir is Bios,
                verbose,
            )
    }
}

/// Whether `listings` are the records of what parsing some entries came to.
pub open spec fn lists_entries(
    listings: Seq<EntryListing>,
    parsed: Seq<Result<Entry, ParseError>>,
    is_bios: bool,
    verbose: bool,
) -> bool {
    &&& listings.len() == parsed.len()
    &&& forall|i: int|
        0 <= i < listings.len() ==> (#[trigger] listings[i]).describes(
            i,
            parsed[i],
            is_bios,
            verbose,
        )
}

fn entry_to_listing(idx: usize, e: &Entry, is_bios: bool, verbose: bool) -> (r: EntryFields)
    ensures
        r.describes(idx as int, *e, is_bios, verbose),
{
    broadcast use group_text;

    let destination_address = match &e.record {
        EntryRecord::Bios(b) => {
            if b.entry_type.0 == 0x62 && !b.destination_is_unused() {
                let mut text = String::new();
                push_hex(b.destination, &mut text);
                Some(text)
            } else {
                None
            }
        },
        _ => None,
    };
    let extra = if verbose {
        let sizes = match e.class.header() {
            Some(h) => Some(
                SizeListing {
                    signed: h.size_signed,
                    uncompressed: h.size_uncompressed,
                    packed: h.rom_size,
                    load_addr: h.load_addr,
                },
            ),
            None => None,
        };
        Some(VerboseListing { md5: body_md5_hex(&e.body), flags: entry_flags(&e.record), sizes })
    } else {
        None
    };
    EntryFields {
        index: idx,
        address: e.body.offset().0,
        size: e.body.len(),
        section_type: readable_type(e.entry_type(), is_bios),
        magic: magic_id_string(&e.class),
        version: version_string(&e.class),
        info: info_list(e, is_bios),
        destination_address,
        verbose: extra,
    }
}

fn entry_row_to_listing(
    idx: usize,
    row: &Result<Entry, ParseError>,
    is_bios: bool,
    verbose: bool,
) -> (r: EntryListing)
    ensures
        r.describes(idx as int, *row, is_bios, verbose),
{
    match row {
        Ok(e) => EntryListing::Parsed(entry_to_listing(idx, e, is_bios, verbose)),
        Err(err) => EntryListing::Failed { index: idx, error: err.text() },
    }
}

fn directory_to_listing(idx: usize, dir: &Directory, rom: &RomListing<'_>, verbose: bool) -> (r:
    DirectoryListing)
    ensures
        r.describes(idx as int, *dir, *rom, verbose),
{
    let parsed = parse_dir_entries(rom.blob, dir, rom.rom_size, rom.rom_origin);
    let is_bios = dir.is_bios();
    let mut entries: Vec<EntryListing> = Vec::new();
    while entries.len() < parsed.len()
        invariant
            entries@.len() <= parsed@.len(),
            forall|i: int|
                0 <= i < entries@.len() ==> (#[trigger] entries@[i]).describes(
                    i,
                    parsed@[i],
                    is_bios,
                    verbose,
                ),
        decreases parsed@.len() - entries@.len(),
    {
        let i: usize = entries.len();
        entries.push(entry_row_to_listing(i, &parsed[i], is_bios, verbose));
    }
    assert(directory_parsed(parsed@, *dir, *rom));
    DirectoryListing {
        directory: idx,
        address: dir.source().offset().0,
        magic: magic_string(&dir.header().magic.0),
        secondary_addresses: secondary_addresses(dir, rom.rom_size, rom.rom_origin),
        entries,
    }
}

/// The records of a ROM's directories; `verbose` asks for full records of the
/// entries.
pub fn list_json(rom: &RomListing<'_>, verbose: bool) -> (r: Vec<DirectoryListing>)
    ensures
        r@.len() == rom.directories@.len(),
        forall|d: int|
            0 <= d < r@.len() ==> (#[trigger] r@[d]).describes(
                d,
                rom.directories@[d].directory,
                *rom,
                verbose,
            ),
{
    let mut out: Vec<DirectoryListing> = Vec::new();
    while out.len() < rom.directories.len()
        invariant
            out@.len() <= rom.directories@.len(),
            forall|d: int|
                0 <= d < out@.len() ==> (#[trigger] out@[d]).describes(
                    d,
                    rom.directories@[d].directory,
                    *rom,
                    verbose,
                ),
        decreases rom.directories@.len() - out@.len(),
    {
        let d: usize = out.len();
        out.push(directory_to_listing(d, &rom.directories[d].directory, rom, verbose));
    }
    out
}

/// The number of records of the first `n` directories.
pub open spec fn total_records(dirs: Seq<DirectoryRef>, n: int) -> int
    decreases n,
{
    if n <= 0 {
        0
    } else {
        total_records(dirs, n - 1) + record_count(dirs[n - 1].directory)
    }
}

/// How much there is in a ROM.
pub open spec fn metrics_text(dirs: Seq<DirectoryRef>, rom_size: RomSize) -> Seq<char> {
    let total = total_records(dirs, dirs.len() as int);
    "directories: "@ + (dec(dirs.len()) + ("\nentries: "@ + (dec(
        (if total > u64::MAX {
            u64::MAX as int
        } else {
            total
        }) as nat,
    ) + ("\nrom_size: "@ + (prefixed_hex(rom_size.size() as nat) + "\n"@)))))
}

fn count_records(dir: &Directory) -> (r: usize)
    ensures
        r == record_count(*dir),
{
    match dir {
        Directory::Combo(c) => c.entries.len(),
        _ => count_entries(dir),
    }
}

/// How many directories and records there are, and the size of the ROM.
pub fn render_metrics(directories: &[DirectoryRef], rom_size: RomSize) -> (r: String)
    ensures
        r@ == metrics_text(directories@, rom_size),
{
    broadcast use group_text;

    let mut total: u64 = 0;
    let mut i: usize = 0;
    while i < directories.len()
        invariant
            i <= directories@.len(),
            0 <= total_records(directories@, i as int),
            total == (if total_records(directories@, i as int) > u64::MAX {
                u64::MAX as int
            } else {
                total_records(directories@, i as int)
            }),
        decreases directories@.len() - i,
    {
        total = total.saturating_add(count_records(&directories[i].directory) as u64);
        i += 1;
    }
    let mut out = String::new();
    out.append("directories: ");
    push_dec(directories.len() as u64, &mut out);
    out.append("\nentries: ");
    push_dec(total, &mut out);
    out.append("\nrom_size: ");
    out.append("0x");
    push_hex(rom_size.bytes(), &mut out);
    out.append("\n");
    out
}

proof fn lemma_in_either(a: Seq<Seq<char>>, b: Seq<Seq<char>>, w: Seq<char>)
    ensures
        (a + b).contains(w) <==> a.contains(w) || b.contains(w),
{
    let both = a + b;
    if a.contains(w) {
        let k = choose|k: int| 0 <= k < a.len() && a[k] == w;
        assert(both[k] == w);
    }
    if b.contains(w) {
        let k = choose|k: int| 0 <= k < b.len() && b[k] == w;
        assert(both[a.len() + k] == w);
    }
    if both.contains(w) {
        let k = choose|k: int| 0 <= k < both.len() && both[k] == w;
        if k < a.len() {
            assert(a[k] == w);
        } else {
            assert(b[k - a.len()] == w);
        }
    }
}

proof fn lemma_shown_one(shown: bool, a: Seq<char>, w: Seq<char>)
    ensures
        shown_if(shown, seq![a]).contains(w) <==> shown && w == a,
{
    if shown {
        assert(seq![a][0] == a);
    }
}

proof fn lemma_shown_two(shown: bool, a: Seq<char>, b: Seq<char>, w: Seq<char>)
    ensures
        shown_if(shown, seq![a, b]).contains(w) <==> shown && (w == a || w == b),
{
    if shown {
        assert(seq![a, b][0] == a);
        assert(seq![a, b][1] == b);
    }
}

/// The words that tell a property of a body.
pub open spec fn is_property(w: Seq<char>) -> bool {
    w == "compressed"@ || w == "encrypted"@ || w == "signed"@ || w == "sha256"@ || w == "sha384"@
}

proof fn lemma_properties_differ()
    ensures
        "compressed"@ != "encrypted"@,
        "compressed"@ != "signed"@,
        "compressed"@ != "sha256"@,
        "compressed"@ != "sha384"@,
        "encrypted"@ != "signed"@,
        "encrypted"@ != "sha256"@,
        "encrypted"@ != "sha384"@,
        "signed"@ != "sha256"@,
        "signed"@ != "sha384"@,
        "sha256"@ != "sha384"@,
        !is_property("SIG_UNKNOWN"@),
        !is_property("SHA_UNKNOWN"@),
        forall|w: Seq<char>|
            is_property(w) ==> w.len() > 0 && (#[trigger] w[0] == 'c' || w[0] == 'e' || w[0] == 's'),
{
    reveal_strlit("compressed");
    reveal_strlit("encrypted");
    reveal_strlit("signed");
    reveal_strlit("sha256");
    reveal_strlit("sha384");
    reveal_strlit("SIG_UNKNOWN");
    reveal_strlit("SHA_UNKNOWN");
    assert("compressed"@[0] == 'c');
    assert("encrypted"@[0] == 'e');
    assert("signed"@[0] == 's' && "signed"@[1] == 'i');
    assert("sha256"@[0] == 's' && "sha256"@[1] == 'h' && "sha256"@[3] == '2');
    assert("sha384"@[0] == 's' && "sha384"@[3] == '3');
    assert("SIG_UNKNOWN"@[0] == 'S');
    assert("SHA_UNKNOWN"@[0] == 'S');
}

proof fn lemma_closing_words_are_no_properties(e: Entry, is_bios_directory: bool, w: Seq<char>)
    requires
        is_property(w),
    ensures
        !closing_words(e, is_bios_directory).contains(w),
{
    lemma_properties_differ();
    reveal_strlit("AMD_CODE_SIGN");
    reveal_strlit("key_usage(");
    reveal_strlit("destination(");
    assert("AMD_CODE_SIGN"@[0] == 'A');
    assert("key_usage("@[0] == 'k');
    assert("destination("@[0] == 'd');
    assert(w[0] == 'c' || w[0] == 'e' || w[0] == 's');
    let words = closing_words(e, is_bios_directory);
    if words.contains(w) {
        let k = choose|k: int| 0 <= k < words.len() && words[k] == w;
        assert(words[k][0] == 'A' || words[k][0] == 'k' || words[k][0] == 'd');
    }
}

/// The little-endian word of four bytes at index `at`.
pub open spec fn word_in(s: Seq<u8>, at: int) -> int {
    s[at] + 0x100 * s[at + 1] + 0x1_0000 * s[at + 2] + 0x100_0000 * s[at + 3]
}

proof fn lemma_header_words(class: EntryClass, w: Seq<char>)
    requires
        is_property(w),
    ensures
        header_words(class).contains(w) <==> {
            &&& class.head() matches Some(h)
            &&& {
                ||| w == "signed"@ && h.signed_raw != 0
                ||| w == "encrypted"@ && h.is_encrypted
                ||| w == "sha256"@ && h.bitfield % 2 == 1
                ||| w == "sha384"@ && h.bitfield / 2 % 2 == 1
            }
        },
{
    lemma_properties_differ();
    if let Some(h) = class.head() {
        let a = shown_if(h.signed_raw != 0, seq!["signed"@, "SIG_UNKNOWN"@]);
        let b = shown_if(h.is_encrypted, seq!["encrypted"@]);
        let c = shown_if(h.bitfield % 2 == 1, seq!["sha256"@, "SHA_UNKNOWN"@]);
        let d = shown_if(h.bitfield / 2 % 2 == 1, seq!["sha384"@, "SHA_UNKNOWN"@]);
        lemma_shown_two(h.signed_raw != 0, "signed"@, "SIG_UNKNOWN"@, w);
        lemma_shown_one(h.is_encrypted, "encrypted"@, w);
        lemma_shown_two(h.bitfield % 2 == 1, "sha256"@, "SHA_UNKNOWN"@, w);
        lemma_shown_two(h.bitfield / 2 % 2 == 1, "sha384"@, "SHA_UNKNOWN"@, w);
        lemma_in_either(c, d, w);
        lemma_in_either(b, c + d, w);
        lemma_in_either(a, b + (c + d), w);
    }
}

/// What the list of an entry tells of its body is what the bytes say. Of a body
/// with a header: that it is encrypted when the word at `0x18` is 1, signed when
/// the word at `0x30` is not zero, and with checksums as bits 0 and 1 of the byte
/// at `0x5B` say. It is compressed when the word at `0x48` is 1, or bit 3 of the
/// flags of its BIOS record is set. Nothing but the last is told of other bodies.
pub proof fn lemma_info_tells(e: Entry, is_bios_directory: bool)
    requires
        e.class.describes(e.record.kind(), e.record is Bios, e.body@),
        e.record matches EntryRecord::Bios(b) ==> b.decodes(b.source@) && b.source@.bytes.len()
            == 24,
    ensures
        ({
            let info = info_words(e, is_bios_directory);
            let body = e.body@.bytes;
            let headed = e.class is Header || e.class is KeyStore;
            &&& info.contains("encrypted"@) <==> headed && word_in(body, 0x18) == 1
            &&& info.contains("signed"@) <==> headed && word_in(body, 0x30) != 0
            &&& info.contains("sha256"@) <==> headed && body[0x5B] % 2 == 1
            &&& info.contains("sha384"@) <==> headed && body[0x5B] / 2 % 2 == 1
            &&& info.contains("compressed"@) <==> {
                ||| headed && word_in(body, 0x48) == 1
                ||| e.record matches EntryRecord::Bios(b) && b.source@.bytes[2] / 8 % 2 == 1
            }
        }),
{
    let info = info_words(e, is_bios_directory);
    let body = e.body@.bytes;
    if let Some(h) = e.class.head() {
        lemma_header_bits(h.bitfield, body);
        assert(h.decodes(e.body@));
    }
    assert forall|w: Seq<char>| #[trigger] is_property(w) implies (info.contains(w) <==> (w
        == "compressed"@ && is_packed(e)) || header_words(e.class).contains(w)) by {
        let a = shown_if(is_packed(e), seq!["compressed"@]);
        lemma_shown_one(is_packed(e), "compressed"@, w);
        lemma_closing_words_are_no_properties(e, is_bios_directory, w);
        lemma_in_either(header_words(e.class), closing_words(e, is_bios_directory), w);
        lemma_in_either(a, header_words(e.class) + closing_words(e, is_bios_directory), w);
    }
    lemma_properties_differ();
    assert(is_property("compressed"@) && is_property("encrypted"@) && is_property("signed"@)
        && is_property("sha256"@) && is_property("sha384"@));
    lemma_header_words(e.class, "compressed"@);
    lemma_header_words(e.class, "encrypted"@);
    lemma_header_words(e.class, "signed"@);
    lemma_header_words(e.class, "sha256"@);
    lemma_header_words(e.class, "sha384"@);
}

proof fn lemma_header_bits(bitfield: u32, body: Seq<u8>)
    ensures
        bitfield == be32(body, 0x58) ==> bitfield % 2 == body[0x5B] % 2 && bitfield / 2 % 2
            == body[0x5B] / 2 % 2,
{
}

/// The record of an entry tells what the bytes say: where its body stands and how
/// long it is, its properties, the flags of its record and the sizes in its header.
/// The address of a BIOS image is told unless all its bits are set.
pub proof fn lemma_entry_record(
    fields: EntryFields,
    idx: int,
    e: Entry,
    is_bios: bool,
    verbose: bool,
)
    requires
        fields.describes(idx, e, is_bios, verbose),
        e.class.describes(e.record.kind(), e.record is Bios, e.body@),
        e.record matches EntryRecord::Bios(b) ==> b.decodes(b.source@) && b.source@.bytes.len()
            == 24,
        e.record matches EntryRecord::Psp(p) ==> p.decodes(p.source@) && p.source@.bytes.len()
            == 16,
    ensures
        ({
            let info = views(fields.info@);
            let body = e.body@.bytes;
            let record = e.record.window().bytes;
            let headed = e.class is Header || e.class is KeyStore;
            &&& fields.index == idx
            &&& fields.address == e.body@.offset
            &&& fields.size == body.len()
            &&& fields.section_type@ == type_text(record[0], is_bios)
            &&& info.contains("encrypted"@) <==> headed && word_in(body, 0x18) == 1
            &&& info.contains("signed"@) <==> headed && word_in(body, 0x30) != 0
            &&& info.contains("sha256"@) <==> headed && body[0x5B] % 2 == 1
            &&& info.contains("sha384"@) <==> headed && body[0x5B] / 2 % 2 == 1
            &&& info.contains("compressed"@) <==> {
                ||| headed && word_in(body, 0x48) == 1
                ||| e.record is Bios && record[2] / 8 % 2 == 1
            }
            &&& fields.destination_address is Some <==> e.record is Bios && record[0] == 0x62 && !(
            word_in(record, 16) == 0xFFFF_FFFF && word_in(record, 20) == 0xFFFF_FFFF)
            &&& fields.destination_address matches Some(text) ==> text@ == hex(
                (word_in(record, 16) + 0x1_0000_0000 * word_in(record, 20)) as nat,
            )
            &&& fields.verbose is Some <==> verbose
            &&& fields.verbose matches Some(more) ==> {
                &&& more.md5@ == hex_bytes(md5_of(body))
                &&& more.flags == record[2] + 0x100 * record[3]
                &&& more.sizes is Some <==> headed
                &&& more.sizes matches Some(sizes) ==> {
                    &&& sizes.signed == word_in(body, 0x14)
                    &&& sizes.uncompressed == word_in(body, 0x50)
                    &&& sizes.packed == word_in(body, 0x6C)
                    &&& sizes.load_addr == word_in(body, 0x68)
                }
            }
        }),
{
    lemma_info_tells(e, is_bios);
    if let EntryRecord::Bios(b) = e.record {
        lemma_wide_word(b.source@.bytes);
    }
}

proof fn lemma_wide_word(s: Seq<u8>)
    requires
        s.len() == 24,
    ensures
        le64(s, 16) == word_in(s, 16) + 0x1_0000_0000 * word_in(s, 20),
        le64(s, 16) == u64::MAX <==> word_in(s, 16) == 0xFFFF_FFFF && word_in(s, 20)
            == 0xFFFF_FFFF,
{
}

/// What stands in the columns of an entry. The first two are empty.
pub proof fn lemma_entry_columns(idx: int, e: Entry, is_bios: bool, verbose: bool)
    ensures
        ({
            let headers = entry_headers(verbose);
            let cells = entry_cells(idx, e, is_bios, verbose);
            &&& headers.len() == cells.len()
            &&& cells[0].len() == 0 && cells[1].len() == 0
            &&& headers[2] == "Entry"@ && cells[2] == dec(idx as nat)
            &&& headers[3] == "Address"@ && cells[3] == "0x"@ + hex(e.body@.offset as nat)
            &&& headers[4] == "Size"@ && cells[4] == "0x"@ + hex(e.body@.bytes.len())
            &&& headers[5] == "Type"@ && cells[5] == type_text(e.record.kind().0, is_bios)
            &&& headers[6] == "Subprogram"@ && cells[6] == dec(subprogram_of(e.record) as nat)
            &&& headers[7] == "Instance"@ && cells[7] == dec(instance_of(e.record) as nat)
            &&& headers[8] == "Magic/ID"@ && cells[8] == magic_id_text(e.class)
            &&& headers[9] == "File Version"@ && cells[9] == version_text(e.class)
            &&& headers[10] == "File Info"@ && cells[10] == joined(info_words(e, is_bios), ", "@)
            &&& verbose ==> {
                &&& headers[11] == "flags"@ && cells[11] == "0x"@ + hex(flags_of(e.record) as nat)
                &&& headers[12] == "MD5"@ && cells[12] == hex_bytes(md5_of(e.body@.bytes))
                &&& headers[13] == "size_signed"@ && headers[14] == "size_full"@ && headers[15]
                    == "size_packed"@ && headers[16] == "load_addr"@
                &&& e.class.head() matches Some(h) ==> {
                    &&& cells[13] == "0x"@ + hex(h.size_signed as nat)
                    &&& cells[14] == "0x"@ + hex(h.size_uncompressed as nat)
                    &&& cells[15] == "0x"@ + hex(h.rom_size as nat)
                    &&& cells[16] == "0x"@ + hex(h.load_addr as nat)
                }
                &&& e.class.head() is None ==> forall|c: int|
                    13 <= c < 17 ==> (#[trigger] cells[c]).len() == 0
            }
        }),
{
}

/// The subprogram and the instance of a record by its bytes: of a PSP record the
/// second byte, and bits 6 to 3 of the flags; of a BIOS record bits 10 to 8 and
/// bits 7 to 4 of the flags.
pub proof fn lemma_subprogram_and_instance(rec: EntryRecord)
    requires
        rec matches EntryRecord::Psp(p) ==> p.decodes(p.source@),
        rec matches EntryRecord::Bios(b) ==> b.decodes(b.source@),
    ensures
        ({
            let s = rec.window().bytes;
            &&& rec is Psp ==> subprogram_of(rec) == s[1] && instance_of(rec) == s[2] / 8 % 16
            &&& rec is Bios ==> subprogram_of(rec) == s[3] % 8 && instance_of(rec) == s[2] / 16
            &&& flags_of(rec) == s[2] + 0x100 * s[3]
        }),
{
    let s = rec.window().bytes;
    lemma_flag_bits(s[2], s[3]);
}

#[verifier::spinoff_prover]
proof fn lemma_flag_bits(low: u8, high: u8)
    ensures
        ({
            let flags = (low + high * 0x100) as u16;
            &&& flags == low + 0x100 * high
            &&& flags / 8 % 16 == low / 8 % 16
            &&& flags / 256 % 8 == high % 8
            &&& flags / 16 % 16 == low / 16
        }),
{
    let flags = low as u16 + high as u16 * 0x100;
    assert(flags / 8 == low / 8 + 32 * high);
    assert((low / 8 + 32 * high) % 16 == low / 8 % 16);
    assert(flags / 256 == high);
    assert(flags / 16 == low / 16 + 16 * high);
    assert((low / 16 + 16 * high) % 16 == low / 16);
}

/// The generations of a combo directory: each that a record names, and each once.
pub proof fn lemma_generations(dir: Directory, n: int)
    requires
        dir matches Directory::Combo(c) && 0 <= n <= c.entries@.len(),
    ensures
        distinct_generations(dir, n).no_duplicates(),
        forall|g: ZenGeneration| #[trigger]
            distinct_generations(dir, n).contains(g) <==> exists|k: int|
                0 <= k < n && generation_of(
                    (#[trigger] dir->Combo_0.entries@[k]).psp_generation.0 / 0x100,
                ) == Some(g),
    decreases n,
{
    if n > 0 {
        lemma_generations(dir, n - 1);
        let before = distinct_generations(dir, n - 1);
        let all = distinct_generations(dir, n);
        assert(combo_generation(dir, n - 1) == generation_of(
            dir->Combo_0.entries@[n - 1].psp_generation.0 / 0x100,
        ));
        assert forall|g: ZenGeneration| #[trigger] all.contains(g) <==> exists|k: int|
            0 <= k < n && generation_of(
                (#[trigger] dir->Combo_0.entries@[k]).psp_generation.0 / 0x100,
            ) == Some(g) by {
            if before.contains(g) {
                let m = choose|m: int| 0 <= m < before.len() && before[m] == g;
                assert(all[m] == g);
            }
            if all.contains(g) {
                let m = choose|m: int| 0 <= m < all.len() && all[m] == g;
                if m < before.len() {
                    assert(before[m] == g);
                    assert(before.contains(g));
                }
            }
            if combo_generation(dir, n - 1) == Some(g) && !before.contains(g) {
                assert(all[before.len() as int] == g);
            }
        }
    }
}

/// A directory that a record of a combo directory leads to is listed under the
/// generation that this record names.
pub proof fn lemma_inherited_generation(d: DirectoryRef, dirs: Seq<DirectoryRef>, k: int)
    requires
        d.directory !is Combo,
        0 <= k < dirs.len(),
        ({
            &&& d.provenance matches DirectoryProvenance::ComboEntry { combo_offset, index }
            &&& dirs[k].directory matches Directory::Combo(c)
            &&& c.source@.offset == combo_offset.0
            &&& index < c.entries@.len()
            &&& generation_of(c.entries@[index as int].psp_generation.0 / 0x100) is Some
            &&& forall|j: int|
                0 <= j < dirs.len() && j != k ==> (#[trigger] dirs[j]).directory.window().offset
                    != combo_offset.0
        }),
    ensures
        d.provenance matches DirectoryProvenance::ComboEntry { combo_offset, index }
            && dirs[k].directory matches Directory::Combo(c) && generation_text(d, dirs)
            == zen_name(
            generation_of(c.entries@[index as int].psp_generation.0 / 0x100)->Some_0,
        )@,
{
    if let DirectoryProvenance::ComboEntry { combo_offset, index } = d.provenance {
        lemma_inherited_from(dirs, combo_offset, index as int, 0, k);
    }
}

proof fn lemma_inherited_from(
    dirs: Seq<DirectoryRef>,
    offset: FlashOffset,
    index: int,
    from: int,
    k: int,
)
    requires
        0 <= from <= k < dirs.len(),
        dirs[k].directory.window().offset == offset.0,
        combo_generation(dirs[k].directory, index) is Some,
        forall|j: int|
            0 <= j < dirs.len() && j != k ==> (#[trigger] dirs[j]).directory.window().offset
                != offset.0,
    ensures
        inherited_generation(dirs, offset, index, from) == zen_name(
            combo_generation(dirs[k].directory, index)->Some_0,
        )@,
    decreases k - from,
{
    if from < k {
        lemma_inherited_from(dirs, offset, index, from + 1, k);
    }
}

/// The tables of every directory are part of the listing, in order.
pub proof fn lemma_every_directory_is_listed(
    rom: RomListing<'_>,
    parsed: Seq<Seq<Result<Entry, ParseError>>>,
    verbose: bool,
    n: int,
    d: int,
)
    requires
        0 <= d < n,
    ensures
        exists|behind: Seq<char>|
            directories_text(rom, parsed, verbose, n) == #[trigger] (directories_text(
                rom,
                parsed,
                verbose,
                d,
            ) + directory_text(rom, d, parsed[d], verbose) + behind),
    decreases n,
{
    let front = directories_text(rom, parsed, verbose, d) + directory_text(
        rom,
        d,
        parsed[d],
        verbose,
    );
    if d == n - 1 {
        assert(directories_text(rom, parsed, verbose, n) == front);
        lemma_nothing_behind(front);
    } else {
        lemma_every_directory_is_listed(rom, parsed, verbose, n - 1, d);
        let behind = choose|behind: Seq<char>|
            directories_text(rom, parsed, verbose, n - 1) == #[trigger] (front + behind);
        let last = directory_text(rom, n - 1, parsed[n - 1], verbose);
        lemma_concat_assoc(front, behind, last);
        assert(directories_text(rom, parsed, verbose, n) == front + (behind + last));
    }
}

proof fn lemma_nothing_behind(front: Seq<char>)
    ensures
        front == front + Seq::<char>::empty(),
{
    assert(front =~= front + Seq::<char>::empty());
}

/// Two lower-case hexadecimal digits.
pub open spec fn two_digits(b: u8) -> Seq<char> {
    pad_left(hex(b as nat), '0', 2)
}

/// What identifies a body, by its bytes: the tag at `0x10` of one with a header,
/// the first four bytes at `0x14` of a public key. The version of a body with a
/// header are its four bytes at `0x60`, the last first.
pub proof fn lemma_identity_texts(class: EntryClass, t: EntryType, is_bios: bool, body: Window)
    requires
        class.describes(t, is_bios, body),
    ensures
        ({
            let b = body.bytes;
            let headed = class is Header || class is KeyStore;
            &&& headed ==> magic_id_text(class) == ascii_or_hex(b.subrange(0x10, 0x14))
            &&& class is Pubkey ==> magic_id_text(class) == ascii_or_hex(b.subrange(0x14, 0x18))
            &&& !headed && !(class is Pubkey) ==> magic_id_text(class).len() == 0
            &&& headed ==> version_text(class) == two_digits(b[0x63]) + ("."@ + (two_digits(b[0x62])
                + ("."@ + (two_digits(b[0x61]) + ("."@ + two_digits(b[0x60]))))))
            &&& !headed ==> version_text(class).len() == 0
        }),
{
    let b = body.bytes;
    if let Some(h) = class.head() {
        assert(h.decodes(body));
        assert(h.version@[0] == b.subrange(0x60, 0x64)[0]);
        assert(h.version@[1] == b.subrange(0x60, 0x64)[1]);
        assert(h.version@[2] == b.subrange(0x60, 0x64)[2]);
        assert(h.version@[3] == b.subrange(0x60, 0x64)[3]);
    }
    if let EntryClass::Pubkey(p) = class {
        assert(p.decodes(body));
        assert(p.certifying_id@.subrange(0, 4) =~= b.subrange(0x14, 0x18));
    }
}

/// The list of an entry tells what a public key is for: signing of AMD's code when
/// the word at `0x24` is zero. It tells where an entry of type `0x61` or `0x62` of
/// a BIOS directory is copied to, unless all bits of that address are set.
pub proof fn lemma_info_tells_purpose(e: Entry, is_bios_directory: bool)
    requires
        e.class.describes(e.record.kind(), e.record is Bios, e.body@),
        e.record matches EntryRecord::Bios(b) ==> b.decodes(b.source@) && b.source@.bytes.len()
            == 24,
    ensures
        ({
            let info = info_words(e, is_bios_directory);
            let body = e.body@.bytes;
            let record = e.record.window().bytes;
            let copied = word_in(record, 16) + 0x1_0000_0000 * word_in(record, 20);
            &&& e.class is Pubkey && word_in(body, 0x24) == 0 ==> info.contains("AMD_CODE_SIGN"@)
            &&& e.class is Pubkey && word_in(body, 0x24) != 0 ==> info.contains(
                "key_usage("@ + (prefixed_hex(word_in(body, 0x24) as nat) + ")"@),
            )
            &&& e.record is Bios && is_bios_directory && (record[0] == 0x61 || record[0] == 0x62)
                && copied != u64::MAX ==> info.contains(
                "destination("@ + (hex(copied as nat) + ")"@),
            )
        }),
{
    let info = info_words(e, is_bios_directory);
    let front = shown_if(is_packed(e), seq!["compressed"@]);
    let middle = header_words(e.class);
    let last = closing_words(e, is_bios_directory);
    assert forall|w: Seq<char>| #[trigger] last.contains(w) implies info.contains(w) by {
        lemma_in_either(middle, last, w);
        lemma_in_either(front, middle + last, w);
    }
    if let EntryClass::Pubkey(p) = e.class {
        assert(p.decodes(e.body@));
        assert(last[0] == usage_text(p));
        assert(last.contains(usage_text(p)));
    }
    if let EntryRecord::Bios(b) = e.record {
        lemma_wide_word(b.source@.bytes);
        if let Some(at) = shown_destination(e, is_bios_directory) {
            let w = "destination("@ + (hex(at as nat) + ")"@);
            assert(last[last.len() - 1] == w);
            assert(last.contains(w));
        }
    }
}

/// The number of records of a ROM is the sum of the numbers that the headers of its
/// directories count, combo directories among them.
pub proof fn lemma_records_add_up(dirs: Seq<DirectoryRef>, n: int)
    requires
        0 < n <= dirs.len(),
    ensures
        total_records(dirs, 0) == 0,
        total_records(dirs, n) == total_records(dirs, n - 1) + (match dirs[n - 1].directory {
            Directory::Psp(p) => p.entries@.len(),
            Directory::Bios(b) => b.entries@.len(),
            Directory::Combo(c) => c.entries@.len(),
        }),
{
}

/// What stands in the columns of a directory and of the ROM itself: places and
/// sizes in hexadecimal, the generation, the tag, and the places of the directories
/// that it leads to, in the order of its records.
pub proof fn lemma_directory_columns(idx: int, d: DirectoryRef, rom: RomListing<'_>)
    ensures
        ({
            let grid = directory_grid(idx, d, rom);
            let row = grid.rows[0];
            let to = secondaries(d.directory, rom.rom_size, rom.rom_origin);
            &&& grid.rows.len() == 1 && row.len() == 6 && grid.headers.len() == 6
            &&& grid.headers[1] == "Directory"@ && row[1] == dec(idx as nat)
            &&& grid.headers[2] == "Addr"@ && row[2] == "0x"@ + hex(
                d.directory.window().offset as nat,
            )
            &&& grid.headers[3] == "Generation"@ && row[3] == generation_text(d, rom.directories@)
            &&& grid.headers[4] == "Magic"@ && row[4] == ascii_or_hex(d.directory.head().magic.0@)
            &&& grid.headers[5] == "Secondary Directory"@
            &&& row[5] == joined(to.map_values(|at: u64| "0x"@ + hex(at as nat)), ", "@)
        }),
        ({
            let grid = rom_grid(rom);
            let row = grid.rows[0];
            &&& grid.rows.len() == 1 && row.len() == 5 && grid.headers.len() == 5
            &&& grid.headers[0] == "ROM"@ && row[0] == dec(rom.index as nat)
            &&& grid.headers[1] == "Addr"@ && row[1] == "0x"@ + hex(rom.blob@.offset as nat)
            &&& grid.headers[2] == "Size"@ && row[2] == "0x"@ + hex(rom.blob@.bytes.len())
            &&& grid.headers[3] == "FET"@ && row[3] == "0x"@ + hex(rom.fet.source@.offset as nat)
            &&& grid.headers[4] == "AGESA"@ && row[4] == "AGESA_UNKNOWN"@
        }),
{
    let to = secondaries(d.directory, rom.rom_size, rom.rom_origin);
    assert(to.map_values(|at: u64| prefixed_hex(at as nat)) =~= to.map_values(
        |at: u64| "0x"@ + hex(at as nat),
    ));
}

/// The table of a directory has a row for every record, in order: the columns of
/// the entry, or what was wrong with it and nothing else beside its number.
pub proof fn lemma_entry_rows(
    dir: Directory,
    parsed: Seq<Result<Entry, ParseError>>,
    verbose: bool,
    i: int,
)
    requires
        0 <= i < parsed.len(),
    ensures
        ({
            let grid = entries_grid(dir, parsed, verbose);
            &&& grid.rectangular()
            &&& grid.headers == entry_headers(verbose)
            &&& grid.rows.len() == parsed.len()
            &&& grid.rows[i][2] == dec(i as nat)
            &&& parsed[i] matches Ok(e) ==> grid.rows[i] == entry_cells(
                i,
                e,
                dir is Bios,
                verbose,
            )
            &&& parsed[i] matches Err(err) ==> {
                &&& grid.rows[i][5] == "<parse error: "@ + (parse_error_text(err) + ">"@)
                &&& forall|c: int|
                    0 <= c < grid.headers.len() && c != 2 && c != 5 ==> (
                    #[trigger] grid.rows[i][c]).len() == 0
            }
        }),
{
}

/// The record of a directory has one of every entry, numbered in order: of what was
/// parsed, or of what was wrong with it.
pub proof fn lemma_directory_record(
    listing: DirectoryListing,
    idx: int,
    dir: Directory,
    rom: RomListing<'_>,
    verbose: bool,
)
    requires
        listing.describes(idx, dir, rom, verbose),
    ensures
        listing.directory == idx,
        listing.address == dir.window().offset,
        listing.magic@ == ascii_or_hex(dir.head().magic.0@),
        listing.secondary_addresses@ == secondaries(dir, rom.rom_size, rom.rom_origin),
        listing.entries@.len() == crate::inventory::entry_count(dir),
        forall|i: int|
            0 <= i < listing.entries@.len() ==> match #[trigger] listing.entries@[i] {
                EntryListing::Parsed(fields) => fields.index == i,
                EntryListing::Failed { index, error } => index == i,
            },
{
    let parsed = choose|parsed: Seq<Result<Entry, ParseError>>| #[trigger]
        directory_parsed(parsed, dir, rom) && lists_entries(
            listing.entries@,
            parsed,
            dir is Bios,
            verbose,
        );
    assert forall|i: int| 0 <= i < listing.entries@.len() implies match #[trigger] listing.entries@[i] {
        EntryListing::Parsed(fields) => fields.index == i,
        EntryListing::Failed { index, error } => index == i,
    } by {
        assert(listing.entries@[i].describes(i, parsed[i], dir is Bios, verbose));
    }
}

} // verus!
