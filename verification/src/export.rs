//! What is written out for an entry, and under which name.

use vstd::prelude::*;

use crate::address::{FlashOffset, RomSize};
use crate::body::Ikek;
use crate::crypto::{encode_pem, key_fault, le_nat, lemma_le_nat_f4, public_key_new, public_key_pem};
use crate::entry::{Entry, EntryClass, PubkeyEntry};
use crate::error::ParseError;
use crate::extract::{
    decrypted_file_of, decrypted_of, extract_decrypted, extract_decrypted_file,
    extract_fault_text, extract_raw, extract_unpacked_file, unpacked_file_of, ExtractError,
    ExtractFault,
};
use crate::inventory::{complete, parse_all, Item};
use crate::list::{instance_of, subprogram_of};
use crate::source::{SourceBytes, Window};
use crate::text::{
    dec, group_text, lemma_push_is_concat, pad_left, prefixed_hex, push_dec_padded, push_hex,
    push_upper_hex, upper_hex,
};
use crate::types::{readable_type, type_text};
use crate::walk::DirectoryRef;

verus! {

/// Why a public key has no PEM text.
#[derive(Debug)]
pub enum PemError {
    /// The key is too short for its modulus.
    TooShort,
    /// The exponent is not 65537.
    UnsupportedExponent,
    /// The numbers do not make a public key.
    InvalidKey(String),
    Encoding(String),
}

/// What a `PemError` says.
pub enum PemFault {
    TooShort,
    UnsupportedExponent,
    InvalidKey(Seq<char>),
    Encoding(Seq<char>),
}

impl View for PemError {
    type V = PemFault;

    open spec fn view(&self) -> PemFault {
        match self {
            PemError::TooShort => PemFault::TooShort,
            PemError::UnsupportedExponent => PemFault::UnsupportedExponent,
            PemError::InvalidKey(text) => PemFault::InvalidKey(text@),
            PemError::Encoding(text) => PemFault::Encoding(text@),
        }
    }
}

/// One-line description of a fault.
pub open spec fn pem_fault_text(e: PemFault) -> Seq<char> {
    match e {
        PemFault::TooShort => "pubkey body too short to contain modulus"@,
        PemFault::UnsupportedExponent => "public exponent is not 65537"@,
        PemFault::InvalidKey(text) => "constructing RSA public key: "@ + text,
        PemFault::Encoding(text) => "PEM-encoding public key: "@ + text,
    }
}

impl PemError {
    pub fn push_text(&self, out: &mut String)
        ensures
            final(out)@ == old(out)@ + pem_fault_text(self@),
    {
        broadcast use group_text;

        match self {
            PemError::TooShort => out.append("pubkey body too short to contain modulus"),
            PemError::UnsupportedExponent => out.append("public exponent is not 65537"),
            PemError::InvalidKey(text) => {
                out.append("constructing RSA public key: ");
                out.append(text.as_str());
            },
            PemError::Encoding(text) => {
                out.append("PEM-encoding public key: ");
                out.append(text.as_str());
            },
        }
    }
}

/// The PEM text of a public key.
pub open spec fn pem_of(key: PubkeyEntry) -> Result<Seq<u8>, PemFault> {
    let b = key.source@.bytes;
    if b.len() < key.modulus_end() {
        Err(PemFault::TooShort)
    } else if le_nat(b.subrange(0x40, key.exponent_end())) != 65537 {
        Err(PemFault::UnsupportedExponent)
    } else {
        let n = le_nat(b.subrange(key.exponent_end(), key.modulus_end()));
        match key_fault(n, 65537) {
            Some(text) => Err(PemFault::InvalidKey(text)),
            None => match public_key_pem(n, 65537) {
                Ok(pem) => Ok(pem),
                Err(text) => Err(PemFault::Encoding(text)),
            },
        }
    }
}

fn is_f4(s: &[u8]) -> (r: bool)
    ensures
        r == (le_nat(s@) == 65537),
{
    proof {
        lemma_le_nat_f4(s@);
    }
    if s.len() < 3 || s[0] != 1 || s[1] != 0 || s[2] != 1 {
        return false;
    }
    let mut i: usize = 3;
    while i < s.len()
        invariant
            3 <= i <= s@.len(),
            forall|j: int| 3 <= j < i ==> #[trigger] s@[j] == 0,
        decreases s@.len() - i,
    {
        if s[i] != 0 {
            proof {
                lemma_le_nat_f4(s@);
            }
            assert(s@[i as int] != 0);
            return false;
        }
        i += 1;
    }
    true
}

/// What follows the encoder: the PEM text or its error.
pub fn pem_outcome(encoded: Result<Vec<u8>, String>) -> (r: Result<Vec<u8>, PemError>)
    ensures
        match encoded {
            Ok(pem) => r matches Ok(out) && out@ == pem@,
            Err(text) => r matches Err(e) && e@ == PemFault::Encoding(text@),
        },
{
    match encoded {
        Ok(pem) => Ok(pem),
        Err(text) => Err(PemError::Encoding(text)),
    }
}

/// The PEM text of a public key. Only the exponent 65537 is supported.
pub fn pem_for_pubkey(key: &PubkeyEntry) -> (r: Result<Vec<u8>, PemError>)
    ensures
        match r {
            Ok(pem) => pem_of(*key) == Ok::<Seq<u8>, PemFault>(pem@),
            Err(e) => pem_of(*key) == Err::<Seq<u8>, PemFault>(e@),
        },
{
    let bytes = key.source.as_bytes();
    let modulus_at: usize = 0x40 + key.pubexp_size();
    let end: usize = modulus_at + key.modulus_size();
    if bytes.len() < end {
        return Err(PemError::TooShort);
    }
    let exponent = &bytes[0x40..modulus_at];
    if !is_f4(exponent) {
        return Err(PemError::UnsupportedExponent);
    }
    match public_key_new(&bytes[modulus_at..end], exponent) {
        Ok(public) => pem_outcome(encode_pem(&public)),
        Err(text) => Err(PemError::InvalidKey(text)),
    }
}

/// What is to be done with the bytes of an entry. The first that is set
/// counts.
///
/// Decompressing gives the header and the plain data, up to the signed size.
/// Decrypting gives the entry with its data decrypted and the header saying so
/// when one entry is asked for, and the decrypted data alone for many.
#[derive(Copy, Clone, Debug, PartialEq, Eq, Structural)]
pub struct Transform {
    pub decompress: bool,
    pub decrypt: bool,
    pub pem_key: bool,
}

/// Why the bytes of an entry were not transformed.
#[derive(Debug)]
pub enum TransformError {
    Decompress(ExtractError),
    Decrypt(ExtractError),
    NotAPubkey,
    Pem(PemError),
}

/// What a `TransformError` says.
pub enum TransformFault {
    Decompress(ExtractFault),
    Decrypt(ExtractFault),
    NotAPubkey,
    Pem(PemFault),
}

impl View for TransformError {
    type V = TransformFault;

    open spec fn view(&self) -> TransformFault {
        match self {
            TransformError::Decompress(e) => TransformFault::Decompress(e@),
            TransformError::Decrypt(e) => TransformFault::Decrypt(e@),
            TransformError::NotAPubkey => TransformFault::NotAPubkey,
            TransformError::Pem(e) => TransformFault::Pem(e@),
        }
    }
}

/// One-line description of a fault.
pub open spec fn transform_fault_text(e: TransformFault) -> Seq<char> {
    match e {
        TransformFault::Decompress(fault) => "decompressing entry: "@ + extract_fault_text(fault),
        TransformFault::Decrypt(fault) => "decrypting entry: "@ + extract_fault_text(fault),
        TransformFault::NotAPubkey => "-k specified but entry is not a pubkey"@,
        TransformFault::Pem(fault) => pem_fault_text(fault),
    }
}

impl TransformError {
    pub fn text(&self) -> (r: String)
        ensures
            r@ == transform_fault_text(self@),
    {
        broadcast use group_text;

        let mut out = String::new();
        match self {
            TransformError::Decompress(e) => {
                out.append("decompressing entry: ");
                let text = e.text();
                out.append(text.as_str());
            },
            TransformError::Decrypt(e) => {
                out.append("decrypting entry: ");
                let text = e.text();
                out.append(text.as_str());
            },
            TransformError::NotAPubkey => out.append("-k specified but entry is not a pubkey"),
            TransformError::Pem(e) => e.push_text(&mut out),
        }
        out
    }
}

/// The bytes of an entry, transformed as asked for.
pub open spec fn transformed(entry: Entry, t: Transform) -> Result<Seq<u8>, TransformFault> {
    if t.decompress {
        match unpacked_file_of(entry, Ikek::ZenPlus) {
            Ok(bytes) => Ok(bytes),
            Err(e) => Err(TransformFault::Decompress(e)),
        }
    } else if t.decrypt {
        match decrypted_file_of(entry, Ikek::ZenPlus) {
            Ok(bytes) => Ok(bytes),
            Err(e) => Err(TransformFault::Decrypt(e)),
        }
    } else if t.pem_key {
        match entry.class {
            EntryClass::Pubkey(key) => match pem_of(key) {
                Ok(bytes) => Ok(bytes),
                Err(e) => Err(TransformFault::Pem(e)),
            },
            _ => Err(TransformFault::NotAPubkey),
        }
    } else {
        Ok(entry.body@.bytes)
    }
}

/// The bytes of an entry, transformed as asked for; an entry that the request
/// does not suit is an error.
pub fn transform_single(entry: &Entry, t: Transform) -> (r: Result<Vec<u8>, TransformError>)
    ensures
        match r {
            Ok(bytes) => transformed(*entry, t) == Ok::<Seq<u8>, TransformFault>(bytes@),
            Err(e) => transformed(*entry, t) == Err::<Seq<u8>, TransformFault>(e@),
        },
{
    if t.decompress {
        match extract_unpacked_file(entry, Ikek::ZenPlus) {
            Ok(bytes) => Ok(bytes),
            Err(e) => Err(TransformError::Decompress(e)),
        }
    } else if t.decrypt {
        match extract_decrypted_file(entry, Ikek::ZenPlus) {
            Ok(bytes) => Ok(bytes),
            Err(e) => Err(TransformError::Decrypt(e)),
        }
    } else if t.pem_key {
        match &entry.class {
            EntryClass::Pubkey(key) => match pem_for_pubkey(key) {
                Ok(bytes) => Ok(bytes),
                Err(e) => Err(TransformError::Pem(e)),
            },
            _ => Err(TransformError::NotAPubkey),
        }
    } else {
        Ok(extract_raw(entry))
    }
}

/// The bytes of an entry, one of many, transformed where the request suits it
/// and as they are otherwise.
pub open spec fn transformed_or_raw(entry: Entry, t: Transform) -> Seq<u8> {
    if t.decrypt && !t.decompress {
        match decrypted_of(entry, Ikek::ZenPlus) {
            Ok(bytes) => bytes,
            Err(_) => entry.body@.bytes,
        }
    } else {
        match transformed(entry, t) {
            Ok(bytes) => bytes,
            Err(_) => entry.body@.bytes,
        }
    }
}

fn transform_or_raw(entry: &Entry, t: Transform) -> (r: Vec<u8>)
    ensures
        r@ == transformed_or_raw(*entry, t),
{
    if t.decrypt && !t.decompress {
        match extract_decrypted(entry, Ikek::ZenPlus) {
            Ok(bytes) => bytes,
            Err(_) => extract_raw(entry),
        }
    } else {
        match transform_single(entry, t) {
            Ok(bytes) => bytes,
            Err(_) => extract_raw(entry),
        }
    }
}

/// Subprogram and instance of an entry in a name, unless both are zero.
pub open spec fn sub_ins_text(entry: Entry) -> Seq<char> {
    let subprogram = subprogram_of(entry.record);
    let instance = instance_of(entry.record);
    if subprogram == 0 && instance == 0 {
        Seq::empty()
    } else {
        "_SUB_"@ + (prefixed_hex(subprogram as nat) + ("_INS_"@ + prefixed_hex(instance as nat)))
    }
}

/// The version of an entry with a header in a name, its first part first.
pub open spec fn version_suffix(entry: Entry) -> Seq<char> {
    match entry.class {
        EntryClass::Header(h) => "_"@ + (upper_hex(h.version[3] as nat) + ("."@ + (upper_hex(
            h.version[2] as nat,
        ) + ("."@ + (upper_hex(h.version[1] as nat) + ("."@ + upper_hex(h.version[0] as nat))))))),
        _ => Seq::empty(),
    }
}

/// The name of the file for an entry. Without `unique` it tells the place.
pub open spec fn file_stem(
    entry: Entry,
    directory_index: nat,
    entry_index: nat,
    is_bios: bool,
    unique: bool,
) -> Seq<char> {
    let name = type_text(entry.record.kind().0, is_bios);
    if unique {
        name + version_suffix(entry)
    } else {
        "d"@ + (pad_left(dec(directory_index), '0', 2) + ("_e"@ + (pad_left(
            dec(entry_index),
            '0',
            2,
        ) + ("_"@ + (name + (sub_ins_text(entry) + version_suffix(entry)))))))
    }
}

fn push_sub_ins_suffix(entry: &Entry, out: &mut String)
    ensures
        final(out)@ == old(out)@ + sub_ins_text(*entry),
{
    broadcast use group_text;

    let (subprogram, instance): (u8, u8) = match &entry.record {
        crate::entry::EntryRecord::Psp(p) => (p.subprogram, p.instance()),
        crate::entry::EntryRecord::Bios(b) => (b.subprogram(), b.instance()),
    };
    if subprogram == 0 && instance == 0 {
        assert(out@ =~= out@ + sub_ins_text(*entry));
        return;
    }
    out.append("_SUB_");
    out.append("0x");
    push_hex(subprogram as u64, out);
    out.append("_INS_");
    out.append("0x");
    push_hex(instance as u64, out);
}

fn push_header_version_suffix(entry: &Entry, out: &mut String)
    ensures
        final(out)@ == old(out)@ + version_suffix(*entry),
{
    broadcast use group_text;

    if let EntryClass::Header(h) = &entry.class {
        out.append("_");
        push_upper_hex(h.version[3] as u64, out);
        out.append(".");
        push_upper_hex(h.version[2] as u64, out);
        out.append(".");
        push_upper_hex(h.version[1] as u64, out);
        out.append(".");
        push_upper_hex(h.version[0] as u64, out);
    } else {
        assert(out@ =~= out@ + version_suffix(*entry));
    }
}

fn entry_stem(
    entry: &Entry,
    directory_index: usize,
    entry_index: usize,
    is_bios: bool,
    unique: bool,
) -> (r: String)
    ensures
        r@ == file_stem(*entry, directory_index as nat, entry_index as nat, is_bios, unique),
{
    broadcast use group_text;

    let name = readable_type(entry.entry_type(), is_bios);
    let mut out = String::new();
    if unique {
        out.append(name.as_str());
    } else {
        out.append("d");
        push_dec_padded(directory_index as u64, '0', 2, &mut out);
        out.append("_e");
        push_dec_padded(entry_index as u64, '0', 2, &mut out);
        out.append("_");
        out.append(name.as_str());
        push_sub_ins_suffix(entry, &mut out);
    }
    push_header_version_suffix(entry, &mut out);
    out
}

/// A control character.
pub open spec fn is_control(c: char) -> bool {
    (c as int) < 0x20 || 0x7F <= (c as int) <= 0x9F
}

/// `c`, or an underscore when it must not stand in the name of a file.
pub open spec fn safe_char(c: char) -> char {
    if c == '/' || c == '\\' || is_control(c) {
        '_'
    } else {
        c
    }
}

/// A name without separators of directories and without control characters.
pub fn sanitize_for_path(name: &str) -> (r: String)
    ensures
        r@ == name@.map_values(|c: char| safe_char(c)),
{
    let mut out = String::new();
    let n: usize = name.unicode_len();
    let mut i: usize = 0;
    assert(out@ =~= name@.take(0).map_values(|c: char| safe_char(c)));
    while i < n
        invariant
            i <= n,
            n == name@.len(),
            out@ == name@.take(i as int).map_values(|c: char| safe_char(c)),
        decreases n - i,
    {
        let c = name.get_char(i);
        let code: u32 = c as u32;
        if c == '/' || c == '\\' || code < 0x20 || (0x7F <= code && code <= 0x9F) {
            out.push('_');
        } else {
            out.push(c);
        }
        i += 1;
        assert(out@ =~= name@.take(i as int).map_values(|c: char| safe_char(c)));
    }
    assert(name@.take(n as int) =~= name@);
    out
}

/// The name of the directory that the entries of a file are written to.
/// `file_name` is the last part of the path of the input, if it has one.
pub fn default_outdir(file_name: Option<&str>, unique: bool) -> (r: String)
    ensures
        r@ == (match file_name {
            Some(name) => name@,
            None => "rom"@,
        }) + (if unique {
            "_unique_extracted"@
        } else {
            "_extracted"@
        }),
{
    broadcast use group_text;

    let mut out = String::new();
    match file_name {
        Some(name) => out.append(name),
        None => out.append("rom"),
    }
    if unique {
        out.append("_unique_extracted");
    } else {
        out.append("_extracted");
    }
    out
}

/// A file to be written.
pub struct OutputFile {
    pub name: String,
    pub bytes: Vec<u8>,
}

/// What an `OutputFile` holds.
pub struct Output {
    pub name: Seq<char>,
    pub bytes: Seq<u8>,
}

impl View for OutputFile {
    type V = Output;

    open spec fn view(&self) -> Output {
        Output { name: self.name@, bytes: self.bytes@ }
    }
}

/// What some files hold.
pub open spec fn outputs_view(files: Seq<OutputFile>) -> Seq<Output> {
    files.map_values(|f: OutputFile| f@)
}

/// The file for an entry at a place.
pub open spec fn output_for(
    entry: Entry,
    item: Item,
    dirs: Seq<DirectoryRef>,
    t: Transform,
    unique: bool,
) -> Output {
    Output {
        name: file_stem(
            entry,
            item.directory_index as nat,
            item.entry_index as nat,
            dirs[item.directory_index as int].directory is Bios,
            unique,
        ).map_values(|c: char| safe_char(c)),
        bytes: transformed_or_raw(entry, t),
    }
}

/// Whether two items are one entry: type, place and size agree.
pub open spec fn same_entry(a: Item, b: Item) -> bool {
    &&& a.entry matches Ok(x)
    &&& b.entry matches Ok(y)
    &&& x.record.kind() == y.record.kind()
    &&& x.body@.offset == y.body@.offset
    &&& x.body@.bytes.len() == y.body@.bytes.len()
}

/// Whether item `n` is an entry that came before.
pub open spec fn repeats(items: Seq<Item>, n: int) -> bool {
    exists|k: int| 0 <= k < n && same_entry(#[trigger] items[k], items[n])
}

fn came_before(items: &Vec<Item>, n: usize) -> (r: bool)
    requires
        n < items@.len(),
    ensures
        r == repeats(items@, n as int),
{
    let entry = match &items[n].entry {
        Ok(entry) => entry,
        Err(_) => {
            return false;
        },
    };
    let mut k: usize = 0;
    while k < n
        invariant
            k <= n < items@.len(),
            items@[n as int].entry == Ok::<Entry, ParseError>(*entry),
            forall|j: int| 0 <= j < k ==> !same_entry(#[trigger] items@[j], items@[n as int]),
        decreases n - k,
    {
        if let Ok(other) = &items[k].entry {
            if other.entry_type().get() == entry.entry_type().get() && other.body.offset().0
                == entry.body.offset().0 && other.body.len() == entry.body.len() {
                assert(same_entry(items@[k as int], items@[n as int]));
                return true;
            }
        }
        k += 1;
    }
    false
}

/// The files for those of the first `n` items that were parsed. With `unique`
/// an entry that came before is left out.
pub open spec fn outputs(
    items: Seq<Item>,
    dirs: Seq<DirectoryRef>,
    t: Transform,
    unique: bool,
    n: int,
) -> Seq<Output>
    decreases n,
{
    if n <= 0 {
        Seq::empty()
    } else {
        match items[n - 1].entry {
            Ok(entry) => if unique && repeats(items, n - 1) {
                outputs(items, dirs, t, unique, n - 1)
            } else {
                outputs(items, dirs, t, unique, n - 1).push(
                    output_for(entry, items[n - 1], dirs, t, unique),
                )
            },
            Err(_) => outputs(items, dirs, t, unique, n - 1),
        }
    }
}

/// Whether `files` are those for all entries of some directories.
pub open spec fn exports(
    files: Seq<Output>,
    dirs: Seq<DirectoryRef>,
    blob: Window,
    rom_size: RomSize,
    rom_origin: FlashOffset,
    t: Transform,
    unique: bool,
) -> bool {
    exists|items: Seq<Item>| #[trigger]
        complete(items, dirs, blob, rom_size, rom_origin) && files == outputs(
            items,
            dirs,
            t,
            unique,
            items.len() as int,
        )
}

/// The files for all entries of some directories, in order. With `unique` each
/// entry counts once.
pub fn extract_all(
    blob: &SourceBytes,
    directories: &[DirectoryRef],
    rom_size: RomSize,
    rom_origin: FlashOffset,
    t: Transform,
    unique: bool,
) -> (r: Vec<OutputFile>)
    ensures
        exports(outputs_view(r@), directories@, blob@, rom_size, rom_origin, t, unique),
{
    let items = parse_all(blob, directories, rom_size, rom_origin);
    proof {
        crate::inventory::lemma_places(directories@, directories@.len() as int);
    }
    let mut out: Vec<OutputFile> = Vec::new();
    let mut k: usize = 0;
    assert(outputs_view(out@) =~= Seq::<Output>::empty());
    while k < items.len()
        invariant
            k <= items@.len(),
            forall|i: int|
                0 <= i < items@.len() ==> (#[trigger] items@[i]).directory_index
                    < directories@.len(),
            outputs_view(out@) == outputs(items@, directories@, t, unique, k as int),
        decreases items@.len() - k,
    {
        let item = &items[k];
        if let Ok(entry) = &item.entry {
            if !(unique && came_before(&items, k)) {
                let is_bios = directories[item.directory_index].directory.is_bios();
                let stem = entry_stem(
                    entry,
                    item.directory_index,
                    item.entry_index,
                    is_bios,
                    unique,
                );
                let file = OutputFile {
                    name: sanitize_for_path(stem.as_str()),
                    bytes: transform_or_raw(entry, t),
                };
                let ghost before = out@;
                out.push(file);
                assert(outputs_view(out@) =~= outputs_view(before).push(file@));
            }
        }
        k += 1;
    }
    out
}

/// Whether `bytes` are what is written of one entry among many. Decrypting
/// writes the decrypted data of every entry that can be decrypted, compressed or
/// not. Decompressing writes the signed bytes of a compressed entry. The text of
/// a key is written for a public key. Where any of these fails, and where nothing
/// is asked for, it is the body as it stands.
pub open spec fn written(bytes: Seq<u8>, entry: Entry, t: Transform) -> bool {
    let body = entry.body@.bytes;
    if t.decompress {
        match entry.class {
            EntryClass::Header(h) | EntryClass::KeyStore(h) => {
                &&& h.is_compressed && h.signed(body, Some(Ikek::ZenPlus)) is Ok ==> bytes
                    == h.signed(body, Some(Ikek::ZenPlus))->Ok_0
                &&& !(h.is_compressed && h.signed(body, Some(Ikek::ZenPlus)) is Ok) ==> bytes
                    == body
            },
            _ => bytes == body,
        }
    } else if t.decrypt {
        match entry.class {
            EntryClass::Header(h) | EntryClass::KeyStore(h) => {
                &&& h.decrypted(body, Ikek::ZenPlus) matches Ok(plain) ==> bytes == plain
                &&& h.decrypted(body, Ikek::ZenPlus) is Err ==> bytes == body
            },
            _ => bytes == body,
        }
    } else if t.pem_key {
        match entry.class {
            EntryClass::Pubkey(key) => {
                &&& pem_of(key) matches Ok(pem) ==> bytes == pem
                &&& pem_of(key) is Err ==> bytes == body
            },
            _ => bytes == body,
        }
    } else {
        bytes == body
    }
}

/// Whether two items were parsed and have one type, one place and one size.
pub open spec fn one_entry(a: Item, b: Item) -> bool {
    match (a.entry, b.entry) {
        (Ok(x), Ok(y)) => x.record.kind().0 == y.record.kind().0 && x.body@.offset
            == y.body@.offset && x.body@.end() == y.body@.end(),
        _ => false,
    }
}

/// Whether item `k` is one of those whose indices are in `from`.
pub open spec fn present(items: Seq<Item>, from: Seq<int>, k: int) -> bool {
    exists|i: int| 0 <= i < from.len() && one_entry(items[#[trigger] from[i]], items[k])
}

/// Whether `from` are the indices of the items of which files are written:
/// ascending, and of items that were parsed. Every item that was parsed is there;
/// with `unique` no entry is there twice, and every item that was parsed is one of
/// those there.
pub open spec fn picks(items: Seq<Item>, from: Seq<int>, unique: bool) -> bool {
    &&& forall|i: int, j: int| 0 <= i < j < from.len() ==> from[i] < from[j]
    &&& forall|i: int|
        0 <= i < from.len() ==> 0 <= #[trigger] from[i] < items.len() && items[from[i]].entry is Ok
    &&& !unique ==> forall|k: int|
        0 <= k < items.len() && (#[trigger] items[k]).entry is Ok ==> from.contains(k)
    &&& unique ==> forall|i: int, j: int|
        0 <= i < j < from.len() ==> !one_entry(items[#[trigger] from[i]], items[#[trigger] from[j]])
    &&& unique ==> forall|k: int|
        0 <= k < items.len() && items[k].entry is Ok ==> #[trigger] present(items, from, k)
}

/// Whether each file holds what is written of the item with its index in `from`.
pub open spec fn files_of(
    files: Seq<Output>,
    items: Seq<Item>,
    from: Seq<int>,
    t: Transform,
) -> bool {
    &&& from.len() == files.len()
    &&& forall|i: int|
        0 <= i < files.len() ==> written(
            (#[trigger] files[i]).bytes,
            items[from[i]].entry->Ok_0,
            t,
        )
}

/// Whether each file has the name of the item with its index in `from`, made safe.
pub open spec fn named_after(
    files: Seq<Output>,
    items: Seq<Item>,
    from: Seq<int>,
    dirs: Seq<DirectoryRef>,
    unique: bool,
) -> bool {
    forall|i: int|
        0 <= i < files.len() ==> {
            let item = items[from[i]];
            (#[trigger] files[i]).name == file_stem(
                item.entry->Ok_0,
                item.directory_index as nat,
                item.entry_index as nat,
                dirs[item.directory_index as int].directory is Bios,
                unique,
            ).map_values(|c: char| safe_char(c))
        }
}

proof fn lemma_written(entry: Entry, t: Transform)
    ensures
        written(transformed_or_raw(entry, t), entry, t),
{
}

proof fn lemma_picks_skip(items: Seq<Item>, n: int, from: Seq<int>, unique: bool, i: int)
    requires
        0 < n <= items.len(),
        picks(items.take(n - 1), from, unique),
        items[n - 1].entry is Err || (unique && 0 <= i < from.len() && one_entry(
            items[from[i]],
            items[n - 1],
        )),
    ensures
        picks(items.take(n), from, unique),
{
    let small = items.take(n - 1);
    let large = items.take(n);
    assert forall|j: int| 0 <= j < from.len() implies 0 <= #[trigger] from[j] < large.len()
        && small[from[j]] == large[from[j]] by {}
    if unique {
        assert forall|k: int| 0 <= k < large.len() && large[k].entry is Ok implies #[trigger] present(
            large,
            from,
            k,
        ) by {
            if k < n - 1 {
                assert(present(small, from, k));
                let j = choose|j: int|
                    0 <= j < from.len() && one_entry(small[#[trigger] from[j]], small[k]);
                assert(one_entry(large[from[j]], large[k]));
            } else {
                assert(one_entry(large[from[i]], large[k]));
            }
        }
    } else {
        assert forall|k: int|
            0 <= k < large.len() && (#[trigger] large[k]).entry is Ok implies from.contains(k) by {
            assert(small[k].entry is Ok);
        }
    }
}

proof fn lemma_picks_push(items: Seq<Item>, n: int, from: Seq<int>, unique: bool)
    requires
        0 < n <= items.len(),
        picks(items.take(n - 1), from, unique),
        items[n - 1].entry is Ok,
        unique ==> forall|k: int|
            0 <= k < n - 1 ==> !one_entry(#[trigger] items[k], items[n - 1]),
    ensures
        picks(items.take(n), from.push(n - 1), unique),
{
    let small = items.take(n - 1);
    let large = items.take(n);
    let longer = from.push(n - 1);
    let last = from.len() as int;
    assert(longer[last] == n - 1);
    assert forall|j: int| 0 <= j < from.len() implies longer[j] == #[trigger] from[j]
        && small[from[j]] == large[from[j]] by {}
    assert forall|j: int| 0 <= j < longer.len() implies 0 <= #[trigger] longer[j] < large.len()
        && large[longer[j]].entry is Ok by {
        if j < last {
            assert(longer[j] == from[j]);
        }
    }
    if unique {
        assert forall|i: int, j: int| 0 <= i < j < longer.len() implies !one_entry(
            large[#[trigger] longer[i]],
            large[#[trigger] longer[j]],
        ) by {
            assert(longer[i] == from[i]);
            if j < last {
                assert(longer[j] == from[j]);
            } else {
                assert(!one_entry(items[from[i]], items[n - 1]));
            }
        }
        assert forall|k: int| 0 <= k < large.len() && large[k].entry is Ok implies #[trigger] present(
            large,
            longer,
            k,
        ) by {
            if k < n - 1 {
                assert(present(small, from, k));
                let j = choose|j: int|
                    0 <= j < from.len() && one_entry(small[#[trigger] from[j]], small[k]);
                assert(longer[j] == from[j]);
            } else {
                assert(one_entry(large[longer[last]], large[k]));
            }
        }
    } else {
        assert forall|k: int|
            0 <= k < large.len() && (#[trigger] large[k]).entry is Ok implies longer.contains(
            k,
        ) by {
            if k < n - 1 {
                assert(small[k].entry is Ok);
                let j = choose|j: int| 0 <= j < from.len() && from[j] == k;
                assert(longer[j] == k);
            } else {
                assert(longer[last] == k);
            }
        }
    }
}

proof fn lemma_files_push(
    files: Seq<Output>,
    items: Seq<Item>,
    from: Seq<int>,
    t: Transform,
    k: int,
    file: Output,
)
    requires
        files_of(files, items, from, t),
        written(file.bytes, items[k].entry->Ok_0, t),
    ensures
        files_of(files.push(file), items, from.push(k), t),
{
    let more = files.push(file);
    assert forall|i: int| 0 <= i < more.len() implies written(
        (#[trigger] more[i]).bytes,
        items[from.push(k)[i]].entry->Ok_0,
        t,
    ) by {
        if i < files.len() {
            assert(more[i] == files[i]);
        }
    }
}

proof fn lemma_names_push(
    files: Seq<Output>,
    items: Seq<Item>,
    from: Seq<int>,
    dirs: Seq<DirectoryRef>,
    unique: bool,
    k: int,
    file: Output,
)
    requires
        from.len() == files.len(),
        named_after(files, items, from, dirs, unique),
        file.name == file_stem(
            items[k].entry->Ok_0,
            items[k].directory_index as nat,
            items[k].entry_index as nat,
            dirs[items[k].directory_index as int].directory is Bios,
            unique,
        ).map_values(|c: char| safe_char(c)),
    ensures
        named_after(files.push(file), items, from.push(k), dirs, unique),
{
    let more = files.push(file);
    let longer = from.push(k);
    assert forall|i: int| 0 <= i < more.len() implies {
        let item = items[longer[i]];
        (#[trigger] more[i]).name == file_stem(
            item.entry->Ok_0,
            item.directory_index as nat,
            item.entry_index as nat,
            dirs[item.directory_index as int].directory is Bios,
            unique,
        ).map_values(|c: char| safe_char(c))
    } by {
        if i < files.len() {
            assert(more[i] == files[i]);
            assert(longer[i] == from[i]);
        }
    }
}

proof fn lemma_outputs_are_files(
    items: Seq<Item>,
    dirs: Seq<DirectoryRef>,
    t: Transform,
    unique: bool,
    n: int,
) -> (from: Seq<int>)
    requires
        0 <= n <= items.len(),
    ensures
        picks(items.take(n), from, unique),
        files_of(outputs(items, dirs, t, unique, n), items, from, t),
        named_after(outputs(items, dirs, t, unique, n), items, from, dirs, unique),
    decreases n,
{
    if n == 0 {
        Seq::empty()
    } else {
        let from = lemma_outputs_are_files(items, dirs, t, unique, n - 1);
        let files = outputs(items, dirs, t, unique, n - 1);
        let small = items.take(n - 1);
        match items[n - 1].entry {
            Err(_) => {
                lemma_picks_skip(items, n, from, unique, 0);
                from
            },
            Ok(entry) => {
                if unique && repeats(items, n - 1) {
                    let k = choose|k: int|
                        0 <= k < n - 1 && same_entry(#[trigger] items[k], items[n - 1]);
                    assert(present(small, from, k));
                    let i = choose|i: int|
                        0 <= i < from.len() && one_entry(small[#[trigger] from[i]], small[k]);
                    assert(one_entry(items[from[i]], items[n - 1]));
                    lemma_picks_skip(items, n, from, unique, i);
                    from
                } else {
                    lemma_written(entry, t);
                    if unique {
                        assert forall|k: int| 0 <= k < n - 1 implies !one_entry(
                            #[trigger] items[k],
                            items[n - 1],
                        ) by {
                            assert(!same_entry(items[k], items[n - 1]));
                        }
                    }
                    let file = output_for(entry, items[n - 1], dirs, t, unique);
                    lemma_picks_push(items, n, from, unique);
                    lemma_files_push(files, items, from, t, n - 1, file);
                    lemma_names_push(files, items, from, dirs, unique, n - 1, file);
                    from.push(n - 1)
                }
            },
        }
    }
}

/// What `extract_all` gives for some directories: a file for each entry that can
/// be parsed, in order, with what is written of that entry.
pub proof fn lemma_files_of_entries(
    files: Seq<Output>,
    dirs: Seq<DirectoryRef>,
    blob: Window,
    rom_size: RomSize,
    rom_origin: FlashOffset,
    t: Transform,
    unique: bool,
)
    requires
        exports(files, dirs, blob, rom_size, rom_origin, t, unique),
    ensures
        exists|items: Seq<Item>, from: Seq<int>| #[trigger]
            files_of(files, items, from, t) && named_after(files, items, from, dirs, unique)
                && picks(items, from, unique) && complete(
                items,
                dirs,
                blob,
                rom_size,
                rom_origin,
            ),
{
    let items = choose|items: Seq<Item>| #[trigger]
        complete(items, dirs, blob, rom_size, rom_origin) && files == outputs(
            items,
            dirs,
            t,
            unique,
            items.len() as int,
        );
    let from = lemma_outputs_are_files(items, dirs, t, unique, items.len() as int);
    assert(items.take(items.len() as int) =~= items);
    assert(files_of(files, items, from, t));
}

/// What is written of one entry that was asked for. Unpacking succeeds for
/// compressed entries whose signed bytes can be had, and gives those. Decrypting
/// gives the entry in its length: the data decrypted, zeros in place of the mark
/// of encryption and of the vector, all else as it stood. The text of a key is
/// given for public keys. Nothing asked for gives the body.
pub proof fn lemma_single_file(entry: Entry, t: Transform)
    ensures
        !t.decompress && !t.decrypt && !t.pem_key ==> transformed(entry, t) == Ok::<
            Seq<u8>,
            TransformFault,
        >(entry.body@.bytes),
        t.decompress ==> (transformed(entry, t) is Ok <==> {
            &&& entry.class.head() matches Some(h)
            &&& h.is_compressed
            &&& h.signed(entry.body@.bytes, Some(Ikek::ZenPlus)) is Ok
        }),
        t.decompress ==> (transformed(entry, t) matches Ok(file) ==> header_of(entry).signed(
            entry.body@.bytes,
            Some(Ikek::ZenPlus),
        ) == Ok::<Seq<u8>, crate::body::BodyFault>(file)),
        t.decrypt && !t.decompress ==> (transformed(entry, t) is Ok <==> {
            &&& entry.class.head() matches Some(h)
            &&& h.decrypted(entry.body@.bytes, Ikek::ZenPlus) is Ok
        }),
        t.decrypt && !t.decompress ==> (transformed(entry, t) matches Ok(file) ==> {
            let body = entry.body@.bytes;
            let plain = header_of(entry).decrypted(body, Ikek::ZenPlus)->Ok_0;
            let data = header_of(entry).data(body)->Ok_0;
            plain.len() == data.len() ==> {
                &&& file.len() == body.len()
                &&& forall|j: int| 0 <= j < plain.len() ==> #[trigger] file[0x100 + j] == plain[j]
                &&& forall|j: int|
                    0x18 <= j < 0x1C || 0x20 <= j < 0x30 ==> #[trigger] file[j] == 0
                &&& forall|j: int|
                    (0 <= j < 0x18 || 0x1C <= j < 0x20 || 0x30 <= j < 0x100 || 0x100 + plain.len()
                        <= j < body.len()) ==> #[trigger] file[j] == body[j]
            }
        }),
        t.pem_key && !t.decompress && !t.decrypt ==> (transformed(entry, t) is Ok <==> {
            &&& entry.class matches EntryClass::Pubkey(key)
            &&& pem_of(key) is Ok
        }),
{
}

/// The header of an entry that has one.
pub open spec fn header_of(entry: Entry) -> crate::entry::HeaderEntry {
    entry.class.head()->Some_0
}

/// The text of a public key is that of its two numbers, the modulus behind the
/// exponent, each with the least significant byte first. The exponent has to be
/// 65537.
pub proof fn lemma_key_text(key: PubkeyEntry)
    ensures
        pem_of(key) is Ok <==> {
            let b = key.source@.bytes;
            let exponent_end = 0x40 + key.pubexp_bits as int / 8;
            let modulus_end = exponent_end + key.modulus_bits as int / 8;
            let n = le_nat(b.subrange(exponent_end, modulus_end));
            &&& modulus_end <= b.len()
            &&& le_nat(b.subrange(0x40, exponent_end)) == 65537
            &&& key_fault(n, 65537) is None
            &&& public_key_pem(n, 65537) is Ok
        },
        pem_of(key) matches Ok(pem) ==> {
            let b = key.source@.bytes;
            let exponent_end = 0x40 + key.pubexp_bits as int / 8;
            let modulus_end = exponent_end + key.modulus_bits as int / 8;
            public_key_pem(le_nat(b.subrange(exponent_end, modulus_end)), 65537) == Ok::<
                Seq<u8>,
                Seq<char>,
            >(pem)
        },
{
}

/// The name of a file holds no separator of directories and no control character,
/// and is as long as the text that it comes from.
pub proof fn lemma_names_are_safe(
    entry: Entry,
    item: Item,
    dirs: Seq<DirectoryRef>,
    t: Transform,
    unique: bool,
)
    ensures
        ({
            let name = output_for(entry, item, dirs, t, unique).name;
            forall|i: int|
                0 <= i < name.len() ==> #[trigger] name[i] != '/' && name[i] != '\\' && name[i]
                    as int >= 0x20 && !(0x7F <= name[i] as int <= 0x9F)
        }),
{
    let stem = file_stem(
        entry,
        item.directory_index as nat,
        item.entry_index as nat,
        dirs[item.directory_index as int].directory is Bios,
        unique,
    );
    let name = output_for(entry, item, dirs, t, unique).name;
    assert forall|i: int| 0 <= i < name.len() implies #[trigger] name[i] != '/' && name[i] != '\\'
        && name[i] as int >= 0x20 && !(0x7F <= name[i] as int <= 0x9F) by {
        assert(name[i] == safe_char(stem[i]));
    }
}

/// The text that the name of a file comes from: the place of the entry, unless
/// each entry is written once; its type; its subprogram and instance where either
/// is not zero, again unless each is written once; and the version of a body with
/// a header, its byte at `0x63` first.
pub proof fn lemma_stem_of_entry(entry: Entry, d: nat, e: nat, is_bios: bool)
    requires
        entry.class.describes(entry.record.kind(), entry.record is Bios, entry.body@),
    ensures
        ({
            let body = entry.body@.bytes;
            let name = type_text(entry.record.kind().0, is_bios);
            let version = if entry.class is Header {
                "_"@ + (upper_hex(body[0x63] as nat) + ("."@ + (upper_hex(body[0x62] as nat) + (
                "."@ + (upper_hex(body[0x61] as nat) + ("."@ + upper_hex(body[0x60] as nat)))))))
            } else {
                Seq::empty()
            };
            let subprogram = subprogram_of(entry.record);
            let instance = instance_of(entry.record);
            let part = if subprogram == 0 && instance == 0 {
                Seq::empty()
            } else {
                "_SUB_0x"@ + (crate::text::hex(subprogram as nat) + ("_INS_0x"@ + crate::text::hex(
                    instance as nat,
                )))
            };
            &&& file_stem(entry, d, e, is_bios, true) == name + version
            &&& file_stem(entry, d, e, is_bios, false) == "d"@ + (pad_left(dec(d), '0', 2) + ("_e"@
                + (pad_left(dec(e), '0', 2) + ("_"@ + (name + (part + version))))))
        }),
{
    let body = entry.body@.bytes;
    if let EntryClass::Header(h) = entry.class {
        assert(h.decodes(entry.body@));
        assert(h.version@[0] == body.subrange(0x60, 0x64)[0]);
        assert(h.version@[1] == body.subrange(0x60, 0x64)[1]);
        assert(h.version@[2] == body.subrange(0x60, 0x64)[2]);
        assert(h.version@[3] == body.subrange(0x60, 0x64)[3]);
    }
    let subprogram = subprogram_of(entry.record);
    let instance = instance_of(entry.record);
    if !(subprogram == 0 && instance == 0) {
        reveal_strlit("_SUB_0x");
        reveal_strlit("_SUB_");
        reveal_strlit("_INS_0x");
        reveal_strlit("_INS_");
        reveal_strlit("0x");
        assert("_SUB_0x"@ =~= "_SUB_"@ + "0x"@);
        assert("_INS_0x"@ =~= "_INS_"@ + "0x"@);
        assert(sub_ins_text(entry) =~= "_SUB_0x"@ + (crate::text::hex(subprogram as nat) + (
        "_INS_0x"@ + crate::text::hex(instance as nat))));
    }
}

} // verus!
