//! Checking the signatures of all entries.

use rsa::RsaPrivateKey;
use vstd::prelude::*;

use crate::address::{FlashOffset, RomSize};
use crate::body::{verify_fault_text, Ikek, VerifyError, VerifyFault};
use crate::crypto::{bit_length, signing_exponent_of, signing_modulus_of};
use crate::entry::{Entry, EntryClass, HeaderEntry, PubkeyEntry};
use crate::error::{parse_error_text, ParseError};
use crate::fet::Fet;
use crate::id::EntryType;
use crate::inventory::{complete, parse_all, Item};
use crate::sign::{
    lemma_signed_entry_verifies, lemma_signing_keeps_header, signed_anew, SignError,
};
use crate::source::{equal_bytes, SourceBytes, Window};
use crate::text::{
    dec, format_dec, group_text, pad_left, pad_right, prefixed_hex_padded, push_dec_padded,
    push_padded_right, push_prefixed_hex_padded,
};
use crate::walk::{all_decode, places, reached, walk_directories, DirectoryRef};
use crate::writer::Edits;

verus! {

/// Identifier of a key.
pub type KeyId = [u8; 16];

/// What the check of an entry came to.
#[derive(Debug, PartialEq, Eq)]
pub enum VerificationStatus {
    /// The entry carries no signature.
    NotSigned,
    /// No public key with the identifier that the entry names was found.
    UnknownKey,
    /// The signature is valid.
    Verified,
    /// The signature is not valid.
    BadSignature,
    /// The signature could not be checked.
    Error(String),
}

/// What a `VerificationStatus` says.
pub enum Status {
    NotSigned,
    UnknownKey,
    Verified,
    BadSignature,
    Error(Seq<char>),
}

impl View for VerificationStatus {
    type V = Status;

    open spec fn view(&self) -> Status {
        match self {
            VerificationStatus::NotSigned => Status::NotSigned,
            VerificationStatus::UnknownKey => Status::UnknownKey,
            VerificationStatus::Verified => Status::Verified,
            VerificationStatus::BadSignature => Status::BadSignature,
            VerificationStatus::Error(text) => Status::Error(text@),
        }
    }
}

/// A status in a few words.
pub open spec fn status_text(s: Status) -> Seq<char> {
    match s {
        Status::NotSigned => "not-signed"@,
        Status::UnknownKey => "unknown-key"@,
        Status::Verified => "verified"@,
        Status::BadSignature => "bad-signature"@,
        Status::Error(text) => "error: "@ + text,
    }
}

impl VerificationStatus {
    pub fn push_text(&self, out: &mut String)
        ensures
            final(out)@ == old(out)@ + status_text(self@),
    {
        broadcast use group_text;

        match self {
            VerificationStatus::NotSigned => out.append("not-signed"),
            VerificationStatus::UnknownKey => out.append("unknown-key"),
            VerificationStatus::Verified => out.append("verified"),
            VerificationStatus::BadSignature => out.append("bad-signature"),
            VerificationStatus::Error(text) => {
                out.append("error: ");
                out.append(text.as_str());
            },
        }
    }

    pub fn text(&self) -> (r: String)
        ensures
            r@ == status_text(self@),
    {
        broadcast use group_text;

        let mut out = String::new();
        self.push_text(&mut out);
        out
    }
}

impl Clone for VerificationStatus {
    fn clone(&self) -> (r: Self)
        ensures
            r@ == self@,
    {
        match self {
            VerificationStatus::NotSigned => VerificationStatus::NotSigned,
            VerificationStatus::UnknownKey => VerificationStatus::UnknownKey,
            VerificationStatus::Verified => VerificationStatus::Verified,
            VerificationStatus::BadSignature => VerificationStatus::BadSignature,
            VerificationStatus::Error(text) => VerificationStatus::Error(text.clone()),
        }
    }
}

/// The check of one entry.
#[derive(Clone, Debug, PartialEq, Eq)]
pub struct EntryVerification {
    /// Index of the directory, in the order of the walk.
    pub directory_index: usize,
    /// Index of the entry in its directory.
    pub entry_index: usize,
    pub entry_type: EntryType,
    /// Input offset of the body.
    pub body_offset: FlashOffset,
    /// Identifier of the key that the entry names.
    pub key_id: Option<KeyId>,
    pub status: VerificationStatus,
}

/// What an `EntryVerification` says.
pub struct Verification {
    pub directory_index: usize,
    pub entry_index: usize,
    pub entry_type: EntryType,
    pub body_offset: FlashOffset,
    pub key_id: Option<Seq<u8>>,
    pub status: Status,
}

impl View for EntryVerification {
    type V = Verification;

    open spec fn view(&self) -> Verification {
        Verification {
            directory_index: self.directory_index,
            entry_index: self.entry_index,
            entry_type: self.entry_type,
            body_offset: self.body_offset,
            key_id: match self.key_id {
                Some(id) => Some(id@),
                None => None,
            },
            status: self.status@,
        }
    }
}

/// The public key that an item holds.
pub open spec fn key_in(item: Item) -> Option<PubkeyEntry> {
    match item.entry {
        Ok(entry) => match entry.class {
            EntryClass::Pubkey(key) => Some(key),
            _ => None,
        },
        Err(_) => None,
    }
}

/// Whether an item holds a public key with the identifier `id`.
pub open spec fn holds_key(item: Item, id: Seq<u8>) -> bool {
    key_in(item) matches Some(key) && key.key_id@ == id
}

/// The public key with the identifier `id` that comes first in `items` from
/// index `from` on.
pub open spec fn first_key(items: Seq<Item>, id: Seq<u8>, from: int) -> Option<PubkeyEntry>
    decreases items.len() - from,
{
    if from >= items.len() {
        None
    } else if holds_key(items[from], id) {
        key_in(items[from])
    } else {
        first_key(items, id, from + 1)
    }
}

/// The status of an entry, given the key that it names.
pub open spec fn status_with(
    entry: Entry,
    key: Option<PubkeyEntry>,
    ikek: Option<Ikek>,
) -> Status {
    match key {
        None => Status::UnknownKey,
        Some(k) => match entry.class.head()->Some_0.verified(entry.body@.bytes, k, ikek) {
            Ok(_) => Status::Verified,
            Err(VerifyFault::BadSignature) => Status::BadSignature,
            Err(fault) => Status::Error(verify_fault_text(fault)),
        },
    }
}

/// The identifier of the key that an entry names; `None` when the entry is not
/// signed.
pub open spec fn named_key(entry: Entry) -> Option<Seq<u8>> {
    match entry.class.head() {
        Some(header) => if header.signed_raw != 0 {
            Some(header.signature_fingerprint@)
        } else {
            None
        },
        None => None,
    }
}

/// The check of one item, against the public keys in `items`.
pub open spec fn checked(items: Seq<Item>, item: Item, ikek: Option<Ikek>) -> Verification {
    match item.entry {
        Err(e) => Verification {
            directory_index: item.directory_index,
            entry_index: item.entry_index,
            entry_type: EntryType(0),
            body_offset: FlashOffset(0),
            key_id: None,
            status: Status::Error(parse_error_text(e)),
        },
        Ok(entry) => Verification {
            directory_index: item.directory_index,
            entry_index: item.entry_index,
            entry_type: entry.record.kind(),
            body_offset: FlashOffset(entry.body@.offset as u64),
            key_id: named_key(entry),
            status: match named_key(entry) {
                None => Status::NotSigned,
                Some(id) => status_with(entry, first_key(items, id, 0), ikek),
            },
        },
    }
}

/// The check of every item, in order.
pub open spec fn report(items: Seq<Item>, ikek: Option<Ikek>) -> Seq<Verification> {
    items.map_values(|item: Item| checked(items, item, ikek))
}

/// What some checks say.
pub open spec fn verifications(rows: Seq<EntryVerification>) -> Seq<Verification> {
    rows.map_values(|row: EntryVerification| row@)
}

/// Whether `rows` are the checks of all entries of some directories.
pub open spec fn reports_on(
    rows: Seq<Verification>,
    dirs: Seq<DirectoryRef>,
    blob: Window,
    rom_size: RomSize,
    rom_origin: FlashOffset,
    ikek: Option<Ikek>,
) -> bool {
    exists|items: Seq<Item>| #[trigger]
        complete(items, dirs, blob, rom_size, rom_origin) && rows == report(items, ikek)
}

fn find_key<'a>(items: &'a Vec<Item>, id: &KeyId) -> (r: Option<&'a PubkeyEntry>)
    ensures
        match r {
            Some(key) => first_key(items@, id@, 0) == Some(*key),
            None => first_key(items@, id@, 0) is None,
        },
{
    let mut i: usize = 0;
    while i < items.len()
        invariant
            i <= items@.len(),
            first_key(items@, id@, 0) == first_key(items@, id@, i as int),
        decreases items@.len() - i,
    {
        if let Ok(entry) = &items[i].entry {
            if let EntryClass::Pubkey(key) = &entry.class {
                if equal_bytes(&key.key_id, id) {
                    return Some(key);
                }
            }
        }
        i += 1;
    }
    None
}

/// What the result of a signature check says of an entry.
pub fn status_of(result: Result<(), VerifyError>) -> (r: VerificationStatus)
    ensures
        r@ == (match result {
            Ok(_) => Status::Verified,
            Err(e) => if e@ == VerifyFault::BadSignature {
                Status::BadSignature
            } else {
                Status::Error(verify_fault_text(e@))
            },
        }),
{
    match result {
        Ok(_) => VerificationStatus::Verified,
        Err(VerifyError::BadSignature) => VerificationStatus::BadSignature,
        Err(other) => VerificationStatus::Error(other.text()),
    }
}

/// The check of one item, against the public keys in `items`.
pub fn classify_entry(items: &Vec<Item>, item: &Item, ikek: Option<Ikek>) -> (r: EntryVerification)
    ensures
        r@ == checked(items@, *item, ikek),
{
    let entry = match &item.entry {
        Ok(e) => e,
        Err(e) => {
            return EntryVerification {
                directory_index: item.directory_index,
                entry_index: item.entry_index,
                entry_type: EntryType::new(0),
                body_offset: FlashOffset(0),
                key_id: None,
                status: VerificationStatus::Error(e.text()),
            };
        },
    };
    let mut row = EntryVerification {
        directory_index: item.directory_index,
        entry_index: item.entry_index,
        entry_type: entry.entry_type(),
        body_offset: entry.body.offset(),
        key_id: None,
        status: VerificationStatus::NotSigned,
    };
    let header = match entry.class.header() {
        Some(h) => h,
        None => {
            return row;
        },
    };
    if !header.is_signed() {
        return row;
    }
    let key_id = header.signature_fingerprint;
    row.key_id = Some(key_id);
    row.status = match find_key(items, &key_id) {
        None => VerificationStatus::UnknownKey,
        Some(key) => status_of(header.verify_signature(entry.body.as_bytes(), key, ikek)),
    };
    row
}

/// Check the entries of some directories, in order.
pub fn verify_with_directories(
    blob: &SourceBytes,
    directories: &[DirectoryRef],
    rom_size: RomSize,
    rom_origin: FlashOffset,
    ikek: Option<Ikek>,
) -> (r: Vec<EntryVerification>)
    ensures
        reports_on(verifications(r@), directories@, blob@, rom_size, rom_origin, ikek),
{
    let items = parse_all(blob, directories, rom_size, rom_origin);
    let mut out: Vec<EntryVerification> = Vec::new();
    while out.len() < items.len()
        invariant
            out@.len() <= items@.len(),
            forall|k: int|
                0 <= k < out@.len() ==> (#[trigger] out@[k])@ == checked(
                    items@,
                    items@[k],
                    ikek,
                ),
        decreases items@.len() - out@.len(),
    {
        let row = classify_entry(&items, &items[out.len()], ikek);
        out.push(row);
    }
    assert(verifications(out@) =~= report(items@, ikek));
    out
}

/// Check all entries that can be reached from `fet`.
pub fn verify_chain_of_trust(
    blob: &SourceBytes,
    fet: &Fet,
    rom_size: RomSize,
    rom_origin: FlashOffset,
    ikek: Option<Ikek>,
) -> (r: Vec<EntryVerification>)
    ensures
        exists|dirs: Seq<DirectoryRef>|
            #![trigger all_decode(dirs, blob@)]
            places(dirs) == reached(blob@, fet.slots@, rom_size, rom_origin) && all_decode(
                dirs,
                blob@,
            ) && reports_on(verifications(r@), dirs, blob@, rom_size, rom_origin, ikek),
{
    let directories = walk_directories(blob, fet, rom_size, rom_origin);
    verify_with_directories(blob, directories.as_slice(), rom_size, rom_origin, ikek)
}

/// Public keys, each with an identifier of its own.
pub struct PubkeyTable {
    keys: Vec<PubkeyEntry>,
}

impl View for PubkeyTable {
    type V = Seq<PubkeyEntry>;

    closed spec fn view(&self) -> Seq<PubkeyEntry> {
        self.keys@
    }
}

/// Whether a key with the identifier `id` is in `keys`.
pub open spec fn has_key(keys: Seq<PubkeyEntry>, id: Seq<u8>) -> bool {
    exists|i: int| 0 <= i < keys.len() && (#[trigger] keys[i]).key_id@ == id
}

/// The public keys among the first `n` items, without those whose identifier
/// occurred before.
pub open spec fn distinct_keys(items: Seq<Item>, n: int) -> Seq<PubkeyEntry>
    decreases n,
{
    if n <= 0 {
        Seq::empty()
    } else {
        let before = distinct_keys(items, n - 1);
        match key_in(items[n - 1]) {
            Some(key) => if has_key(before, key.key_id@) {
                before
            } else {
                before.push(key)
            },
            None => before,
        }
    }
}

impl PubkeyTable {
    #[verifier::type_invariant]
    spec fn keys_differ(self) -> bool {
        forall|i: int, j: int|
            0 <= i < j < self.keys@.len() ==> (#[trigger] self.keys@[i]).key_id@ != (
            #[trigger] self.keys@[j]).key_id@
    }

    pub fn len(&self) -> (r: usize)
        ensures
            r == self@.len(),
    {
        self.keys.len()
    }

    pub fn is_empty(&self) -> (r: bool)
        ensures
            r == (self@.len() == 0),
    {
        self.keys.len() == 0
    }

    /// The key with the identifier `id`.
    pub fn get(&self, id: &KeyId) -> (r: Option<&PubkeyEntry>)
        ensures
            r is Some <==> has_key(self@, id@),
            r matches Some(key) ==> self@.contains(*key) && key.key_id@ == id@,
    {
        find_in(&self.keys, id)
    }

    pub fn contains_key(&self, id: &KeyId) -> (r: bool)
        ensures
            r == has_key(self@, id@),
    {
        self.get(id).is_some()
    }
}

fn find_in<'a>(keys: &'a Vec<PubkeyEntry>, id: &KeyId) -> (r: Option<&'a PubkeyEntry>)
    ensures
        r is Some <==> has_key(keys@, id@),
        r matches Some(key) ==> keys@.contains(*key) && key.key_id@ == id@,
{
    let mut i: usize = 0;
    while i < keys.len()
        invariant
            i <= keys@.len(),
            forall|j: int| 0 <= j < i ==> (#[trigger] keys@[j]).key_id@ != id@,
        decreases keys@.len() - i,
    {
        if equal_bytes(&keys[i].key_id, id) {
            assert(keys@[i as int].key_id@ == id@);
            return Some(&keys[i]);
        }
        i += 1;
    }
    None
}

/// Whether `keys` are the public keys in some directories, the first of each
/// identifier.
pub open spec fn collects(
    keys: Seq<PubkeyEntry>,
    dirs: Seq<DirectoryRef>,
    blob: Window,
    rom_size: RomSize,
    rom_origin: FlashOffset,
) -> bool {
    exists|items: Seq<Item>| #[trigger]
        complete(items, dirs, blob, rom_size, rom_origin) && keys == distinct_keys(
            items,
            items.len() as int,
        )
}

/// The public keys in some directories. Of several with one identifier the
/// first counts.
pub fn collect_pubkeys(
    blob: &SourceBytes,
    directories: &[DirectoryRef],
    rom_size: RomSize,
    rom_origin: FlashOffset,
) -> (r: PubkeyTable)
    ensures
        collects(r@, directories@, blob@, rom_size, rom_origin),
{
    let mut items = parse_all(blob, directories, rom_size, rom_origin);
    let ghost all = items@;
    let mut keys: Vec<PubkeyEntry> = Vec::new();
    let mut n: usize = 0;
    let total: usize = items.len();
    while n < total
        invariant
            n <= total,
            total == all.len(),
            items@ == all.skip(n as int),
            keys@ == distinct_keys(all, n as int),
            forall|i: int, j: int|
                0 <= i < j < keys@.len() ==> (#[trigger] keys@[i]).key_id@ != (
                #[trigger] keys@[j]).key_id@,
        decreases total - n,
    {
        let item = items.remove(0);
        assert(item == all[n as int]);
        assert(items@ =~= all.skip(n + 1));
        if let Ok(entry) = item.entry {
            if let EntryClass::Pubkey(key) = entry.class {
                if find_in(&keys, &key.key_id).is_none() {
                    let ghost before = keys@;
                    keys.push(key);
                    assert forall|i: int, j: int| 0 <= i < j < keys@.len() implies (
                    #[trigger] keys@[i]).key_id@ != (#[trigger] keys@[j]).key_id@ by {
                        if j == before.len() {
                            assert(keys@[i] == before[i]);
                        }
                    }
                }
            }
        }
        n += 1;
    }
    PubkeyTable { keys }
}

/// The table of public keys holds what an entry is checked with: the key of an
/// identifier is the first in the items that has it.
pub proof fn lemma_table_agrees_with_check(items: Seq<Item>, n: int, id: Seq<u8>, key: PubkeyEntry)
    requires
        0 <= n <= items.len(),
        distinct_keys(items, n).contains(key),
        key.key_id@ == id,
    ensures
        first_key(items, id, 0) == Some(key),
    decreases n,
{
    if n > 0 {
        let before = distinct_keys(items, n - 1);
        if before.contains(key) {
            lemma_table_agrees_with_check(items, n - 1, id, key);
        } else {
            assert(key_in(items[n - 1]) == Some(key));
            assert(!has_key(before, id));
            lemma_no_key_before(items, n - 1, id);
            lemma_skip_to(items, n - 1, id, 0);
        }
    }
}

/// What the check of an entry says, case by case. An entry without a header or
/// without a signature is not signed, and names no key. Any other names the key
/// of its fingerprint: that key is unknown when no item holds it, and otherwise
/// the first that does decides.
pub proof fn lemma_status_cases(items: Seq<Item>, item: Item, entry: Entry, ikek: Option<Ikek>)
    requires
        item.entry == Ok::<Entry, ParseError>(entry),
    ensures
        ({
            let row = checked(items, item, ikek);
            let signed = (entry.class is Header || entry.class is KeyStore)
                && entry.class.head()->Some_0.signed_raw != 0;
            let header = entry.class.head()->Some_0;
            let id = header.signature_fingerprint@;
            let key = first_key(items, id, 0);
            let outcome = header.verified(entry.body@.bytes, key->Some_0, ikek);
            &&& row.directory_index == item.directory_index
            &&& row.entry_index == item.entry_index
            &&& row.entry_type == entry.record.kind()
            &&& row.body_offset == FlashOffset(entry.body@.offset as u64)
            &&& row.status is NotSigned <==> !signed
            &&& row.key_id == (if signed {
                Some(id)
            } else {
                None
            })
            &&& signed ==> {
                &&& key is None <==> forall|k: int|
                    0 <= k < items.len() ==> !holds_key(#[trigger] items[k], id)
                &&& row.status is UnknownKey <==> key is None
                &&& row.status is Verified <==> key is Some && outcome is Ok
                &&& row.status is BadSignature <==> key is Some && outcome == Err::<
                    (),
                    VerifyFault,
                >(VerifyFault::BadSignature)
                &&& row.status is Error <==> key is Some && outcome is Err && outcome->Err_0
                    != VerifyFault::BadSignature
                &&& row.status is Error ==> row.status == Status::Error(
                    verify_fault_text(outcome->Err_0),
                )
            }
        }),
{
    if let Some(header) = entry.class.head() {
        lemma_first_key(items, header.signature_fingerprint@, 0);
    }
}

proof fn lemma_first_key(items: Seq<Item>, id: Seq<u8>, from: int)
    requires
        0 <= from <= items.len(),
    ensures
        first_key(items, id, from) is None <==> forall|k: int|
            from <= k < items.len() ==> !holds_key(#[trigger] items[k], id),
    decreases items.len() - from,
{
    if from < items.len() {
        lemma_first_key(items, id, from + 1);
        if first_key(items, id, from) is None {
            assert forall|k: int| from <= k < items.len() implies !holds_key(
                #[trigger] items[k],
                id,
            ) by {}
        }
    }
}

proof fn lemma_no_key_before(items: Seq<Item>, n: int, id: Seq<u8>)
    requires
        0 <= n <= items.len(),
        !has_key(distinct_keys(items, n), id),
    ensures
        forall|k: int| 0 <= k < n ==> !holds_key(#[trigger] items[k], id),
    decreases n,
{
    if n > 0 {
        let before = distinct_keys(items, n - 1);
        let all = distinct_keys(items, n);
        if has_key(before, id) {
            let i = choose|i: int| 0 <= i < before.len() && (#[trigger] before[i]).key_id@ == id;
            assert(all[i].key_id@ == id);
        }
        lemma_no_key_before(items, n - 1, id);
        if holds_key(items[n - 1], id) {
            assert(all[before.len() as int].key_id@ == id);
        }
    }
}

proof fn lemma_skip_to(items: Seq<Item>, n: int, id: Seq<u8>, from: int)
    requires
        0 <= from <= n <= items.len(),
        forall|k: int| 0 <= k < n ==> !holds_key(#[trigger] items[k], id),
    ensures
        first_key(items, id, from) == first_key(items, id, n),
    decreases n - from,
{
    if from < n {
        lemma_skip_to(items, n, id, from + 1);
    }
}

/// One line for a check.
pub open spec fn verification_text(v: Verification, verbose: bool) -> Seq<char> {
    let directory = pad_left(dec(v.directory_index as nat), ' ', 3);
    let kind = prefixed_hex_padded(v.entry_type.0 as nat, 2);
    let status = status_text(v.status) + "\n"@;
    if verbose {
        "dir="@ + (directory + (" entry="@ + (pad_left(dec(v.entry_index as nat), ' ', 3) + (
        " type="@ + (kind + (" body="@ + (prefixed_hex_padded(v.body_offset.0 as nat, 8) + (
        " status="@ + status))))))))
    } else {
        directory + ("."@ + (pad_right(dec(v.entry_index as nat), ' ', 3) + (" "@ + (kind + (" "@
            + status)))))
    }
}

/// One line for each of the first `n` checks.
pub open spec fn report_text(rows: Seq<Verification>, verbose: bool, n: int) -> Seq<char>
    decreases n,
{
    if n <= 0 {
        Seq::empty()
    } else {
        report_text(rows, verbose, n - 1) + verification_text(rows[n - 1], verbose)
    }
}

fn push_verification(row: &EntryVerification, verbose: bool, out: &mut String)
    ensures
        final(out)@ == old(out)@ + verification_text(row@, verbose),
{
    broadcast use group_text;

    if verbose {
        out.append("dir=");
        push_dec_padded(row.directory_index as u64, ' ', 3, out);
        out.append(" entry=");
        push_dec_padded(row.entry_index as u64, ' ', 3, out);
        out.append(" type=");
        push_prefixed_hex_padded(row.entry_type.0 as u64, 2, out);
        out.append(" body=");
        push_prefixed_hex_padded(row.body_offset.0, 8, out);
        out.append(" status=");
    } else {
        push_dec_padded(row.directory_index as u64, ' ', 3, out);
        out.append(".");
        push_padded_right(format_dec(row.entry_index as u64).as_str(), ' ', 3, out);
        out.append(" ");
        push_prefixed_hex_padded(row.entry_type.0 as u64, 2, out);
        out.append(" ");
    }
    row.status.push_text(out);
    out.append("\n");
}

/// The checks as text, one line each.
pub fn render_report(rows: &[EntryVerification], verbose: bool) -> (r: String)
    ensures
        r@ == report_text(verifications(rows@), verbose, rows@.len() as int),
{
    let mut out = String::new();
    let mut i: usize = 0;
    assert(out@ =~= Seq::<char>::empty());
    while i < rows.len()
        invariant
            i <= rows@.len(),
            out@ == report_text(verifications(rows@), verbose, i as int),
        decreases rows@.len() - i,
    {
        assert(verifications(rows@)[i as int] == rows@[i as int]@);
        push_verification(&rows[i], verbose, &mut out);
        i += 1;
    }
    out
}

proof fn lemma_same_fields(a: HeaderEntry, b: HeaderEntry, x: Window, y: Window)
    requires
        a.decodes(x),
        b.decodes(y),
        x.bytes.subrange(0, 0x100) == y.bytes.subrange(0, 0x100),
    ensures
        a.size_signed == b.size_signed,
        a.is_encrypted == b.is_encrypted,
        a.iv@ == b.iv@,
        a.signed_raw == b.signed_raw,
        a.signature_type == b.signature_type,
        a.signature_fingerprint@ == b.signature_fingerprint@,
        a.is_compressed == b.is_compressed,
        a.zlib_size == b.zlib_size,
        a.rom_size == b.rom_size,
        a.wrapped_key@ == b.wrapped_key@,
{
    let p = x.bytes.subrange(0, 0x100);
    assert forall|i: int| 0 <= i < 0x100 implies #[trigger] x.bytes[i] == y.bytes[i] by {
        assert(p[i] == x.bytes[i]);
        assert(y.bytes.subrange(0, 0x100)[i] == y.bytes[i]);
    }
    assert(x.bytes.subrange(0x20, 0x30) =~= y.bytes.subrange(0x20, 0x30));
    assert(x.bytes.subrange(0x38, 0x48) =~= y.bytes.subrange(0x38, 0x48));
    assert(x.bytes.subrange(0x80, 0x90) =~= y.bytes.subrange(0x80, 0x90));
}

proof fn lemma_same_check(
    a: HeaderEntry,
    b: HeaderEntry,
    body: Seq<u8>,
    pubkey: PubkeyEntry,
    ikek: Option<Ikek>,
)
    requires
        a.size_signed == b.size_signed,
        a.is_encrypted == b.is_encrypted,
        a.iv@ == b.iv@,
        a.signature_type == b.signature_type,
        a.is_compressed == b.is_compressed,
        a.zlib_size == b.zlib_size,
        a.rom_size == b.rom_size,
        a.wrapped_key@ == b.wrapped_key@,
    ensures
        a.verified(body, pubkey, ikek) == b.verified(body, pubkey, ikek),
{
    assert(a.bounds(body.len() as int) == b.bounds(body.len() as int));
    assert(a.plain(body, ikek) == b.plain(body, ikek));
    assert(a.signed(body, ikek) == b.signed(body, ikek));
}

proof fn lemma_reported_as_before(
    entry: Entry,
    again: Entry,
    pubkey: PubkeyEntry,
    ikek: Option<Ikek>,
)
    requires
        entry.class.describes(entry.record.kind(), entry.record is Bios, entry.body@),
        again.class.describes(again.record.kind(), again.record is Bios, again.body@),
        again.record.kind() == entry.record.kind(),
        (again.record is Bios) == (entry.record is Bios),
        again.body@.bytes.len() == entry.body@.bytes.len(),
        entry.body@.bytes.len() >= 0x100,
        forall|i: int|
            0 <= i < 0x100 ==> #[trigger] again.body@.bytes[i] == entry.body@.bytes[i],
        entry.class.head() is Some,
        entry.class.head()->Some_0.signed_raw != 0,
        entry.class.head()->Some_0.verified(again.body@.bytes, pubkey, ikek) == Ok::<
            (),
            VerifyFault,
        >(()),
    ensures
        named_key(entry) is Some,
        named_key(again) == named_key(entry),
        status_with(again, Some(pubkey), ikek) == Status::Verified,
{
    let old_header = entry.class.head()->Some_0;
    let new_header = again.class.head()->Some_0;
    assert(again.class.head() is Some);
    assert(again.body@.bytes.subrange(0, 0x100) =~= entry.body@.bytes.subrange(0, 0x100));
    lemma_same_fields(old_header, new_header, entry.body@, again.body@);
    lemma_same_check(old_header, new_header, again.body@.bytes, pubkey, ikek);
}

/// An entry that was signed anew is reported as verified: parsed anew from the
/// new image, it names the key that it named before, and its check with a
/// public key that has the numbers of the private key succeeds.
pub proof fn lemma_signed_entry_is_reported(
    before: Edits,
    after: Edits,
    entry: Entry,
    key: RsaPrivateKey,
    ikek: Option<Ikek>,
    r: Result<(), SignError>,
    pubkey: PubkeyEntry,
    old_image: Seq<u8>,
    new_image: Seq<u8>,
    again: Entry,
)
    requires
        signed_anew(before, after, entry, key, ikek, r),
        r is Ok,
        before.renders(old_image),
        after.renders(new_image),
        before.original.covers(entry.body@.offset, entry.body@.bytes.len() as int),
        old_image.subrange(
            entry.body@.offset - before.original.offset,
            entry.body@.end() - before.original.offset,
        ) == entry.body@.bytes,
        pubkey.modulus_bits == bit_length(signing_modulus_of(key)),
        pubkey.numbers() == Ok::<(nat, nat), VerifyFault>(
            (signing_modulus_of(key), signing_exponent_of(key)),
        ),
        entry.class.describes(entry.record.kind(), entry.record is Bios, entry.body@),
        again.record.kind() == entry.record.kind(),
        (again.record is Bios) == (entry.record is Bios),
        again.body@ == (Window {
            bytes: new_image.subrange(
                entry.body@.offset - before.original.offset,
                entry.body@.end() - before.original.offset,
            ),
            offset: entry.body@.offset,
        }),
        again.class.describes(again.record.kind(), again.record is Bios, again.body@),
    ensures
        named_key(entry) is Some,
        named_key(again) == named_key(entry),
        status_with(again, Some(pubkey), ikek) == Status::Verified,
{
    lemma_signed_entry_verifies(
        before,
        after,
        entry,
        key,
        ikek,
        r,
        pubkey,
        old_image,
        new_image,
    );
    lemma_signing_keeps_header(before, after, entry, key, ikek, r, old_image, new_image);
    let start = entry.body@.offset - before.original.offset;
    assert forall|i: int| 0 <= i < 0x100 implies #[trigger] again.body@.bytes[i]
        == entry.body@.bytes[i] by {
        assert(new_image[start + i] == old_image[start + i]);
        assert(old_image.subrange(start, start + entry.body@.bytes.len())[i] == old_image[start
            + i]);
    }
    lemma_reported_as_before(entry, again, pubkey, ikek);
}

/// A report has one row for every entry of the directories, in their order, each
/// with the place of its entry and the outcome of its check.
pub proof fn lemma_report_rows(
    rows: Seq<Verification>,
    dirs: Seq<DirectoryRef>,
    blob: Window,
    rom_size: RomSize,
    rom_origin: FlashOffset,
    ikek: Option<Ikek>,
)
    requires
        reports_on(rows, dirs, blob, rom_size, rom_origin, ikek),
    ensures
        exists|items: Seq<Item>| #[trigger]
            complete(items, dirs, blob, rom_size, rom_origin) && rows.len() == items.len()
                && forall|k: int|
                0 <= k < rows.len() ==> {
                    let row = #[trigger] rows[k];
                    &&& row.directory_index == items[k].directory_index
                    &&& row.entry_index == items[k].entry_index
                    &&& row == checked(items, items[k], ikek)
                    &&& items[k].entry matches Err(e) ==> row.status == Status::Error(
                        parse_error_text(e),
                    ) && row.key_id is None
                },
        rows.len() == crate::inventory::places_in(dirs, dirs.len() as int).len(),
        forall|k: int|
            0 <= k < rows.len() ==> (#[trigger] rows[k]).directory_index
                == crate::inventory::places_in(dirs, dirs.len() as int)[k].directory
                && rows[k].entry_index == crate::inventory::places_in(
                dirs,
                dirs.len() as int,
            )[k].entry,
{
    let items = choose|items: Seq<Item>| #[trigger]
        complete(items, dirs, blob, rom_size, rom_origin) && rows == report(items, ikek);
    assert forall|k: int| 0 <= k < rows.len() implies rows[k] == checked(items, items[k], ikek) by {}
}

/// The key that an entry is checked with is that of the first item that holds a
/// public key with the identifier.
pub proof fn lemma_first_key_is_first(items: Seq<Item>, id: Seq<u8>, key: PubkeyEntry)
    ensures
        first_key(items, id, 0) == Some(key) <==> exists|k: int|
            #![trigger items[k]]
            0 <= k < items.len() && {
                &&& items[k].entry matches Ok(entry)
                &&& entry.class == EntryClass::Pubkey(key)
                &&& key.key_id@ == id
            } && forall|j: int| 0 <= j < k ==> !holds_key(#[trigger] items[j], id),
{
    if first_key(items, id, 0) == Some(key) {
        lemma_key_of_some_item(items, id, 0);
    }
    if exists|k: int|
        #![trigger items[k]]
        0 <= k < items.len() && {
            &&& items[k].entry matches Ok(entry)
            &&& entry.class == EntryClass::Pubkey(key)
            &&& key.key_id@ == id
        } && forall|j: int| 0 <= j < k ==> !holds_key(#[trigger] items[j], id) {
        let k = choose|k: int|
            #![trigger items[k]]
            0 <= k < items.len() && {
                &&& items[k].entry matches Ok(entry)
                &&& entry.class == EntryClass::Pubkey(key)
                &&& key.key_id@ == id
            } && forall|j: int| 0 <= j < k ==> !holds_key(#[trigger] items[j], id);
        lemma_skip_to(items, k, id, 0);
        assert(holds_key(items[k], id));
    }
}

proof fn lemma_key_of_some_item(items: Seq<Item>, id: Seq<u8>, from: int)
    requires
        0 <= from <= items.len(),
        first_key(items, id, from) is Some,
    ensures
        exists|k: int|
            #![trigger items[k]]
            from <= k < items.len() && {
                &&& items[k].entry matches Ok(entry)
                &&& entry.class == EntryClass::Pubkey(first_key(items, id, from)->Some_0)
                &&& first_key(items, id, from)->Some_0.key_id@ == id
            } && forall|j: int| from <= j < k ==> !holds_key(#[trigger] items[j], id),
    decreases items.len() - from,
{
    if !holds_key(items[from], id) {
        lemma_key_of_some_item(items, id, from + 1);
        let k = choose|k: int|
            #![trigger items[k]]
            from + 1 <= k < items.len() && {
                &&& items[k].entry matches Ok(entry)
                &&& entry.class == EntryClass::Pubkey(first_key(items, id, from + 1)->Some_0)
                &&& first_key(items, id, from + 1)->Some_0.key_id@ == id
            } && forall|j: int| from + 1 <= j < k ==> !holds_key(#[trigger] items[j], id);
        assert forall|j: int| from <= j < k implies !holds_key(#[trigger] items[j], id) by {}
        assert(items[k].entry is Ok);
    } else {
        assert(items[from].entry is Ok);
    }
}

/// The table of public keys has a key for an identifier exactly when some item
/// holds one, and never two.
pub proof fn lemma_table_has_every_key(items: Seq<Item>, n: int, id: Seq<u8>)
    requires
        0 <= n <= items.len(),
    ensures
        has_key(distinct_keys(items, n), id) <==> exists|k: int|
            #![trigger items[k]]
            0 <= k < n && {
                &&& items[k].entry matches Ok(entry)
                &&& entry.class matches EntryClass::Pubkey(key)
                &&& key.key_id@ == id
            },
        forall|i: int, j: int|
            0 <= i < j < distinct_keys(items, n).len() ==> (
            #[trigger] distinct_keys(items, n)[i]).key_id@ != (
            #[trigger] distinct_keys(items, n)[j]).key_id@,
    decreases n,
{
    if n > 0 {
        lemma_table_has_every_key(items, n - 1, id);
        let before = distinct_keys(items, n - 1);
        let all = distinct_keys(items, n);
        if has_key(before, id) {
            let i = choose|i: int| 0 <= i < before.len() && (#[trigger] before[i]).key_id@ == id;
            assert(all[i].key_id@ == id);
        }
        if has_key(all, id) {
            let i = choose|i: int| 0 <= i < all.len() && (#[trigger] all[i]).key_id@ == id;
            if i < before.len() {
                assert(before[i].key_id@ == id);
                assert(has_key(before, id));
            } else {
                assert(items[n - 1].entry is Ok);
            }
        }
        if holds_key(items[n - 1], id) && !has_key(before, id) {
            assert(all[before.len() as int].key_id@ == id);
        }
    }
}

/// Every check has its line in the text of a report, behind those of the checks
/// before it.
pub proof fn lemma_every_check_is_shown(rows: Seq<Verification>, verbose: bool, n: int, k: int)
    requires
        0 <= k < n <= rows.len(),
    ensures
        exists|behind: Seq<char>|
            report_text(rows, verbose, n) == #[trigger] (report_text(rows, verbose, k)
                + verification_text(rows[k], verbose) + behind),
    decreases n,
{
    let front = report_text(rows, verbose, k) + verification_text(rows[k], verbose);
    if k == n - 1 {
        assert(report_text(rows, verbose, n) =~= front + Seq::<char>::empty());
    } else {
        lemma_every_check_is_shown(rows, verbose, n - 1, k);
        let behind = choose|behind: Seq<char>|
            report_text(rows, verbose, n - 1) == #[trigger] (front + behind);
        let more = behind + verification_text(rows[n - 1], verbose);
        assert(report_text(rows, verbose, n) =~= front + more);
    }
}

} // verus!
