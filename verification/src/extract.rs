//! The bytes of an entry, as they are or unpacked.

use vstd::prelude::*;

use crate::body::{
    body_fault_text, lemma_signed_bytes, lemma_signed_bytes_exist, BodyError, BodyFault, Ikek,
};
use crate::entry::{Entry, HeaderEntry};
use crate::source::copy_of;
use crate::text::group_text;

verus! {

/// Why the bytes of an entry could not be had.
#[derive(Debug)]
pub enum ExtractError {
    /// The entry has no header, and so nothing to unpack.
    NotHeaderEntry,
    Body(BodyError),
}

/// What an `ExtractError` says.
pub enum ExtractFault {
    NotHeaderEntry,
    Body(BodyFault),
}

impl View for ExtractError {
    type V = ExtractFault;

    open spec fn view(&self) -> ExtractFault {
        match self {
            ExtractError::NotHeaderEntry => ExtractFault::NotHeaderEntry,
            ExtractError::Body(e) => ExtractFault::Body(e@),
        }
    }
}

/// One-line description of a fault.
pub open spec fn extract_fault_text(e: ExtractFault) -> Seq<char> {
    match e {
        ExtractFault::NotHeaderEntry =>
            "entry does not carry a HeaderFile body (class lacks decompression/decryption)"@,
        ExtractFault::Body(fault) => body_fault_text(fault),
    }
}

impl ExtractError {
    pub fn text(&self) -> (r: String)
        ensures
            r@ == extract_fault_text(self@),
    {
        broadcast use group_text;

        let mut out = String::new();
        match self {
            ExtractError::NotHeaderEntry => {
                out.append(
                    "entry does not carry a HeaderFile body (class lacks decompression/decryption)",
                );
            },
            ExtractError::Body(e) => e.push_text(&mut out),
        }
        out
    }
}

/// What a result about a body says about the entry.
pub open spec fn of_body(r: Result<Seq<u8>, BodyFault>) -> Result<Seq<u8>, ExtractFault> {
    match r {
        Ok(bytes) => Ok(bytes),
        Err(e) => Err(ExtractFault::Body(e)),
    }
}

/// The data of an entry, unpacked but not decrypted.
pub open spec fn decompressed_of(entry: Entry) -> Result<Seq<u8>, ExtractFault> {
    match entry.class.head() {
        None => Err(ExtractFault::NotHeaderEntry),
        Some(header) => match header.data(entry.body@.bytes) {
            Ok(data) => of_body(header.decompressed(data)),
            Err(e) => Err(ExtractFault::Body(e)),
        },
    }
}

/// The data of an entry, decrypted but not unpacked.
pub open spec fn decrypted_of(entry: Entry, ikek: Ikek) -> Result<Seq<u8>, ExtractFault> {
    match entry.class.head() {
        None => Err(ExtractFault::NotHeaderEntry),
        Some(header) => of_body(header.decrypted(entry.body@.bytes, ikek)),
    }
}

/// The header of an entry and its plain data, as far as they are signed. Only
/// compressed entries are unpacked.
pub open spec fn unpacked_file_of(entry: Entry, ikek: Ikek) -> Result<Seq<u8>, ExtractFault> {
    match entry.class.head() {
        None => Err(ExtractFault::NotHeaderEntry),
        Some(header) => if !header.is_compressed {
            Err(ExtractFault::Body(BodyFault::NotCompressed))
        } else {
            of_body(header.signed(entry.body@.bytes, Some(ikek)))
        },
    }
}

/// The body of an entry with its data decrypted, marked as not encrypted.
pub open spec fn decrypted_file_of(entry: Entry, ikek: Ikek) -> Result<Seq<u8>, ExtractFault> {
    match entry.class.head() {
        None => Err(ExtractFault::NotHeaderEntry),
        Some(header) => of_body(header.decrypted_file(entry.body@.bytes, ikek)),
    }
}

/// The body of an entry as it is.
pub fn extract_raw(entry: &Entry) -> (r: Vec<u8>)
    ensures
        r@ == entry.body@.bytes,
{
    copy_of(entry.get_bytes().as_bytes())
}

/// The data of an entry, unpacked. They are taken as they stand: data that are
/// encrypted as well have to be decrypted first.
pub fn extract_decompressed(entry: &Entry) -> (r: Result<Vec<u8>, ExtractError>)
    ensures
        match r {
            Ok(out) => decompressed_of(*entry) == Ok::<Seq<u8>, ExtractFault>(out@),
            Err(e) => decompressed_of(*entry) == Err::<Seq<u8>, ExtractFault>(e@),
        },
{
    let header: &HeaderEntry = match entry.class.header() {
        Some(h) => h,
        None => {
            return Err(ExtractError::NotHeaderEntry);
        },
    };
    match header.data_region(entry.body.as_bytes()) {
        Err(e) => Err(ExtractError::Body(e)),
        Ok(data) => match header.get_decompressed_body(data) {
            Ok(out) => Ok(out),
            Err(e) => Err(ExtractError::Body(e)),
        },
    }
}

/// The data of an entry, decrypted.
pub fn extract_decrypted(entry: &Entry, ikek: Ikek) -> (r: Result<Vec<u8>, ExtractError>)
    ensures
        match r {
            Ok(out) => decrypted_of(*entry, ikek) == Ok::<Seq<u8>, ExtractFault>(out@),
            Err(e) => decrypted_of(*entry, ikek) == Err::<Seq<u8>, ExtractFault>(e@),
        },
{
    let header: &HeaderEntry = match entry.class.header() {
        Some(h) => h,
        None => {
            return Err(ExtractError::NotHeaderEntry);
        },
    };
    match header.get_decrypted_body(entry.body.as_bytes(), ikek) {
        Ok(out) => Ok(out),
        Err(e) => Err(ExtractError::Body(e)),
    }
}

/// The header of a compressed entry and its data, decrypted and unpacked, up to
/// the signed size.
pub fn extract_unpacked_file(entry: &Entry, ikek: Ikek) -> (r: Result<Vec<u8>, ExtractError>)
    ensures
        match r {
            Ok(out) => unpacked_file_of(*entry, ikek) == Ok::<Seq<u8>, ExtractFault>(out@),
            Err(e) => unpacked_file_of(*entry, ikek) == Err::<Seq<u8>, ExtractFault>(e@),
        },
{
    let header: &HeaderEntry = match entry.class.header() {
        Some(h) => h,
        None => {
            return Err(ExtractError::NotHeaderEntry);
        },
    };
    if !header.is_compressed {
        return Err(ExtractError::Body(BodyError::NotCompressed));
    }
    match header.get_signed_bytes(entry.body.as_bytes(), Some(ikek)) {
        Ok(out) => Ok(out),
        Err(e) => Err(ExtractError::Body(e)),
    }
}

/// The body of an encrypted entry with its data decrypted and the header saying
/// so.
pub fn extract_decrypted_file(entry: &Entry, ikek: Ikek) -> (r: Result<Vec<u8>, ExtractError>)
    ensures
        match r {
            Ok(out) => decrypted_file_of(*entry, ikek) == Ok::<Seq<u8>, ExtractFault>(out@),
            Err(e) => decrypted_file_of(*entry, ikek) == Err::<Seq<u8>, ExtractFault>(e@),
        },
{
    let header: &HeaderEntry = match entry.class.header() {
        Some(h) => h,
        None => {
            return Err(ExtractError::NotHeaderEntry);
        },
    };
    match header.to_decrypted_file_bytes(entry.body.as_bytes(), ikek) {
        Ok(out) => Ok(out),
        Err(e) => Err(ExtractError::Body(e)),
    }
}

/// What is unpacked or decrypted of an entry are its plain data, where the one or
/// the other is all that closes them; an unpacked entry is its header and its plain
/// data up to the signed size. Each is there exactly when the header says that the
/// entry is closed in that way and opening it succeeds.
pub proof fn lemma_extracted_data(entry: Entry, header: HeaderEntry, ikek: Ikek)
    requires
        entry.class.head() == Some(header),
    ensures
        ({
            let body = entry.body@.bytes;
            let plain = header.plain(body, Some(ikek));
            &&& decompressed_of(entry) is Ok <==> header.is_compressed && header.data(body) is Ok
                && header.decompressed(header.data(body)->Ok_0) is Ok
            &&& !header.is_encrypted && header.is_compressed ==> (decompressed_of(entry) is Ok
                <==> plain is Ok)
            &&& !header.is_encrypted ==> (decompressed_of(entry) matches Ok(out) ==> plain == Ok::<
                Seq<u8>,
                BodyFault,
            >(out))
            &&& decrypted_of(entry, ikek) is Ok ==> header.is_encrypted
            &&& header.is_encrypted && !header.is_compressed ==> (decrypted_of(entry, ikek) is Ok
                <==> plain is Ok)
            &&& header.is_encrypted && !header.is_compressed ==> (decrypted_of(
                entry,
                ikek,
            ) matches Ok(out) ==> plain == Ok::<Seq<u8>, BodyFault>(out))
            &&& header.is_encrypted && header.is_compressed ==> (decrypted_of(
                entry,
                ikek,
            ) matches Ok(out) ==> plain == header.decompressed(out))
            &&& unpacked_file_of(entry, ikek) is Ok <==> header.is_compressed && plain is Ok
                && body.len() >= 0x100 && 0x100 <= header.size_signed <= 0x100
                + plain->Ok_0.len()
            &&& unpacked_file_of(entry, ikek) matches Ok(file) ==> {
                &&& file.len() == header.size_signed
                &&& forall|j: int| 0 <= j < 0x100 ==> #[trigger] file[j] == body[j]
                &&& forall|j: int|
                    0 <= j < file.len() - 0x100 ==> #[trigger] file[0x100 + j] == plain->Ok_0[j]
            }
            &&& decrypted_file_of(entry, ikek) is Ok <==> decrypted_of(entry, ikek) is Ok
        }),
{
    lemma_signed_bytes_exist(header, entry.body@.bytes, Some(ikek));
    if let Ok(file) = unpacked_file_of(entry, ikek) {
        lemma_signed_bytes(header, entry.body@.bytes, Some(ikek), file);
    }
}

/// Of an entry without a header nothing is unpacked or decrypted.
pub proof fn lemma_nothing_extracted(entry: Entry, ikek: Ikek)
    requires
        entry.class.head() is None,
    ensures
        ({
            let refused = Err::<Seq<u8>, ExtractFault>(ExtractFault::NotHeaderEntry);
            &&& decompressed_of(entry) == refused
            &&& decrypted_of(entry, ikek) == refused
            &&& unpacked_file_of(entry, ikek) == refused
            &&& decrypted_file_of(entry, ikek) == refused
        }),
{
}

} // verus!
