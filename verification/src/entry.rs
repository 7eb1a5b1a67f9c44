//! Directory records together with the bodies that they point to.

use vstd::prelude::*;

use crate::address::{
    directory_mode, entry_mode, entry_target, Address, AddressMode, FlashOffset, ResolveContext,
    RomSize,
};
use crate::directory::{BiosDirectory, BiosEntry, PspDirectory, PspEntry};
use crate::error::ParseError;
use crate::id::EntryType;
use crate::source::{SourceBytes, Window};
use crate::wire::{
    be32, le16, le32, read_array16, read_array4, read_be32, read_le16, read_le32,
};

verus! {

/// Length of the header in front of a signed body.
pub const HEADER_FILE_LEN: usize = 0x100;

/// Length of the fixed part of a public key.
pub const PUBKEY_HEADER_LEN: usize = 0x40;

/// A record of a PSP or a BIOS directory.
#[derive(Debug, PartialEq, Eq)]
pub enum EntryRecord {
    Psp(PspEntry),
    Bios(BiosEntry),
}

impl Clone for EntryRecord {
    fn clone(&self) -> (r: Self)
        ensures
            r.same_as(*self),
    {
        match self {
            EntryRecord::Psp(p) => EntryRecord::Psp(p.clone()),
            EntryRecord::Bios(b) => EntryRecord::Bios(b.clone()),
        }
    }
}

impl EntryRecord {
    /// Whether both are of one family, have the same fields and show the same
    /// bytes.
    pub open spec fn same_as(self, other: EntryRecord) -> bool {
        match (self, other) {
            (EntryRecord::Psp(a), EntryRecord::Psp(b)) => a.same_as(b),
            (EntryRecord::Bios(a), EntryRecord::Bios(b)) => a.same_as(b),
            _ => false,
        }
    }

    /// The type byte.
    pub open spec fn kind(self) -> EntryType {
        match self {
            EntryRecord::Psp(p) => p.entry_type,
            EntryRecord::Bios(b) => b.entry_type,
        }
    }

    /// The length of the body.
    pub open spec fn body_size(self) -> u32 {
        match self {
            EntryRecord::Psp(p) => p.size,
            EntryRecord::Bios(b) => b.size,
        }
    }

    /// The pointer to the body.
    pub open spec fn pointer(self) -> Address {
        match self {
            EntryRecord::Psp(p) => p.offset,
            EntryRecord::Bios(b) => b.offset,
        }
    }

    /// The mode that the record itself gives for its pointer.
    pub open spec fn own_mode(self) -> AddressMode {
        match self {
            EntryRecord::Psp(p) => entry_mode(p.rsv0),
            EntryRecord::Bios(b) => entry_mode(b.rsv0),
        }
    }

    /// The bytes of the record.
    pub open spec fn window(self) -> Window {
        match self {
            EntryRecord::Psp(p) => p.source@,
            EntryRecord::Bios(b) => b.source@,
        }
    }

    pub fn entry_type(&self) -> (r: EntryType)
        ensures
            r == self.kind(),
    {
        match self {
            EntryRecord::Psp(p) => p.entry_type,
            EntryRecord::Bios(b) => b.entry_type,
        }
    }

    pub fn size(&self) -> (r: u32)
        ensures
            r == self.body_size(),
    {
        match self {
            EntryRecord::Psp(p) => p.size,
            EntryRecord::Bios(b) => b.size,
        }
    }

    pub fn offset(&self) -> (r: Address)
        ensures
            r == self.pointer(),
    {
        match self {
            EntryRecord::Psp(p) => p.offset,
            EntryRecord::Bios(b) => b.offset,
        }
    }

    pub fn entry_address_mode(&self) -> (r: AddressMode)
        ensures
            r == self.own_mode(),
    {
        match self {
            EntryRecord::Psp(p) => p.entry_address_mode(),
            EntryRecord::Bios(b) => b.entry_address_mode(),
        }
    }

    pub fn source(&self) -> (r: &SourceBytes)
        ensures
            r@ == self.window(),
    {
        match self {
            EntryRecord::Psp(p) => &p.source,
            EntryRecord::Bios(b) => &b.source,
        }
    }
}

/// The header in front of a signed body.
#[derive(Clone, Debug, PartialEq, Eq)]
pub struct HeaderEntry {
    /// The `0x100` bytes of the header.
    pub source: SourceBytes,
    pub magic: [u8; 4],
    /// Length of the header and the plain body, which the signature covers.
    pub size_signed: u32,
    pub is_encrypted: bool,
    pub iv: [u8; 16],
    /// Any value but zero means that there is a signature.
    pub signed_raw: u32,
    /// `0` for RSA-2048, `2` for RSA-4096.
    pub signature_type: u32,
    /// Identifier of the key that the body is signed with.
    pub signature_fingerprint: [u8; 16],
    pub is_compressed: bool,
    pub size_uncompressed: u32,
    /// Length of the zlib stream in the body.
    pub zlib_size: u32,
    /// Bit 0: there is a SHA-256 checksum. Bit 1: a SHA-384 checksum. This is
    /// the one field that is stored big-endian.
    pub bitfield: u32,
    /// Version bytes as stored, last part first.
    pub version: [u8; 4],
    pub load_addr: u32,
    /// Size of the entry in the ROM; `0` when the record's size counts.
    pub rom_size: u32,
    pub wrapped_key: [u8; 16],
}

impl HeaderEntry {
    /// Whether this is the header that `body` starts with.
    pub open spec fn decodes(self, body: Window) -> bool {
        let b = body.bytes;
        &&& b.len() >= 0x100
        &&& self.source@ == body.part(0, 0x100)
        &&& self.magic@ == b.subrange(0x10, 0x14)
        &&& self.size_signed == le32(b, 0x14)
        &&& self.is_encrypted == (le32(b, 0x18) == 1)
        &&& self.iv@ == b.subrange(0x20, 0x30)
        &&& self.signed_raw == le32(b, 0x30)
        &&& self.signature_type == le32(b, 0x34)
        &&& self.signature_fingerprint@ == b.subrange(0x38, 0x48)
        &&& self.is_compressed == (le32(b, 0x48) == 1)
        &&& self.size_uncompressed == le32(b, 0x50)
        &&& self.zlib_size == le32(b, 0x54)
        &&& self.bitfield == be32(b, 0x58)
        &&& self.version@ == b.subrange(0x60, 0x64)
        &&& self.load_addr == le32(b, 0x68)
        &&& self.rom_size == le32(b, 0x6C)
        &&& self.wrapped_key@ == b.subrange(0x80, 0x90)
    }

    /// Parse the header that `body` starts with.
    pub fn parse(body: &SourceBytes) -> (r: Result<Self, ParseError>)
        ensures
            r is Ok <==> body@.bytes.len() >= 0x100,
            r matches Ok(header) ==> header.decodes(body@),
            r matches Err(e) ==> e == (ParseError::Truncated {
                what: "PSP header",
                offset: FlashOffset(body@.offset as u64),
                expected: 0x100,
                available: body@.bytes.len() as usize,
            }),
    {
        let h = body.as_bytes();
        if h.len() < HEADER_FILE_LEN {
            return Err(
                ParseError::Truncated {
                    what: "PSP header",
                    offset: body.offset(),
                    expected: HEADER_FILE_LEN,
                    available: body.len(),
                },
            );
        }
        let source = body.slice(0, HEADER_FILE_LEN).unwrap();
        Ok(
            HeaderEntry {
                source,
                magic: read_array4(h, 0x10),
                size_signed: read_le32(h, 0x14),
                is_encrypted: read_le32(h, 0x18) == 1,
                iv: read_array16(h, 0x20),
                signed_raw: read_le32(h, 0x30),
                signature_type: read_le32(h, 0x34),
                signature_fingerprint: read_array16(h, 0x38),
                is_compressed: read_le32(h, 0x48) == 1,
                size_uncompressed: read_le32(h, 0x50),
                zlib_size: read_le32(h, 0x54),
                bitfield: read_be32(h, 0x58),
                version: read_array4(h, 0x60),
                load_addr: read_le32(h, 0x68),
                rom_size: read_le32(h, 0x6C),
                wrapped_key: read_array16(h, 0x80),
            },
        )
    }

    pub fn is_signed(&self) -> (r: bool)
        ensures
            r == (self.signed_raw != 0),
    {
        self.signed_raw != 0
    }

    /// Whether `signed_raw` has one of the values that are known to occur.
    pub fn signed_value_is_documented(&self) -> (r: bool)
        ensures
            r == set![0u32, 1, 0xFFFF_0000].contains(self.signed_raw),
    {
        matches!(self.signed_raw, 0 | 1 | 0xFFFF_0000)
    }

    pub fn has_sha256_checksum(&self) -> (r: bool)
        ensures
            r == (self.bitfield % 2 == 1),
    {
        self.bitfield % 2 == 1
    }

    pub fn has_sha384_checksum(&self) -> (r: bool)
        ensures
            r == (self.bitfield / 2 % 2 == 1),
    {
        self.bitfield / 2 % 2 == 1
    }

    /// The length of a signature of this type.
    pub open spec fn signature_size(self) -> Option<usize> {
        if self.signature_type == 0 {
            Some(0x100)
        } else if self.signature_type == 2 {
            Some(0x200)
        } else {
            None
        }
    }

    /// The length of the signature; `None` when the type is not known.
    pub fn signature_len(&self) -> (r: Option<usize>)
        ensures
            r == self.signature_size(),
    {
        match self.signature_type {
            0 => Some(0x100),
            2 => Some(0x200),
            _ => None,
        }
    }
}

/// The fixed part of a public key.
#[derive(Clone, Debug, PartialEq, Eq)]
pub struct PubkeyEntry {
    /// The whole key: fixed part, numbers and signature.
    pub source: SourceBytes,
    pub version: u32,
    /// Identifier of the key itself.
    pub key_id: [u8; 16],
    /// Identifier of the key that signed this one.
    pub certifying_id: [u8; 16],
    pub key_usage: u32,
    pub security_features: u16,
    pub pubexp_bits: u32,
    pub modulus_bits: u32,
}

impl PubkeyEntry {
    /// Whether this is the public key in `body`.
    pub open spec fn decodes(self, body: Window) -> bool {
        let b = body.bytes;
        &&& b.len() >= 0x40
        &&& self.source@ == body
        &&& self.version == le32(b, 0)
        &&& self.key_id@ == b.subrange(0x04, 0x14)
        &&& self.certifying_id@ == b.subrange(0x14, 0x24)
        &&& self.key_usage == le32(b, 0x24)
        &&& self.security_features == le16(b, 0x2A)
        &&& self.pubexp_bits == le32(b, 0x38)
        &&& self.modulus_bits == le32(b, 0x3C)
    }

    /// Parse the public key in `body`.
    pub fn parse(body: &SourceBytes) -> (r: Result<Self, ParseError>)
        ensures
            r is Ok <==> body@.bytes.len() >= 0x40,
            r matches Ok(key) ==> key.decodes(body@),
            r matches Err(e) ==> e == (ParseError::Truncated {
                what: "PubkeyFile header",
                offset: FlashOffset(body@.offset as u64),
                expected: 0x40,
                available: body@.bytes.len() as usize,
            }),
    {
        let h = body.as_bytes();
        if h.len() < PUBKEY_HEADER_LEN {
            return Err(
                ParseError::Truncated {
                    what: "PubkeyFile header",
                    offset: body.offset(),
                    expected: PUBKEY_HEADER_LEN,
                    available: body.len(),
                },
            );
        }
        Ok(
            PubkeyEntry {
                source: body.clone(),
                version: read_le32(h, 0),
                key_id: read_array16(h, 0x04),
                certifying_id: read_array16(h, 0x14),
                key_usage: read_le32(h, 0x24),
                security_features: read_le16(h, 0x2A),
                pubexp_bits: read_le32(h, 0x38),
                modulus_bits: read_le32(h, 0x3C),
            },
        )
    }

    /// Length of the public exponent in bytes.
    pub fn pubexp_size(&self) -> (r: usize)
        ensures
            r == self.pubexp_bits as int / 8,
    {
        self.pubexp_bits as usize / 8
    }

    /// Length of the modulus in bytes.
    pub fn modulus_size(&self) -> (r: usize)
        ensures
            r == self.modulus_bits as int / 8,
    {
        self.modulus_bits as usize / 8
    }
}

/// What the body of an entry is.
#[derive(Clone, Debug, PartialEq, Eq)]
pub enum EntryClass {
    /// Bytes without a known structure.
    Plain,
    /// A body behind a header.
    Header(HeaderEntry),
    /// A public key.
    Pubkey(PubkeyEntry),
    /// A store of keys, behind a header.
    KeyStore(HeaderEntry),
    /// A microcode patch of a BIOS directory.
    Microcode,
    /// Another directory.
    SecondaryDirectoryPointer,
    /// A record that leads to another directory.
    TertiaryDirectoryPointer,
    /// No body of its own: the directory record is the payload.
    SoftFuseChain,
}

impl EntryClass {
    /// Whether this is the class of a body of type `t` in a BIOS (or else a
    /// PSP) directory. A body that is too short for its structure is plain.
    pub open spec fn describes(self, t: EntryType, is_bios: bool, body: Window) -> bool {
        if t.points_to_directory() {
            self is SecondaryDirectoryPointer
        } else if t.points_to_indirection() {
            self is TertiaryDirectoryPointer
        } else if t.soft_fuse() {
            self is SoftFuseChain
        } else if t.holds_pubkey() {
            if body.bytes.len() >= 0x40 {
                self matches EntryClass::Pubkey(p) && p.decodes(body)
            } else {
                self is Plain
            }
        } else if t.holds_key_store() {
            if body.bytes.len() >= 0x100 {
                self matches EntryClass::KeyStore(h) && h.decodes(body)
            } else {
                self is Plain
            }
        } else if is_bios && t.0 == 0x66 {
            self is Microcode
        } else if !t.headerless() && body.bytes.len() >= 0x100 {
            self matches EntryClass::Header(h) && h.decodes(body)
        } else {
            self is Plain
        }
    }

    /// The header, where there is one.
    pub open spec fn head(self) -> Option<HeaderEntry> {
        match self {
            EntryClass::Header(h) => Some(h),
            EntryClass::KeyStore(h) => Some(h),
            _ => None,
        }
    }

    pub fn header(&self) -> (r: Option<&HeaderEntry>)
        ensures
            r is Some <==> self.head() is Some,
            r matches Some(h) ==> self.head() == Some(*h),
    {
        match self {
            EntryClass::Header(h) => Some(h),
            EntryClass::KeyStore(h) => Some(h),
            _ => None,
        }
    }

    pub fn pubkey(&self) -> (r: Option<&PubkeyEntry>)
        ensures
            r is Some <==> self is Pubkey,
            r matches Some(p) ==> *self == EntryClass::Pubkey(*p),
    {
        match self {
            EntryClass::Pubkey(p) => Some(p),
            _ => None,
        }
    }
}

/// A directory record, its body, and what the body is.
#[derive(Clone, Debug, PartialEq, Eq)]
pub struct Entry {
    pub record: EntryRecord,
    pub body: SourceBytes,
    pub class: EntryClass,
}

/// Where the body of a record starts, for a directory of mode `mode`.
pub open spec fn body_offset(record: EntryRecord, mode: AddressMode, ctx: ResolveContext) -> u64 {
    entry_target(mode, record.own_mode(), record.pointer(), ctx)
}

/// The body of a record in the input; `None` when it does not lie in there.
/// That of a soft-fuse chain is the record itself.
pub open spec fn body_of(
    record: EntryRecord,
    mode: AddressMode,
    ctx: ResolveContext,
    blob: Window,
) -> Option<Window> {
    let at = body_offset(record, mode, ctx) as int;
    if record.kind().soft_fuse() {
        Some(record.window())
    } else if blob.covers(at, record.body_size() as int) {
        Some(blob.at(at, record.body_size() as int))
    } else {
        None
    }
}

/// Why the body of a record could not be had.
pub open spec fn body_error(
    record: EntryRecord,
    mode: AddressMode,
    ctx: ResolveContext,
    blob: Window,
) -> ParseError {
    let at = body_offset(record, mode, ctx) as int;
    ParseError::Truncated {
        what: "entry body",
        offset: FlashOffset(at as u64),
        expected: record.body_size() as usize,
        available: (if at <= blob.offset {
            blob.bytes.len() as int
        } else if at <= blob.end() {
            blob.end() - at
        } else {
            0
        }) as usize,
    }
}

fn resolve_body(
    blob: &SourceBytes,
    mode: AddressMode,
    ctx: ResolveContext,
    record: &EntryRecord,
) -> (r: Result<SourceBytes, ParseError>)
    ensures
        r is Ok <==> body_of(*record, mode, ctx, blob@) is Some,
        r matches Ok(body) ==> body_of(*record, mode, ctx, blob@) == Some(body@),
        r matches Err(e) ==> e == body_error(*record, mode, ctx, blob@),
{
    if record.entry_type().is_soft_fuse_chain() {
        return Ok(record.source().clone());
    }
    let offset = mode.resolve_with_entry(record.entry_address_mode(), record.offset(), ctx);
    let at: u64 = offset.0;
    let size: usize = record.size() as usize;
    let len: usize = blob.len();
    let start: u64 = blob.offset().0;
    let end: u64 = start + len as u64;
    let available: usize = if at <= start {
        len
    } else if at <= end {
        (end - at) as usize
    } else {
        0
    };
    if at < start || at > end || size as u64 > end - at {
        return Err(ParseError::Truncated { what: "entry body", offset, expected: size, available });
    }
    let local: usize = (at - start) as usize;
    Ok(blob.slice(local, size).unwrap())
}

fn classify(t: EntryType, is_bios: bool, body: &SourceBytes) -> (r: EntryClass)
    ensures
        r.describes(t, is_bios, body@),
{
    if t.is_secondary_directory_pointer() {
        return EntryClass::SecondaryDirectoryPointer;
    }
    if t.is_tertiary_directory_pointer() {
        return EntryClass::TertiaryDirectoryPointer;
    }
    if t.is_soft_fuse_chain() {
        return EntryClass::SoftFuseChain;
    }
    if t.is_pubkey() {
        return match PubkeyEntry::parse(body) {
            Ok(p) => EntryClass::Pubkey(p),
            Err(_) => EntryClass::Plain,
        };
    }
    if t.is_key_store() {
        return match HeaderEntry::parse(body) {
            Ok(h) => EntryClass::KeyStore(h),
            Err(_) => EntryClass::Plain,
        };
    }
    if is_bios && t.0 == 0x66 {
        return EntryClass::Microcode;
    }
    if !t.has_no_header() {
        return match HeaderEntry::parse(body) {
            Ok(h) => EntryClass::Header(h),
            Err(_) => EntryClass::Plain,
        };
    }
    EntryClass::Plain
}

/// What the pointers of a directory are read against.
pub open spec fn entry_context(
    base: int,
    rom_size: RomSize,
    rom_origin: FlashOffset,
) -> ResolveContext {
    ResolveContext { rom_size, directory_base: FlashOffset(base as u64), rom_origin }
}

impl Entry {
    /// Whether this is the entry of `record`, whose directory has the mode
    /// `mode`.
    pub open spec fn resolves(
        self,
        record: EntryRecord,
        mode: AddressMode,
        ctx: ResolveContext,
        blob: Window,
    ) -> bool {
        &&& self.record.same_as(record)
        &&& body_of(record, mode, ctx, blob) == Some(self.body@)
        &&& self.class.describes(record.kind(), record is Bios, self.body@)
    }

    /// The body.
    pub fn get_bytes(&self) -> (r: &SourceBytes)
        ensures
            *r == self.body,
    {
        &self.body
    }

    pub fn entry_type(&self) -> (r: EntryType)
        ensures
            r == self.record.kind(),
    {
        self.record.entry_type()
    }

    fn from_record(
        blob: &SourceBytes,
        mode: AddressMode,
        ctx: ResolveContext,
        record: EntryRecord,
    ) -> (r: Result<Self, ParseError>)
        ensures
            r is Ok <==> body_of(record, mode, ctx, blob@) is Some,
            r matches Ok(entry) ==> entry.record == record && body_of(record, mode, ctx, blob@)
                == Some(entry.body@) && entry.class.describes(
                record.kind(),
                record is Bios,
                entry.body@,
            ),
            r matches Err(e) ==> e == body_error(record, mode, ctx, blob@),
    {
        let is_bios = match record {
            EntryRecord::Psp(_) => false,
            EntryRecord::Bios(_) => true,
        };
        match resolve_body(blob, mode, ctx, &record) {
            Ok(body) => {
                let class = classify(record.entry_type(), is_bios, &body);
                Ok(Entry { record, body, class })
            },
            Err(e) => Err(e),
        }
    }

    /// Parse the entry of record `index` of a PSP directory.
    pub fn parse_psp(
        blob: &SourceBytes,
        parent: &PspDirectory,
        index: usize,
        rom_size: RomSize,
        rom_origin: FlashOffset,
    ) -> (r: Result<Self, ParseError>)
        ensures
            ({
                let mode = directory_mode(parent.header.additional_info);
                let ctx = entry_context(parent.source@.offset, rom_size, rom_origin);
                let record = EntryRecord::Psp(parent.entries@[index as int]);
                if index >= parent.entries@.len() {
                    r == Err::<Entry, ParseError>(
                        ParseError::EntryIndexOutOfRange {
                            offset: FlashOffset(parent.source@.offset as u64),
                            index,
                            count: parent.entries@.len() as usize,
                        },
                    )
                } else if body_of(record, mode, ctx, blob@) is None {
                    r == Err::<Entry, ParseError>(body_error(record, mode, ctx, blob@))
                } else {
                    r matches Ok(entry) && entry.resolves(record, mode, ctx, blob@)
                }
            }),
    {
        let base = parent.source.offset();
        if index >= parent.entries.len() {
            return Err(
                ParseError::EntryIndexOutOfRange {
                    offset: base,
                    index,
                    count: parent.entries.len(),
                },
            );
        }
        let ctx = ResolveContext { rom_size, directory_base: base, rom_origin };
        let record = parent.entries[index].clone();
        Self::from_record(blob, parent.header.address_mode(), ctx, EntryRecord::Psp(record))
    }

    /// Parse the entry of record `index` of a BIOS directory.
    pub fn parse_bios(
        blob: &SourceBytes,
        parent: &BiosDirectory,
        index: usize,
        rom_size: RomSize,
        rom_origin: FlashOffset,
    ) -> (r: Result<Self, ParseError>)
        ensures
            ({
                let mode = directory_mode(parent.header.additional_info);
                let ctx = entry_context(parent.source@.offset, rom_size, rom_origin);
                let record = EntryRecord::Bios(parent.entries@[index as int]);
                if index >= parent.entries@.len() {
                    r == Err::<Entry, ParseError>(
                        ParseError::EntryIndexOutOfRange {
                            offset: FlashOffset(parent.source@.offset as u64),
                            index,
                            count: parent.entries@.len() as usize,
                        },
                    )
                } else if body_of(record, mode, ctx, blob@) is None {
                    r == Err::<Entry, ParseError>(body_error(record, mode, ctx, blob@))
                } else {
                    r matches Ok(entry) && entry.resolves(record, mode, ctx, blob@)
                }
            }),
    {
        let base = parent.source.offset();
        if index >= parent.entries.len() {
            return Err(
                ParseError::EntryIndexOutOfRange {
                    offset: base,
                    index,
                    count: parent.entries.len(),
                },
            );
        }
        let ctx = ResolveContext { rom_size, directory_base: base, rom_origin };
        let record = parent.entries[index].clone();
        Self::from_record(blob, parent.header.address_mode(), ctx, EntryRecord::Bios(record))
    }
}

/// The body of an entry is a part of the input or the record itself.
pub proof fn lemma_body_is_in_input(
    record: EntryRecord,
    mode: AddressMode,
    ctx: ResolveContext,
    blob: Window,
)
    ensures
        body_of(record, mode, ctx, blob) matches Some(body) ==> {
            ||| record.kind().soft_fuse() && body == record.window()
            ||| blob.covers(body.offset, body.bytes.len() as int) && body == blob.at(
                body.offset,
                body.bytes.len() as int,
            ) && body.bytes.len() == record.body_size()
        },
{
}

} // verus!
