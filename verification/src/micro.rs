//! Small examples of the structures of an image.

use vstd::prelude::*;

use crate::fletcher::{checksum, fletcher32};
use crate::wire::{le32_bytes, write_le32};

verus! {

/// `n` bytes of the value `b`.
pub open spec fn filled(b: u8, n: nat) -> Seq<u8> {
    Seq::new(n, |i: int| b)
}

/// `n` bytes that count up from `start` and wrap around.
pub open spec fn counting(start: u8, n: nat) -> Seq<u8> {
    Seq::new(n, |i: int| ((start + i) % 256) as u8)
}

fn push_filled(b: u8, n: usize, out: &mut Vec<u8>)
    ensures
        final(out)@ == old(out)@ + filled(b, n as nat),
{
    let mut i: usize = 0;
    assert(out@ =~= old(out)@ + filled(b, 0));
    while i < n
        invariant
            i <= n,
            out@ == old(out)@ + filled(b, i as nat),
        decreases n - i,
    {
        out.push(b);
        i += 1;
        assert(out@ =~= old(out)@ + filled(b, i as nat));
    }
}

fn push_counting(start: u8, n: usize, out: &mut Vec<u8>)
    requires
        start + n <= u32::MAX,
    ensures
        final(out)@ == old(out)@ + counting(start, n as nat),
{
    let mut i: usize = 0;
    assert(out@ =~= old(out)@ + counting(start, 0));
    while i < n
        invariant
            i <= n,
            start + n <= u32::MAX,
            out@ == old(out)@ + counting(start, i as nat),
        decreases n - i,
    {
        out.push(((start as u32 + i as u32) % 256) as u8);
        i += 1;
        assert(out@ =~= old(out)@ + counting(start, i as nat));
    }
}

fn push_bytes(bytes: &[u8], out: &mut Vec<u8>)
    ensures
        final(out)@ == old(out)@ + bytes@,
{
    out.extend_from_slice(bytes);
    assert(out@ =~= old(out)@ + bytes@);
}

fn push_le32(v: u32, out: &mut Vec<u8>)
    ensures
        final(out)@ == old(out)@ + le32_bytes(v),
{
    let bytes = write_le32(v);
    push_bytes(bytes.as_slice(), out);
}

/// An entry table with two slots that point nowhere.
pub open spec fn fet_bytes() -> Seq<u8> {
    seq![0xAAu8, 0x55, 0xAA, 0x55] + (le32_bytes(0) + (le32_bytes(0xFFFF_FFFE) + filled(0xFF, 16)))
}

pub fn fet() -> (r: Vec<u8>)
    ensures
        r@ == fet_bytes(),
{
    let mut out: Vec<u8> = vec![0xAA, 0x55, 0xAA, 0x55];
    push_le32(0, &mut out);
    push_le32(0xFFFF_FFFE, &mut out);
    push_filled(0xFF, 16, &mut out);
    assert(out@ =~= fet_bytes());
    out
}

/// A directory: tag, checksum of what follows, the rest of the directory, and
/// the bodies behind it.
pub open spec fn directory_bytes(tag: Seq<u8>, rest: Seq<u8>, bodies: Seq<u8>) -> Seq<u8> {
    tag + (le32_bytes(checksum(rest)) + (rest + bodies))
}

fn build_directory(tag: &[u8], rest: &Vec<u8>, bodies: &[u8]) -> (r: Vec<u8>)
    ensures
        r@ == directory_bytes(tag@, rest@, bodies@),
{
    let mut out: Vec<u8> = Vec::new();
    push_bytes(tag, &mut out);
    push_le32(fletcher32(rest.as_slice()), &mut out);
    push_bytes(rest.as_slice(), &mut out);
    push_bytes(bodies, &mut out);
    assert(out@ =~= directory_bytes(tag@, rest@, bodies@));
    out
}

/// Count, mode and the one record of the example of a PSP directory.
pub open spec fn psp_rest() -> Seq<u8> {
    le32_bytes(1) + (le32_bytes(0x0200_0000) + (seq![0x21u8, 0, 0, 0] + (le32_bytes(0x10) + (
    le32_bytes(0x20) + le32_bytes(0)))))
}

/// The body of the example of a PSP directory.
pub open spec fn psp_body() -> Seq<u8> {
    seq![0x57u8, 0x52, 0x41, 0x50, 0x50, 0x45, 0x44, 0x2D, 0x49, 0x4B, 0x45, 0x4B, 0, 0, 0, 0]
}

/// A PSP directory with one entry and its body, which holds a wrapped key.
pub fn psp_directory() -> (r: Vec<u8>)
    ensures
        r@ == directory_bytes(seq![0x24u8, 0x50, 0x53, 0x50], psp_rest(), psp_body()),
{
    let mut rest: Vec<u8> = Vec::new();
    push_le32(1, &mut rest);
    push_le32(0x0200_0000, &mut rest);
    let record_start: [u8; 4] = [0x21, 0, 0, 0];
    push_bytes(&record_start, &mut rest);
    push_le32(0x10, &mut rest);
    push_le32(0x20, &mut rest);
    push_le32(0, &mut rest);
    assert(record_start@ =~= seq![0x21u8, 0, 0, 0]);
    assert(rest@ =~= psp_rest());
    let tag: [u8; 4] = [0x24, 0x50, 0x53, 0x50];
    let body: [u8; 16] = [
        0x57, 0x52, 0x41, 0x50, 0x50, 0x45, 0x44, 0x2D, 0x49, 0x4B, 0x45, 0x4B, 0, 0, 0, 0,
    ];
    assert(tag@ =~= seq![0x24u8, 0x50, 0x53, 0x50]);
    assert(body@ =~= psp_body());
    build_directory(&tag, &rest, &body)
}

/// Count, mode and the one record of the example of a BIOS directory.
pub open spec fn bhd_rest() -> Seq<u8> {
    le32_bytes(1) + (le32_bytes(0x0200_0000) + (seq![0x62u8, 0, 0, 0] + (le32_bytes(0x10) + (
    le32_bytes(0x28) + (le32_bytes(0) + filled(0xFF, 8))))))
}

/// The body of the example of a BIOS directory.
pub open spec fn bhd_body() -> Seq<u8> {
    seq![0x42u8, 0x48, 0x44, 0x2D, 0x42, 0x4F, 0x44, 0x59, 0, 0, 0, 0, 0, 0, 0, 0]
}

/// A BIOS directory with one entry and its body.
pub fn bhd_directory() -> (r: Vec<u8>)
    ensures
        r@ == directory_bytes(seq![0x24u8, 0x42, 0x48, 0x44], bhd_rest(), bhd_body()),
{
    let mut rest: Vec<u8> = Vec::new();
    push_le32(1, &mut rest);
    push_le32(0x0200_0000, &mut rest);
    let record_start: [u8; 4] = [0x62, 0, 0, 0];
    push_bytes(&record_start, &mut rest);
    push_le32(0x10, &mut rest);
    push_le32(0x28, &mut rest);
    push_le32(0, &mut rest);
    push_filled(0xFF, 8, &mut rest);
    assert(record_start@ =~= seq![0x62u8, 0, 0, 0]);
    assert(rest@ =~= bhd_rest());
    let tag: [u8; 4] = [0x24, 0x42, 0x48, 0x44];
    let body: [u8; 16] = [0x42, 0x48, 0x44, 0x2D, 0x42, 0x4F, 0x44, 0x59, 0, 0, 0, 0, 0, 0, 0, 0];
    assert(tag@ =~= seq![0x24u8, 0x42, 0x48, 0x44]);
    assert(body@ =~= bhd_body());
    build_directory(&tag, &rest, &body)
}

/// Count, look-up mode, reserved block and the one record of the example of a
/// combo directory.
pub open spec fn combo_rest() -> Seq<u8> {
    le32_bytes(1) + (le32_bytes(0) + (filled(0, 16) + (le32_bytes(0) + (le32_bytes(0xBC0B_0500) + (
    le32_bytes(0x1000) + le32_bytes(0))))))
}

/// A combo directory with one record, for the second generation.
pub fn combo_psp() -> (r: Vec<u8>)
    ensures
        r@ == directory_bytes(seq![0x32u8, 0x50, 0x53, 0x50], combo_rest(), Seq::empty()),
{
    let mut rest: Vec<u8> = Vec::new();
    push_le32(1, &mut rest);
    push_le32(0, &mut rest);
    push_filled(0, 16, &mut rest);
    push_le32(0, &mut rest);
    push_le32(0xBC0B_0500, &mut rest);
    push_le32(0x1000, &mut rest);
    push_le32(0, &mut rest);
    assert(rest@ =~= combo_rest());
    let tag: [u8; 4] = [0x32, 0x50, 0x53, 0x50];
    let none: Vec<u8> = Vec::new();
    assert(tag@ =~= seq![0x32u8, 0x50, 0x53, 0x50]);
    assert(none@ =~= Seq::<u8>::empty());
    build_directory(&tag, &rest, none.as_slice())
}

/// The fields of a header that the examples set.
#[derive(Copy, Clone)]
pub struct HeaderBuilder {
    pub is_encrypted: u32,
    pub is_signed: u32,
    pub signature_type: u32,
    pub is_compressed: u32,
    pub rom_size: u32,
    pub size_signed: u32,
    pub size_uncompressed: u32,
    pub zlib_size: u32,
    pub iv: [u8; 16],
    pub wrapped_key: [u8; 16],
}

impl HeaderBuilder {
    /// The `0x100` bytes of a header with these fields.
    pub open spec fn header(self) -> Seq<u8> {
        filled(0, 0x10) + (seq![0x24u8, 0x50, 0x53, 0x31] + (le32_bytes(self.size_signed) + (
        le32_bytes(self.is_encrypted) + (filled(0, 4) + (self.iv@ + (le32_bytes(self.is_signed) + (
        le32_bytes(self.signature_type) + (counting(0xA0, 16) + (le32_bytes(self.is_compressed) + (
        filled(0, 4) + (le32_bytes(self.size_uncompressed) + (le32_bytes(self.zlib_size) + (filled(
            0,
            0x14,
        ) + (le32_bytes(self.rom_size) + (filled(0, 0x10) + (self.wrapped_key@ + filled(
            0,
            0x70,
        )))))))))))))))))
    }

    /// A builder with all fields zero.
    pub fn new() -> (r: Self)
        ensures
            r.is_encrypted == 0,
            r.is_signed == 0,
            r.signature_type == 0,
            r.is_compressed == 0,
            r.rom_size == 0,
            r.size_signed == 0,
            r.size_uncompressed == 0,
            r.zlib_size == 0,
            r.iv@ == filled(0, 16),
            r.wrapped_key@ == filled(0, 16),
    {
        let zeros: [u8; 16] = [0, 0, 0, 0, 0, 0, 0, 0, 0, 0, 0, 0, 0, 0, 0, 0];
        assert(zeros@ =~= filled(0, 16));
        HeaderBuilder {
            is_encrypted: 0,
            is_signed: 0,
            signature_type: 0,
            is_compressed: 0,
            rom_size: 0,
            size_signed: 0,
            size_uncompressed: 0,
            zlib_size: 0,
            iv: zeros,
            wrapped_key: zeros,
        }
    }

    pub fn build(self) -> (r: Vec<u8>)
        ensures
            r@ == self.header(),
            r@.len() == 0x100,
    {
        let mut out: Vec<u8> = Vec::new();
        push_filled(0, 0x10, &mut out);
        let tag: [u8; 4] = [0x24, 0x50, 0x53, 0x31];
        push_bytes(&tag, &mut out);
        push_le32(self.size_signed, &mut out);
        push_le32(self.is_encrypted, &mut out);
        push_filled(0, 4, &mut out);
        push_bytes(&self.iv, &mut out);
        push_le32(self.is_signed, &mut out);
        push_le32(self.signature_type, &mut out);
        push_counting(0xA0, 16, &mut out);
        push_le32(self.is_compressed, &mut out);
        push_filled(0, 4, &mut out);
        push_le32(self.size_uncompressed, &mut out);
        push_le32(self.zlib_size, &mut out);
        push_filled(0, 0x14, &mut out);
        push_le32(self.rom_size, &mut out);
        push_filled(0, 0x10, &mut out);
        push_bytes(&self.wrapped_key, &mut out);
        push_filled(0, 0x70, &mut out);
        assert(tag@ =~= seq![0x24u8, 0x50, 0x53, 0x31]);
        assert(out@ =~= self.header());
        out
    }
}

/// Whether `b` has the fields of the example of a signed body.
pub open spec fn signed_fields(b: HeaderBuilder) -> bool {
    &&& b.is_encrypted == 0
    &&& b.is_signed == 1
    &&& b.signature_type == 0
    &&& b.is_compressed == 0
    &&& b.rom_size == 0x210
    &&& b.size_signed == 0x110
    &&& b.size_uncompressed == 0
    &&& b.zlib_size == 0
    &&& b.iv@ == filled(0, 16)
    &&& b.wrapped_key@ == filled(0, 16)
}

/// The data of the example of a signed body.
pub open spec fn signed_data() -> Seq<u8> {
    seq![
        0x53u8, 0x49, 0x47, 0x4E, 0x45, 0x44, 0x2D, 0x46, 0x49, 0x58, 0x54, 0x55, 0x52, 0x45, 0, 0,
    ]
}

/// A signed body with a header, neither encrypted nor compressed. Its signature
/// is a filler.
pub fn header_signed() -> (r: Vec<u8>)
    ensures
        exists|b: HeaderBuilder| #[trigger]
            signed_fields(b) && r@ == b.header() + (signed_data() + filled(0xBB, 0x100)),
{
    let mut b = HeaderBuilder::new();
    b.is_signed = 1;
    b.rom_size = 0x210;
    b.size_signed = 0x110;
    assert(signed_fields(b));
    let mut out = b.build();
    let data: [u8; 16] = [
        0x53, 0x49, 0x47, 0x4E, 0x45, 0x44, 0x2D, 0x46, 0x49, 0x58, 0x54, 0x55, 0x52, 0x45, 0, 0,
    ];
    assert(data@ =~= signed_data());
    push_bytes(&data, &mut out);
    push_filled(0xBB, 0x100, &mut out);
    assert(out@ =~= b.header() + (signed_data() + filled(0xBB, 0x100)));
    out
}

/// Whether `b` has the fields of the example of an encrypted body.
pub open spec fn encrypted_fields(b: HeaderBuilder) -> bool {
    &&& b.is_encrypted == 1
    &&& b.is_signed == 1
    &&& b.signature_type == 0
    &&& b.is_compressed == 0
    &&& b.rom_size == 0x210
    &&& b.size_signed == 0x110
    &&& b.size_uncompressed == 0
    &&& b.zlib_size == 0
    &&& b.iv@ == counting(0x10, 16)
    &&& b.wrapped_key@ == counting(0xC0, 16)
}

/// A body that its header calls encrypted. Data and signature are fillers.
pub fn header_encrypted() -> (r: Vec<u8>)
    ensures
        exists|b: HeaderBuilder| #[trigger]
            encrypted_fields(b) && r@ == b.header() + (filled(0xDD, 0x10) + filled(0xBB, 0x100)),
{
    let mut b = HeaderBuilder::new();
    b.is_encrypted = 1;
    b.is_signed = 1;
    b.rom_size = 0x210;
    b.size_signed = 0x110;
    b.iv = [
        0x10, 0x11, 0x12, 0x13, 0x14, 0x15, 0x16, 0x17, 0x18, 0x19, 0x1A, 0x1B, 0x1C, 0x1D, 0x1E,
        0x1F,
    ];
    b.wrapped_key = [
        0xC0, 0xC1, 0xC2, 0xC3, 0xC4, 0xC5, 0xC6, 0xC7, 0xC8, 0xC9, 0xCA, 0xCB, 0xCC, 0xCD, 0xCE,
        0xCF,
    ];
    assert(b.iv@ =~= counting(0x10, 16));
    assert(b.wrapped_key@ =~= counting(0xC0, 16));
    assert(encrypted_fields(b));
    let mut out = b.build();
    push_filled(0xDD, 0x10, &mut out);
    push_filled(0xBB, 0x100, &mut out);
    assert(out@ =~= b.header() + (filled(0xDD, 0x10) + filled(0xBB, 0x100)));
    out
}

/// The words `hello, psptool-rs` as a zlib stream.
pub open spec fn packed_words() -> Seq<u8> {
    seq![
        0x78u8, 0x9C, 0xCB, 0x48, 0xCD, 0xC9, 0xC9, 0xD7, 0x51, 0x28, 0x28, 0x2E, 0x28, 0xC9, 0xCF, 0xCF, 0xD1,
        0x2D, 0x2A, 0x06, 0x00, 0x3A, 0x02, 0x06, 0x84,
    ]
}

/// Whether `b` has the fields of the example of a compressed body.
pub open spec fn compressed_fields(b: HeaderBuilder) -> bool {
    &&& b.is_encrypted == 0
    &&& b.is_signed == 1
    &&& b.signature_type == 0
    &&& b.is_compressed == 1
    &&& b.rom_size == 0x219
    &&& b.size_signed == 0x119
    &&& b.size_uncompressed == 17
    &&& b.zlib_size == 25
    &&& b.iv@ == filled(0, 16)
    &&& b.wrapped_key@ == filled(0, 16)
}

/// A compressed body with a header. Its signature is a filler.
pub fn header_compressed() -> (r: Vec<u8>)
    ensures
        exists|b: HeaderBuilder| #[trigger]
            compressed_fields(b) && r@ == b.header() + (packed_words() + filled(0xBB, 0x100)),
{
    let mut b = HeaderBuilder::new();
    b.is_compressed = 1;
    b.is_signed = 1;
    b.rom_size = 0x219;
    b.size_signed = 0x119;
    b.size_uncompressed = 17;
    b.zlib_size = 25;
    assert(compressed_fields(b));
    let mut out = b.build();
    let stream: [u8; 25] = [
        0x78, 0x9C, 0xCB, 0x48, 0xCD, 0xC9, 0xC9, 0xD7, 0x51, 0x28, 0x28, 0x2E, 0x28, 0xC9, 0xCF, 0xCF, 0xD1,
        0x2D, 0x2A, 0x06, 0x00, 0x3A, 0x02, 0x06, 0x84,
    ];
    assert(stream@ =~= packed_words());
    push_bytes(&stream, &mut out);
    push_filled(0xBB, 0x100, &mut out);
    assert(out@ =~= b.header() + (packed_words() + filled(0xBB, 0x100)));
    out
}

/// A public key: version, its identifier, that of the key that certifies it,
/// no usage, two numbers of 2048 bits. The modulus counts up.
pub open spec fn pubkey_bytes() -> Seq<u8> {
    le32_bytes(1) + (counting(0xE0, 16) + (counting(0x70, 16) + (filled(0, 0x14) + (le32_bytes(2048)
        + (le32_bytes(2048) + (le32_bytes(0x1_0001) + (filled(0, 252) + counting(0, 256))))))))
}

pub fn pubkey_v1() -> (r: Vec<u8>)
    ensures
        r@ == pubkey_bytes(),
{
    let mut out: Vec<u8> = Vec::new();
    push_le32(1, &mut out);
    push_counting(0xE0, 16, &mut out);
    push_counting(0x70, 16, &mut out);
    push_filled(0, 0x14, &mut out);
    push_le32(2048, &mut out);
    push_le32(2048, &mut out);
    push_le32(0x1_0001, &mut out);
    push_filled(0, 252, &mut out);
    push_counting(0, 256, &mut out);
    assert(out@ =~= pubkey_bytes());
    out
}

} // verus!
