//! What stands behind a header: data, plain or packed, and a signature.

use core::ops::Range;
use rsa::RsaPublicKey;
use vstd::prelude::*;

use crate::crypto::{
    aes128_block_plain, aes128_cbc_decrypt, aes128_cbc_plain, aes128_decrypt_block, exponent_of,
    key_fault, le_nat, modulus_of, pss_sha256_valid, pss_sha384_valid, public_key_new,
    verify_pss_sha256, verify_pss_sha384, zlib_decode, zlib_plain,
};
use crate::entry::{HeaderEntry, PubkeyEntry, HEADER_FILE_LEN, PUBKEY_HEADER_LEN};
use crate::source::{copy_of, Window};
use crate::text::{dec, group_text, prefixed_hex, push_dec, push_hex};
use crate::wire::le32;

verus! {

/// How many bytes are searched for the start of a zlib stream.
pub const ZLIB_SEARCH_WINDOW: usize = 0x500;

/// The pairs of bytes that a zlib stream may start with.
pub const ZLIB_MAGICS: [[u8; 2]; 4] = [[0x78, 0xDA], [0x78, 0x9C], [0x78, 0x5E], [0x78, 0x01]];

/// The key that the keys of encrypted bodies are wrapped with.
#[derive(Clone, Copy, Debug, PartialEq, Eq)]
pub enum Ikek {
    Zen,
    /// The key of Zen+ and later.
    ZenPlus,
    /// Any other key.
    Custom([u8; 16]),
}

impl Ikek {
    /// The sixteen bytes of the key.
    pub open spec fn key(self) -> Seq<u8> {
        match self {
            Ikek::Zen => seq![
                0x49u8, 0x1E, 0x40, 0x1A, 0x40, 0x1E, 0xC1, 0xB2, 0x28, 0x46, 0x00, 0xF0, 0x99,
                0xFD, 0xE8, 0x68,
            ],
            Ikek::ZenPlus => seq![
                0x4Cu8, 0x77, 0x63, 0x65, 0x32, 0xFE, 0x4C, 0x6F, 0xD6, 0xB9, 0xD6, 0xD7, 0xB5,
                0x1E, 0xDE, 0x59,
            ],
            Ikek::Custom(b) => b@,
        }
    }

    pub fn bytes(&self) -> (r: [u8; 16])
        ensures
            r@ == self.key(),
    {
        match self {
            Ikek::Zen => {
                let b: [u8; 16] = [
                    0x49, 0x1E, 0x40, 0x1A, 0x40, 0x1E, 0xC1, 0xB2, 0x28, 0x46, 0x00, 0xF0, 0x99,
                    0xFD, 0xE8, 0x68,
                ];
                assert(b@ =~= self.key());
                b
            },
            Ikek::ZenPlus => {
                let b: [u8; 16] = [
                    0x4C, 0x77, 0x63, 0x65, 0x32, 0xFE, 0x4C, 0x6F, 0xD6, 0xB9, 0xD6, 0xD7, 0xB5,
                    0x1E, 0xDE, 0x59,
                ];
                assert(b@ =~= self.key());
                b
            },
            Ikek::Custom(b) => *b,
        }
    }
}

/// Why a body could not be had.
#[derive(Debug)]
pub enum BodyError {
    /// The body is shorter than its header.
    Truncated(usize),
    UnsupportedSignatureType(u32),
    /// There is no room for header and signature.
    BodyTooSmall { body: usize, needed: usize },
    NotEncrypted,
    NotCompressed,
    /// Encrypted data are not made of whole blocks.
    InvalidCipherLength(usize),
    /// No zlib stream was found.
    ZlibMagicMissing { window: usize },
    /// The stream is said to be longer than the data.
    ZlibSizeOutOfRange { size: u64, start: usize, available: usize },
    /// The stream could not be unpacked.
    Zlib(String),
    /// More bytes are said to be signed than there are.
    SignedRegionOutOfRange(usize, usize),
}

/// What a `BodyError` says.
pub enum BodyFault {
    Truncated(usize),
    UnsupportedSignatureType(u32),
    BodyTooSmall { body: usize, needed: usize },
    NotEncrypted,
    NotCompressed,
    InvalidCipherLength(usize),
    ZlibMagicMissing { window: usize },
    ZlibSizeOutOfRange { size: u64, start: usize, available: usize },
    Zlib(Seq<char>),
    SignedRegionOutOfRange(usize, usize),
}

impl View for BodyError {
    type V = BodyFault;

    open spec fn view(&self) -> BodyFault {
        match self {
            BodyError::Truncated(n) => BodyFault::Truncated(*n),
            BodyError::UnsupportedSignatureType(t) => BodyFault::UnsupportedSignatureType(*t),
            BodyError::BodyTooSmall { body, needed } => BodyFault::BodyTooSmall {
                body: *body,
                needed: *needed,
            },
            BodyError::NotEncrypted => BodyFault::NotEncrypted,
            BodyError::NotCompressed => BodyFault::NotCompressed,
            BodyError::InvalidCipherLength(n) => BodyFault::InvalidCipherLength(*n),
            BodyError::ZlibMagicMissing { window } => BodyFault::ZlibMagicMissing {
                window: *window,
            },
            BodyError::ZlibSizeOutOfRange { size, start, available } =>
                BodyFault::ZlibSizeOutOfRange { size: *size, start: *start, available: *available },
            BodyError::Zlib(text) => BodyFault::Zlib(text@),
            BodyError::SignedRegionOutOfRange(signed, available) =>
                BodyFault::SignedRegionOutOfRange(*signed, *available),
        }
    }
}

/// One-line description of a fault.
pub open spec fn body_fault_text(e: BodyFault) -> Seq<char> {
    match e {
        BodyFault::Truncated(n) => "entry body shorter than HeaderFile header (got "@ + (dec(
            n as nat,
        ) + ", expected ≥ 0x100)"@),
        BodyFault::UnsupportedSignatureType(t) => "unsupported signature_type "@ + (dec(t as nat)
            + " (expected 0 = RSA-2048 or 2 = RSA-4096)"@),
        BodyFault::BodyTooSmall { body, needed } => "body too small ("@ + (dec(body as nat) + (
        " bytes) for header + signature ("@ + (dec(needed as nat) + " bytes)"@))),
        BodyFault::NotEncrypted => "entry is not encrypted (is_encrypted == 0)"@,
        BodyFault::NotCompressed => "entry is not compressed (is_compressed == 0)"@,
        BodyFault::InvalidCipherLength(n) => "encrypted data length "@ + (dec(n as nat)
            + " is not a multiple of 16"@),
        BodyFault::ZlibMagicMissing { window } => "no zlib magic in first "@ + (prefixed_hex(
            window as nat,
        ) + " bytes of compressed body"@),
        BodyFault::ZlibSizeOutOfRange { size, start, available } => "zlib_size "@ + (dec(
            size as nat,
        ) + (" extends past data region of "@ + (dec(available as nat) + (" bytes (start="@ + (dec(
            start as nat,
        ) + ")"@))))),
        BodyFault::Zlib(text) => "zlib decompression failed: "@ + text,
        BodyFault::SignedRegionOutOfRange(signed, available) => "size_signed "@ + (dec(
            signed as nat,
        ) + (" exceeds available signed body length "@ + dec(available as nat))),
    }
}

impl BodyError {
    pub fn push_text(&self, out: &mut String)
        ensures
            final(out)@ == old(out)@ + body_fault_text(self@),
    {
        broadcast use group_text;

        match self {
            BodyError::Truncated(n) => {
                out.append("entry body shorter than HeaderFile header (got ");
                push_dec(*n as u64, out);
                out.append(", expected ≥ 0x100)");
            },
            BodyError::UnsupportedSignatureType(t) => {
                out.append("unsupported signature_type ");
                push_dec(*t as u64, out);
                out.append(" (expected 0 = RSA-2048 or 2 = RSA-4096)");
            },
            BodyError::BodyTooSmall { body, needed } => {
                out.append("body too small (");
                push_dec(*body as u64, out);
                out.append(" bytes) for header + signature (");
                push_dec(*needed as u64, out);
                out.append(" bytes)");
            },
            BodyError::NotEncrypted => {
                out.append("entry is not encrypted (is_encrypted == 0)");
            },
            BodyError::NotCompressed => {
                out.append("entry is not compressed (is_compressed == 0)");
            },
            BodyError::InvalidCipherLength(n) => {
                out.append("encrypted data length ");
                push_dec(*n as u64, out);
                out.append(" is not a multiple of 16");
            },
            BodyError::ZlibMagicMissing { window } => {
                out.append("no zlib magic in first ");
                out.append("0x");
                push_hex(*window as u64, out);
                out.append(" bytes of compressed body");
            },
            BodyError::ZlibSizeOutOfRange { size, start, available } => {
                out.append("zlib_size ");
                push_dec(*size, out);
                out.append(" extends past data region of ");
                push_dec(*available as u64, out);
                out.append(" bytes (start=");
                push_dec(*start as u64, out);
                out.append(")");
            },
            BodyError::Zlib(text) => {
                out.append("zlib decompression failed: ");
                out.append(text.as_str());
            },
            BodyError::SignedRegionOutOfRange(signed, available) => {
                out.append("size_signed ");
                push_dec(*signed as u64, out);
                out.append(" exceeds available signed body length ");
                push_dec(*available as u64, out);
            },
        }
    }

    pub fn text(&self) -> (r: String)
        ensures
            r@ == body_fault_text(self@),
    {
        broadcast use group_text;

        let mut out = String::new();
        self.push_text(&mut out);
        out
    }
}

/// Why a signature was not accepted.
#[derive(Debug)]
pub enum VerifyError {
    Body(BodyError),
    /// The public key is too short for its numbers.
    PubkeyTruncated { have: usize, need: usize },
    UnsupportedKeyWidth { pubexp: u32, modulus: u32 },
    /// The key is not as wide as the type of signature asks for.
    KeySizeMismatch { sig_type: u32, modulus: u32, needed: u32 },
    /// The numbers do not make a public key.
    InvalidPublicKey(String),
    InvalidSignature,
    /// The signature is not one of these bytes with this key.
    BadSignature,
}

/// What a `VerifyError` says.
pub enum VerifyFault {
    Body(BodyFault),
    PubkeyTruncated { have: usize, need: usize },
    UnsupportedKeyWidth { pubexp: u32, modulus: u32 },
    KeySizeMismatch { sig_type: u32, modulus: u32, needed: u32 },
    InvalidPublicKey(Seq<char>),
    InvalidSignature,
    BadSignature,
}

impl View for VerifyError {
    type V = VerifyFault;

    open spec fn view(&self) -> VerifyFault {
        match self {
            VerifyError::Body(e) => VerifyFault::Body(e@),
            VerifyError::PubkeyTruncated { have, need } => VerifyFault::PubkeyTruncated {
                have: *have,
                need: *need,
            },
            VerifyError::UnsupportedKeyWidth { pubexp, modulus } =>
                VerifyFault::UnsupportedKeyWidth { pubexp: *pubexp, modulus: *modulus },
            VerifyError::KeySizeMismatch { sig_type, modulus, needed } =>
                VerifyFault::KeySizeMismatch {
                sig_type: *sig_type,
                modulus: *modulus,
                needed: *needed,
            },
            VerifyError::InvalidPublicKey(text) => VerifyFault::InvalidPublicKey(text@),
            VerifyError::InvalidSignature => VerifyFault::InvalidSignature,
            VerifyError::BadSignature => VerifyFault::BadSignature,
        }
    }
}

/// One-line description of a fault.
pub open spec fn verify_fault_text(e: VerifyFault) -> Seq<char> {
    match e {
        VerifyFault::Body(fault) => body_fault_text(fault),
        VerifyFault::PubkeyTruncated { have, need } => "pubkey body too short: have "@ + (dec(
            have as nat,
        ) + (", need ≥ "@ + dec(need as nat))),
        VerifyFault::UnsupportedKeyWidth { pubexp, modulus } =>
            "unsupported pubkey bit-width: pubexp="@ + (dec(pubexp as nat) + (", modulus="@ + dec(
            modulus as nat,
        ))),
        VerifyFault::KeySizeMismatch { sig_type, modulus, needed } => "signature_type "@ + (dec(
            sig_type as nat,
        ) + (" requires modulus "@ + (dec(needed as nat) + (" bits, but pubkey has "@ + (dec(
            modulus as nat,
        ) + " bits"@))))),
        VerifyFault::InvalidPublicKey(text) => "invalid RSA public key: "@ + text,
        VerifyFault::InvalidSignature => "invalid signature bytes"@,
        VerifyFault::BadSignature => "signature verification failed"@,
    }
}

impl VerifyError {
    pub fn text(&self) -> (r: String)
        ensures
            r@ == verify_fault_text(self@),
    {
        broadcast use group_text;

        let mut out = String::new();
        match self {
            VerifyError::Body(e) => {
                e.push_text(&mut out);
            },
            VerifyError::PubkeyTruncated { have, need } => {
                out.append("pubkey body too short: have ");
                push_dec(*have as u64, &mut out);
                out.append(", need ≥ ");
                push_dec(*need as u64, &mut out);
            },
            VerifyError::UnsupportedKeyWidth { pubexp, modulus } => {
                out.append("unsupported pubkey bit-width: pubexp=");
                push_dec(*pubexp as u64, &mut out);
                out.append(", modulus=");
                push_dec(*modulus as u64, &mut out);
            },
            VerifyError::KeySizeMismatch { sig_type, modulus, needed } => {
                out.append("signature_type ");
                push_dec(*sig_type as u64, &mut out);
                out.append(" requires modulus ");
                push_dec(*needed as u64, &mut out);
                out.append(" bits, but pubkey has ");
                push_dec(*modulus as u64, &mut out);
                out.append(" bits");
            },
            VerifyError::InvalidPublicKey(text) => {
                out.append("invalid RSA public key: ");
                out.append(text.as_str());
            },
            VerifyError::InvalidSignature => {
                out.append("invalid signature bytes");
            },
            VerifyError::BadSignature => {
                out.append("signature verification failed");
            },
        }
        out
    }
}

/// Whether a zlib stream may start at index `i`.
pub open spec fn zlib_tag_at(s: Seq<u8>, i: int) -> bool {
    &&& 0 <= i
    &&& i + 2 <= s.len()
    &&& s[i] == 0x78
    &&& s[i + 1] == 0xDA || s[i + 1] == 0x9C || s[i + 1] == 0x5E || s[i + 1] == 0x01
}

/// Whether the stream is taken to start at index `i`: index `0x100` comes
/// first, then the least index of the search window.
pub open spec fn zlib_starts_at(s: Seq<u8>, i: int) -> bool {
    &&& zlib_tag_at(s, i)
    &&& i == 0x100 || (i + 2 <= 0x500 && !zlib_tag_at(s, 0x100) && forall|j: int|
        0 <= j < i ==> !#[trigger] zlib_tag_at(s, j))
}

/// Where the stream is taken to start.
pub open spec fn zlib_start(s: Seq<u8>) -> Option<int> {
    if exists|i: int| #[trigger] zlib_starts_at(s, i) {
        Some(choose|i: int| #[trigger] zlib_starts_at(s, i))
    } else {
        None
    }
}

/// Find where the zlib stream in `plaintext` starts.
pub fn find_zlib_start(plaintext: &[u8]) -> (r: Result<usize, BodyError>)
    ensures
        match r {
            Ok(i) => zlib_start(plaintext@) == Some(i as int) && i + 2 <= plaintext@.len(),
            Err(e) => zlib_start(plaintext@) is None && e@ == (BodyFault::ZlibMagicMissing {
                window: 0x500,
            }),
        },
{
    let len: usize = plaintext.len();
    if len >= 0x102 && is_zlib_tag(plaintext[0x100], plaintext[0x101]) {
        proof {
            assert(zlib_starts_at(plaintext@, 0x100));
            assert forall|i: int| #[trigger] zlib_starts_at(plaintext@, i) implies i == 0x100 by {}
        }
        return Ok(0x100);
    }
    assert(!zlib_tag_at(plaintext@, 0x100));
    let window: usize = if len < ZLIB_SEARCH_WINDOW {
        len
    } else {
        ZLIB_SEARCH_WINDOW
    };
    let mut i: usize = 0;
    while i + 2 <= window
        invariant
            window <= 0x500,
            window <= plaintext@.len(),
            i <= window,
            !zlib_tag_at(plaintext@, 0x100),
            forall|j: int| 0 <= j < i ==> !#[trigger] zlib_tag_at(plaintext@, j),
        decreases window - i,
    {
        if is_zlib_tag(plaintext[i], plaintext[i + 1]) {
            proof {
                assert(zlib_starts_at(plaintext@, i as int));
                assert forall|k: int| #[trigger] zlib_starts_at(plaintext@, k) implies k == i by {
                    assert(zlib_tag_at(plaintext@, k));
                    assert(zlib_tag_at(plaintext@, i as int));
                }
            }
            return Ok(i);
        }
        assert(!zlib_tag_at(plaintext@, i as int));
        i += 1;
    }
    assert forall|k: int| !#[trigger] zlib_starts_at(plaintext@, k) by {
        if zlib_tag_at(plaintext@, k) && k + 2 <= 0x500 {
            assert(k < i);
        }
    }
    Err(BodyError::ZlibMagicMissing { window: ZLIB_SEARCH_WINDOW })
}

fn is_zlib_tag(first: u8, second: u8) -> (r: bool)
    ensures
        r == (first == 0x78 && (second == 0xDA || second == 0x9C || second == 0x5E || second
            == 0x01)),
{
    let mut i: usize = 0;
    while i < ZLIB_MAGICS.len()
        invariant
            i <= 4,
            forall|j: int| 0 <= j < i ==> !(first == (#[trigger] ZLIB_MAGICS[j])[0] && second == ZLIB_MAGICS[j][1]),
        decreases 4 - i,
    {
        if first == ZLIB_MAGICS[i][0] && second == ZLIB_MAGICS[i][1] {
            return true;
        }
        i += 1;
    }
    assert(ZLIB_MAGICS[0][0] == 0x78 && ZLIB_MAGICS[0][1] == 0xDA);
    assert(ZLIB_MAGICS[1][0] == 0x78 && ZLIB_MAGICS[1][1] == 0x9C);
    assert(ZLIB_MAGICS[2][0] == 0x78 && ZLIB_MAGICS[2][1] == 0x5E);
    assert(ZLIB_MAGICS[3][0] == 0x78 && ZLIB_MAGICS[3][1] == 0x01);
    false
}

/// What follows the zlib decoder: the bytes in front of the stream and what
/// the stream unpacked to, or the decoder's error.
pub fn join_decoded(prefix: &[u8], decoded: Result<Vec<u8>, String>) -> (r: Result<
    Vec<u8>,
    BodyError,
>)
    ensures
        match decoded {
            Ok(plain) => r matches Ok(out) && out@ == prefix@ + plain@,
            Err(text) => r matches Err(e) && e@ == BodyFault::Zlib(text@),
        },
{
    match decoded {
        Ok(plain) => {
            let mut out = copy_of(prefix);
            out.extend_from_slice(plain.as_slice());
            assert(out@ =~= prefix@ + plain@);
            Ok(out)
        },
        Err(text) => Err(BodyError::Zlib(text)),
    }
}

/// What follows the check of a signature.
pub fn verdict(valid: bool) -> (r: Result<(), VerifyError>)
    ensures
        match r {
            Ok(_) => valid,
            Err(e) => !valid && e@ == VerifyFault::BadSignature,
        },
{
    if valid {
        Ok(())
    } else {
        Err(VerifyError::BadSignature)
    }
}

/// The bytes in reverse order.
pub(crate) fn reversed(s: &[u8]) -> (r: Vec<u8>)
    ensures
        r@ == s@.reverse(),
{
    let n: usize = s.len();
    let mut out: Vec<u8> = Vec::new();
    while out.len() < n
        invariant
            n == s@.len(),
            out@.len() <= n,
            forall|i: int| 0 <= i < out@.len() ==> #[trigger] out@[i] == s@[n - 1 - i],
        decreases n - out@.len(),
    {
        let k: usize = out.len();
        out.push(s[n - 1 - k]);
    }
    assert(out@ =~= s@.reverse());
    out
}

/// Whether index `i` of a header belongs to the mark of encryption or to the
/// initialisation vector.
pub open spec fn tells_encryption(i: int) -> bool {
    0x18 <= i < 0x1C || 0x20 <= i < 0x30
}

/// The header of an entry with the mark of encryption and the initialisation
/// vector set to zero.
pub open spec fn cleared_header(body: Seq<u8>) -> Seq<u8> {
    Seq::new(
        0x100,
        |i: int|
            if tells_encryption(i) {
                0u8
            } else {
                body[i]
            },
    )
}

impl HeaderEntry {
    /// Where the data of a body of `len` bytes end, and where the entry ends.
    /// The signature lies in between.
    pub open spec fn bounds(self, len: int) -> Result<(int, int), BodyFault> {
        let end = if self.rom_size == 0 {
            len
        } else {
            self.rom_size as int
        };
        if len < 0x100 {
            Err(BodyFault::Truncated(len as usize))
        } else if end > len {
            Err(BodyFault::BodyTooSmall { body: len as usize, needed: end as usize })
        } else {
            match self.signature_size() {
                None => Err(BodyFault::UnsupportedSignatureType(self.signature_type)),
                Some(n) => if end < 0x100 + n {
                    Err(BodyFault::BodyTooSmall { body: end as usize, needed: (0x100 + n) as usize })
                } else {
                    Ok((end - n, end))
                },
            }
        }
    }

    /// The data between header and signature.
    pub open spec fn data(self, body: Seq<u8>) -> Result<Seq<u8>, BodyFault> {
        match self.bounds(body.len() as int) {
            Ok((data_end, _)) => Ok(body.subrange(0x100, data_end)),
            Err(e) => Err(e),
        }
    }

    /// The signature as stored, least significant byte first.
    pub open spec fn signature(self, body: Seq<u8>) -> Result<Seq<u8>, BodyFault> {
        match self.bounds(body.len() as int) {
            Ok((data_end, end)) => Ok(body.subrange(data_end, end)),
            Err(e) => Err(e),
        }
    }

    /// The data, decrypted under the key that is wrapped with `ikek`.
    pub open spec fn decrypted(self, body: Seq<u8>, ikek: Ikek) -> Result<Seq<u8>, BodyFault> {
        if !self.is_encrypted {
            Err(BodyFault::NotEncrypted)
        } else {
            match self.data(body) {
                Err(e) => Err(e),
                Ok(data) => if data.len() % 16 != 0 {
                    Err(BodyFault::InvalidCipherLength(data.len() as usize))
                } else {
                    Ok(
                        aes128_cbc_plain(
                            aes128_block_plain(ikek.key(), self.wrapped_key@),
                            self.iv@,
                            data,
                        ),
                    )
                },
            }
        }
    }

    /// The entry with its data decrypted: the header without the mark of
    /// encryption and without the initialisation vector, the decrypted data,
    /// and what follows the data, the signature first, as it was.
    pub open spec fn decrypted_file(self, body: Seq<u8>, ikek: Ikek) -> Result<
        Seq<u8>,
        BodyFault,
    > {
        match (self.decrypted(body, ikek), self.bounds(body.len() as int)) {
            (Err(e), _) => Err(e),
            (_, Err(e)) => Err(e),
            (Ok(plain), Ok((data_end, _))) => Ok(
                cleared_header(body) + plain + body.subrange(data_end, body.len() as int),
            ),
        }
    }

    /// What some decrypted data unpack to: the bytes in front of the stream,
    /// then what the stream holds.
    pub open spec fn decompressed(self, plaintext: Seq<u8>) -> Result<Seq<u8>, BodyFault> {
        if !self.is_compressed {
            Err(BodyFault::NotCompressed)
        } else {
            match zlib_start(plaintext) {
                None => Err(BodyFault::ZlibMagicMissing { window: 0x500 }),
                Some(start) => if self.zlib_size > plaintext.len() - start {
                    Err(
                        BodyFault::ZlibSizeOutOfRange {
                            size: self.zlib_size as u64,
                            start: start as usize,
                            available: (plaintext.len() - start) as usize,
                        },
                    )
                } else {
                    match zlib_plain(plaintext.subrange(start, start + self.zlib_size)) {
                        Ok(plain) => Ok(plaintext.subrange(0, start) + plain),
                        Err(text) => Err(BodyFault::Zlib(text)),
                    }
                },
            }
        }
    }

    /// The data, decrypted where they are encrypted and unpacked where they
    /// are compressed.
    pub open spec fn plain(self, body: Seq<u8>, ikek: Option<Ikek>) -> Result<Seq<u8>, BodyFault> {
        let decrypted = if self.is_encrypted {
            match ikek {
                None => Err(BodyFault::NotEncrypted),
                Some(key) => self.decrypted(body, key),
            }
        } else {
            self.data(body)
        };
        match decrypted {
            Err(e) => Err(e),
            Ok(d) => if self.is_compressed {
                self.decompressed(d)
            } else {
                Ok(d)
            },
        }
    }

    /// The bytes that the signature covers: the header, and as much of the
    /// plain body as `size_signed` leaves.
    pub open spec fn signed(self, body: Seq<u8>, ikek: Option<Ikek>) -> Result<
        Seq<u8>,
        BodyFault,
    > {
        if body.len() < 0x100 {
            Err(BodyFault::Truncated(body.len() as usize))
        } else {
            match self.plain(body, ikek) {
                Err(e) => Err(e),
                Ok(plain) => if self.size_signed < 0x100 || self.size_signed - 0x100
                    > plain.len() {
                    Err(
                        BodyFault::SignedRegionOutOfRange(
                            self.size_signed as usize,
                            (if plain.len() + 0x100 > usize::MAX {
                                usize::MAX as nat
                            } else {
                                plain.len() + 0x100
                            }) as usize,
                        ),
                    )
                } else {
                    Ok(body.subrange(0, 0x100) + plain.subrange(0, self.size_signed - 0x100))
                },
            }
        }
    }

    /// The width of modulus that a type of signature asks for.
    pub open spec fn modulus_needed(self) -> Option<u32> {
        if self.signature_type == 0 {
            Some(2048)
        } else if self.signature_type == 2 {
            Some(4096)
        } else {
            None
        }
    }

    /// Whether `signature`, big-endian, is one of `message` for a key: under
    /// SHA-256 for signatures of type 0, under SHA-384 for the others.
    pub open spec fn accepts(
        self,
        modulus: nat,
        exponent: nat,
        message: Seq<u8>,
        signature: Seq<u8>,
    ) -> bool {
        if self.signature_type == 0 {
            pss_sha256_valid(modulus, exponent, message, signature)
        } else {
            pss_sha384_valid(modulus, exponent, message, signature)
        }
    }

    /// What the check of the signature in `body` comes to.
    pub open spec fn verified(
        self,
        body: Seq<u8>,
        pubkey: PubkeyEntry,
        ikek: Option<Ikek>,
    ) -> Result<(), VerifyFault> {
        match self.modulus_needed() {
            None => Err(
                VerifyFault::Body(BodyFault::UnsupportedSignatureType(self.signature_type)),
            ),
            Some(needed) => if pubkey.modulus_bits != needed {
                Err(
                    VerifyFault::KeySizeMismatch {
                        sig_type: self.signature_type,
                        modulus: pubkey.modulus_bits,
                        needed,
                    },
                )
            } else {
                match (self.signed(body, ikek), self.signature(body), pubkey.numbers()) {
                    (Err(e), _, _) => Err(VerifyFault::Body(e)),
                    (_, Err(e), _) => Err(VerifyFault::Body(e)),
                    (_, _, Err(e)) => Err(e),
                    (Ok(message), Ok(signature), Ok((n, e))) => if self.accepts(
                        n,
                        e,
                        message,
                        signature.reverse(),
                    ) {
                        Ok(())
                    } else {
                        Err(VerifyFault::BadSignature)
                    },
                }
            },
        }
    }

    fn effective_bounds(&self, body: &[u8]) -> (r: Result<(usize, usize), BodyError>)
        ensures
            match r {
                Ok((data_end, end)) => self.bounds(body@.len() as int) == Ok::<
                    (int, int),
                    BodyFault,
                >((data_end as int, end as int)) && 0x100 <= data_end <= end <= body@.len(),
                Err(e) => self.bounds(body@.len() as int) == Err::<(int, int), BodyFault>(e@),
            },
    {
        let len: usize = body.len();
        if len < HEADER_FILE_LEN {
            return Err(BodyError::Truncated(len));
        }
        let end: usize = if self.rom_size == 0 {
            len
        } else {
            self.rom_size as usize
        };
        if end > len {
            return Err(BodyError::BodyTooSmall { body: len, needed: end });
        }
        match self.signature_len() {
            None => Err(BodyError::UnsupportedSignatureType(self.signature_type)),
            Some(n) => {
                let needed: usize = HEADER_FILE_LEN + n;
                if end < needed {
                    Err(BodyError::BodyTooSmall { body: end, needed })
                } else {
                    Ok((end - n, end))
                }
            },
        }
    }

    /// The data between header and signature, encrypted and compressed as
    /// they are.
    pub fn data_region<'a>(&self, body: &'a [u8]) -> (r: Result<&'a [u8], BodyError>)
        ensures
            match r {
                Ok(data) => self.data(body@) == Ok::<Seq<u8>, BodyFault>(data@),
                Err(e) => self.data(body@) == Err::<Seq<u8>, BodyFault>(e@),
            },
    {
        match self.effective_bounds(body) {
            Ok((data_end, _)) => Ok(&body[HEADER_FILE_LEN..data_end]),
            Err(e) => Err(e),
        }
    }

    /// The signature as stored.
    pub fn signature_bytes<'a>(&self, body: &'a [u8]) -> (r: Result<&'a [u8], BodyError>)
        ensures
            match r {
                Ok(signature) => self.signature(body@) == Ok::<Seq<u8>, BodyFault>(signature@),
                Err(e) => self.signature(body@) == Err::<Seq<u8>, BodyFault>(e@),
            },
    {
        match self.effective_bounds(body) {
            Ok((data_end, end)) => Ok(&body[data_end..end]),
            Err(e) => Err(e),
        }
    }

    /// The data, decrypted.
    pub fn get_decrypted_body(&self, body: &[u8], ikek: Ikek) -> (r: Result<Vec<u8>, BodyError>)
        ensures
            match r {
                Ok(plain) => self.decrypted(body@, ikek) == Ok::<Seq<u8>, BodyFault>(plain@)
                    && self.data(body@)->Ok_0.len() == plain@.len(),
                Err(e) => self.decrypted(body@, ikek) == Err::<Seq<u8>, BodyFault>(e@),
            },
    {
        if !self.is_encrypted {
            return Err(BodyError::NotEncrypted);
        }
        match self.data_region(body) {
            Err(e) => Err(e),
            Ok(data) => {
                if data.len() % 16 != 0 {
                    return Err(BodyError::InvalidCipherLength(data.len()));
                }
                let entry_key = aes128_decrypt_block(&ikek.bytes(), &self.wrapped_key);
                Ok(aes128_cbc_decrypt(&entry_key, &self.iv, data))
            },
        }
    }

    /// The entry with its data decrypted, marked as not encrypted.
    pub fn to_decrypted_file_bytes(&self, body: &[u8], ikek: Ikek) -> (r: Result<
        Vec<u8>,
        BodyError,
    >)
        ensures
            match r {
                Ok(file) => self.decrypted_file(body@, ikek) == Ok::<Seq<u8>, BodyFault>(file@)
                    && file@.len() == body@.len(),
                Err(e) => self.decrypted_file(body@, ikek) == Err::<Seq<u8>, BodyFault>(e@),
            },
    {
        let plain = match self.get_decrypted_body(body, ikek) {
            Ok(plain) => plain,
            Err(e) => {
                return Err(e);
            },
        };
        let data_end: usize = match self.effective_bounds(body) {
            Ok((data_end, _)) => data_end,
            Err(e) => {
                return Err(e);
            },
        };
        let mut out: Vec<u8> = Vec::new();
        while out.len() < HEADER_FILE_LEN
            invariant
                out@.len() <= 0x100 <= body@.len(),
                out@ == cleared_header(body@).take(out@.len() as int),
            decreases 0x100 - out@.len(),
        {
            let i: usize = out.len();
            let b: u8 = if (0x18 <= i && i < 0x1C) || (0x20 <= i && i < 0x30) {
                0
            } else {
                body[i]
            };
            out.push(b);
            assert(out@ =~= cleared_header(body@).take(i + 1));
        }
        assert(out@ =~= cleared_header(body@));
        out.extend_from_slice(plain.as_slice());
        out.extend_from_slice(&body[data_end..body.len()]);
        assert(out@ =~= cleared_header(body@) + plain@ + body@.subrange(
            data_end as int,
            body@.len() as int,
        ));
        Ok(out)
    }

    /// What decrypted data unpack to.
    pub fn get_decompressed_body(&self, plaintext: &[u8]) -> (r: Result<Vec<u8>, BodyError>)
        ensures
            match r {
                Ok(out) => self.decompressed(plaintext@) == Ok::<Seq<u8>, BodyFault>(out@),
                Err(e) => self.decompressed(plaintext@) == Err::<Seq<u8>, BodyFault>(e@),
            },
    {
        if !self.is_compressed {
            return Err(BodyError::NotCompressed);
        }
        match find_zlib_start(plaintext) {
            Err(e) => Err(e),
            Ok(start) => {
                let size: usize = self.zlib_size as usize;
                let available: usize = plaintext.len() - start;
                if size > available {
                    return Err(
                        BodyError::ZlibSizeOutOfRange {
                            size: self.zlib_size as u64,
                            start,
                            available,
                        },
                    );
                }
                let stream = &plaintext[start..start + size];
                let prefix = &plaintext[0..start];
                join_decoded(prefix, zlib_decode(stream))
            },
        }
    }

    /// The data, decrypted and unpacked as the header says. `ikek` is needed
    /// where the data are encrypted.
    pub fn get_decrypted_decompressed_body(&self, body: &[u8], ikek: Option<Ikek>) -> (r: Result<
        Vec<u8>,
        BodyError,
    >)
        ensures
            match r {
                Ok(plain) => self.plain(body@, ikek) == Ok::<Seq<u8>, BodyFault>(plain@),
                Err(e) => self.plain(body@, ikek) == Err::<Seq<u8>, BodyFault>(e@),
            },
    {
        let decrypted: Vec<u8> = if self.is_encrypted {
            match ikek {
                None => {
                    return Err(BodyError::NotEncrypted);
                },
                Some(key) => match self.get_decrypted_body(body, key) {
                    Ok(d) => d,
                    Err(e) => {
                        return Err(e);
                    },
                },
            }
        } else {
            match self.data_region(body) {
                Ok(d) => copy_of(d),
                Err(e) => {
                    return Err(e);
                },
            }
        };
        if self.is_compressed {
            self.get_decompressed_body(decrypted.as_slice())
        } else {
            Ok(decrypted)
        }
    }

    /// The bytes that the signature covers.
    pub fn get_signed_bytes(&self, body: &[u8], ikek: Option<Ikek>) -> (r: Result<
        Vec<u8>,
        BodyError,
    >)
        ensures
            match r {
                Ok(message) => {
                    &&& self.signed(body@, ikek) == Ok::<Seq<u8>, BodyFault>(message@)
                    &&& self.plain(body@, ikek) matches Ok(plain)
                    &&& message@.len() == self.size_signed
                    &&& message@.subrange(0, 0x100) == body@.subrange(0, 0x100)
                    &&& forall|j: int|
                        0 <= j < self.size_signed - 0x100 ==> #[trigger] message@[0x100 + j]
                            == plain[j]
                },
                Err(e) => self.signed(body@, ikek) == Err::<Seq<u8>, BodyFault>(e@),
            },
    {
        if body.len() < HEADER_FILE_LEN {
            return Err(BodyError::Truncated(body.len()));
        }
        let plain = match self.get_decrypted_decompressed_body(body, ikek) {
            Ok(p) => p,
            Err(e) => {
                return Err(e);
            },
        };
        let size_signed: usize = self.size_signed as usize;
        if size_signed < HEADER_FILE_LEN || size_signed - HEADER_FILE_LEN > plain.len() {
            let available: usize = plain.len().saturating_add(HEADER_FILE_LEN);
            return Err(BodyError::SignedRegionOutOfRange(size_signed, available));
        }
        let mut out = copy_of(&body[0..HEADER_FILE_LEN]);
        out.extend_from_slice(&plain.as_slice()[0..size_signed - HEADER_FILE_LEN]);
        assert(out@ =~= body@.subrange(0, 0x100) + plain@.subrange(0, self.size_signed - 0x100));
        assert(out@.subrange(0, 0x100) =~= body@.subrange(0, 0x100));
        Ok(out)
    }

    /// Check the signature in `body` with a public key.
    pub fn verify_signature(
        &self,
        body: &[u8],
        pubkey: &PubkeyEntry,
        ikek: Option<Ikek>,
    ) -> (r: Result<(), VerifyError>)
        ensures
            match r {
                Ok(_) => self.verified(body@, *pubkey, ikek) is Ok,
                Err(e) => self.verified(body@, *pubkey, ikek) == Err::<(), VerifyFault>(e@),
            },
    {
        let needed: u32 = match self.signature_type {
            0 => 2048,
            2 => 4096,
            other => {
                return Err(VerifyError::Body(BodyError::UnsupportedSignatureType(other)));
            },
        };
        if pubkey.modulus_bits != needed {
            return Err(
                VerifyError::KeySizeMismatch {
                    sig_type: self.signature_type,
                    modulus: pubkey.modulus_bits,
                    needed,
                },
            );
        }
        let message = match self.get_signed_bytes(body, ikek) {
            Ok(m) => m,
            Err(e) => {
                return Err(VerifyError::Body(e));
            },
        };
        let signature = match self.signature_bytes(body) {
            Ok(s) => reversed(s),
            Err(e) => {
                return Err(VerifyError::Body(e));
            },
        };
        let key = match pubkey.rsa_public_key() {
            Ok(k) => k,
            Err(e) => {
                return Err(e);
            },
        };
        let valid = if self.signature_type == 0 {
            verify_pss_sha256(&key, message.as_slice(), signature.as_slice())
        } else {
            verify_pss_sha384(&key, message.as_slice(), signature.as_slice())
        };
        verdict(valid)
    }
}

impl PubkeyEntry {
    /// Where the exponent ends, in the bytes of the key.
    pub open spec fn exponent_end(self) -> int {
        0x40 + self.pubexp_bits as int / 8
    }

    /// Where the modulus ends, in the bytes of the key.
    pub open spec fn modulus_end(self) -> int {
        self.exponent_end() + self.modulus_bits as int / 8
    }

    /// The exponent as stored, least significant byte first.
    pub open spec fn exponent(self) -> Result<Seq<u8>, VerifyFault> {
        let b = self.source@.bytes;
        if self.exponent_end() <= b.len() {
            Ok(b.subrange(0x40, self.exponent_end()))
        } else {
            Err(
                VerifyFault::PubkeyTruncated {
                    have: b.len() as usize,
                    need: self.exponent_end() as usize,
                },
            )
        }
    }

    /// The modulus as stored, least significant byte first.
    pub open spec fn modulus(self) -> Result<Seq<u8>, VerifyFault> {
        let b = self.source@.bytes;
        if self.modulus_end() <= b.len() {
            Ok(b.subrange(self.exponent_end(), self.modulus_end()))
        } else {
            Err(
                VerifyFault::PubkeyTruncated {
                    have: b.len() as usize,
                    need: self.modulus_end() as usize,
                },
            )
        }
    }

    /// Modulus and exponent of the key, when they make one.
    pub open spec fn numbers(self) -> Result<(nat, nat), VerifyFault> {
        if self.modulus_bits != 2048 && self.modulus_bits != 4096 {
            Err(
                VerifyFault::UnsupportedKeyWidth {
                    pubexp: self.pubexp_bits,
                    modulus: self.modulus_bits,
                },
            )
        } else {
            match (self.exponent(), self.modulus()) {
                (Err(fault), _) => Err(fault),
                (_, Err(fault)) => Err(fault),
                (Ok(e), Ok(n)) => match key_fault(le_nat(n), le_nat(e)) {
                    Some(text) => Err(VerifyFault::InvalidPublicKey(text)),
                    None => Ok((le_nat(n), le_nat(e))),
                },
            }
        }
    }

    fn pubexp_range(&self) -> (r: Range<usize>)
        ensures
            r.start == 0x40,
            r.end == self.exponent_end(),
    {
        Range { start: PUBKEY_HEADER_LEN, end: PUBKEY_HEADER_LEN + self.pubexp_size() }
    }

    fn modulus_range(&self) -> (r: Range<usize>)
        ensures
            r.start == self.exponent_end(),
            r.end == self.modulus_end(),
    {
        let start: usize = PUBKEY_HEADER_LEN + self.pubexp_size();
        Range { start, end: start + self.modulus_size() }
    }

    pub fn pubexp_bytes(&self) -> (r: Result<&[u8], VerifyError>)
        ensures
            match r {
                Ok(e) => self.exponent() == Ok::<Seq<u8>, VerifyFault>(e@),
                Err(fault) => self.exponent() == Err::<Seq<u8>, VerifyFault>(fault@),
            },
    {
        let range = self.pubexp_range();
        let bytes = self.source.as_bytes();
        if range.end > bytes.len() {
            return Err(VerifyError::PubkeyTruncated { have: bytes.len(), need: range.end });
        }
        Ok(&bytes[range.start..range.end])
    }

    pub fn modulus_bytes(&self) -> (r: Result<&[u8], VerifyError>)
        ensures
            match r {
                Ok(n) => self.modulus() == Ok::<Seq<u8>, VerifyFault>(n@),
                Err(fault) => self.modulus() == Err::<Seq<u8>, VerifyFault>(fault@),
            },
    {
        let range = self.modulus_range();
        let bytes = self.source.as_bytes();
        if range.end > bytes.len() {
            return Err(VerifyError::PubkeyTruncated { have: bytes.len(), need: range.end });
        }
        Ok(&bytes[range.start..range.end])
    }

    /// The key itself.
    pub fn rsa_public_key(&self) -> (r: Result<RsaPublicKey, VerifyError>)
        ensures
            match r {
                Ok(key) => self.numbers() == Ok::<(nat, nat), VerifyFault>(
                    (modulus_of(key), exponent_of(key)),
                ) && key_fault(modulus_of(key), exponent_of(key)) is None,
                Err(fault) => self.numbers() == Err::<(nat, nat), VerifyFault>(fault@),
            },
    {
        if self.modulus_bits != 2048 && self.modulus_bits != 4096 {
            return Err(
                VerifyError::UnsupportedKeyWidth {
                    pubexp: self.pubexp_bits,
                    modulus: self.modulus_bits,
                },
            );
        }
        let exponent = match self.pubexp_bytes() {
            Ok(e) => e,
            Err(fault) => {
                return Err(fault);
            },
        };
        let modulus = match self.modulus_bytes() {
            Ok(n) => n,
            Err(fault) => {
                return Err(fault);
            },
        };
        match public_key_new(modulus, exponent) {
            Ok(key) => Ok(key),
            Err(text) => Err(VerifyError::InvalidPublicKey(text)),
        }
    }
}

/// Header, data and signature make up the entry, in this order.
pub proof fn lemma_regions_make_the_entry(header: HeaderEntry, body: Seq<u8>)
    requires
        header.bounds(body.len() as int) is Ok,
    ensures
        ({
            let end = header.bounds(body.len() as int)->Ok_0.1;
            body.subrange(0, end) == body.subrange(0, 0x100) + header.data(body)->Ok_0
                + header.signature(body)->Ok_0
        }),
{
    let (data_end, end) = header.bounds(body.len() as int)->Ok_0;
    assert(body.subrange(0, end) =~= body.subrange(0, 0x100) + header.data(body)->Ok_0
        + header.signature(body)->Ok_0);
}

/// An entry that was written out decrypted is read as one that is not
/// encrypted: its data are the decrypted data, and its signature is that of
/// the entry.
pub proof fn lemma_decrypted_file_reads_back(
    header: HeaderEntry,
    body: Seq<u8>,
    ikek: Ikek,
    file: Seq<u8>,
    again: HeaderEntry,
)
    requires
        header.decodes(Window { bytes: body, offset: 0 }),
        header.decrypted_file(body, ikek) == Ok::<Seq<u8>, BodyFault>(file),
        file.len() == body.len(),
        again.decodes(Window { bytes: file, offset: 0 }),
    ensures
        !again.is_encrypted,
        forall|i: int| 0 <= i < 16 ==> #[trigger] again.iv@[i] == 0,
        again.data(file) == header.decrypted(body, ikek),
        again.signature(file) == header.signature(body),
        again.is_compressed == header.is_compressed,
        again.size_signed == header.size_signed,
        again.signature_fingerprint@ == header.signature_fingerprint@,
{
    let plain = header.decrypted(body, ikek)->Ok_0;
    let (data_end, end) = header.bounds(body.len() as int)->Ok_0;
    assert(forall|i: int| 0 <= i < 0x100 ==> #[trigger] file[i] == cleared_header(body)[i]);
    assert(le32(file, 0x18) == 0);
    assert(le32(file, 0x14) == le32(body, 0x14));
    assert(le32(file, 0x34) == le32(body, 0x34));
    assert(le32(file, 0x48) == le32(body, 0x48));
    assert(le32(file, 0x6C) == le32(body, 0x6C));
    assert(file.subrange(0x38, 0x48) =~= body.subrange(0x38, 0x48));
    assert forall|i: int| 0 <= i < 16 implies #[trigger] again.iv@[i] == 0 by {
        assert(again.iv@[i] == file.subrange(0x20, 0x30)[i]);
    }
    assert(again.bounds(file.len() as int) == header.bounds(body.len() as int));
    assert(file.subrange(0x100, data_end) =~= plain);
    assert(file.subrange(data_end, end) =~= body.subrange(data_end, end));
}

/// What is signed does not rest on the signature, nor on what lies behind the
/// entry.
pub proof fn lemma_signed_ignores_signature(
    header: HeaderEntry,
    a: Seq<u8>,
    b: Seq<u8>,
    ikek: Option<Ikek>,
)
    requires
        a.len() == b.len(),
        header.bounds(a.len() as int) matches Ok((data_end, _)) ==> a.subrange(0, data_end)
            == b.subrange(0, data_end),
    ensures
        header.signed(a, ikek) == header.signed(b, ikek),
{
    if let Ok((data_end, _)) = header.bounds(a.len() as int) {
        let x = a.subrange(0, data_end);
        let y = b.subrange(0, data_end);
        assert(a.subrange(0x100, data_end) =~= x.subrange(0x100, data_end));
        assert(b.subrange(0x100, data_end) =~= y.subrange(0x100, data_end));
        assert(a.subrange(0, 0x100) =~= x.subrange(0, 0x100));
        assert(b.subrange(0, 0x100) =~= y.subrange(0, 0x100));
    }
}

/// Where the data of a body of `len` bytes end by the numbers in its header: the
/// size in the ROM, or the length where that is zero, less the signature.
pub open spec fn data_limit(header: HeaderEntry, len: int) -> int {
    (if header.rom_size == 0 {
        len
    } else {
        header.rom_size as int
    }) - (if header.signature_type == 0 {
        0x100int
    } else {
        0x200int
    })
}

/// Header, data and signature of an entry lie one behind the other. The
/// signature has 256 bytes for type 0 and 512 for type 2, and ends where the
/// entry does.
pub proof fn lemma_layout(header: HeaderEntry, body: Seq<u8>)
    ensures
        header.data(body) is Ok <==> {
            &&& header.signature_type == 0 || header.signature_type == 2
            &&& body.len() >= 0x100
            &&& header.rom_size <= body.len()
            &&& data_limit(header, body.len() as int) >= 0x100
        },
        header.signature(body) is Ok <==> header.data(body) is Ok,
        header.data(body) matches Ok(data) ==> {
            let limit = data_limit(header, body.len() as int);
            &&& data.len() == limit - 0x100
            &&& forall|j: int| 0 <= j < data.len() ==> #[trigger] data[j] == body[0x100 + j]
        },
        header.signature(body) matches Ok(signature) ==> {
            let limit = data_limit(header, body.len() as int);
            &&& signature.len() == (if header.signature_type == 0 {
                0x100int
            } else {
                0x200int
            })
            &&& forall|j: int|
                0 <= j < signature.len() ==> #[trigger] signature[j] == body[limit + j]
        },
{
}

/// What a signature covers is as long as the header says, whether or not the
/// data are encrypted or compressed: the header, then the plain data as they
/// come. Data that are neither encrypted nor compressed are covered as they
/// stand, so padding behind the signed size is not.
pub proof fn lemma_signed_bytes(
    header: HeaderEntry,
    body: Seq<u8>,
    ikek: Option<Ikek>,
    message: Seq<u8>,
)
    requires
        header.signed(body, ikek) == Ok::<Seq<u8>, BodyFault>(message),
    ensures
        message.len() == header.size_signed,
        header.size_signed >= 0x100,
        forall|j: int| 0 <= j < 0x100 ==> #[trigger] message[j] == body[j],
        header.plain(body, ikek) matches Ok(plain) && forall|j: int|
            0 <= j < message.len() - 0x100 ==> #[trigger] message[0x100 + j] == plain[j],
        !header.is_encrypted && !header.is_compressed ==> message == body.subrange(
            0,
            header.size_signed as int,
        ),
{
    if !header.is_encrypted && !header.is_compressed {
        assert(message =~= body.subrange(0, header.size_signed as int));
    }
}

/// There are signed bytes exactly when there are plain data and the signed size
/// lies between the header and their end.
pub proof fn lemma_signed_bytes_exist(header: HeaderEntry, body: Seq<u8>, ikek: Option<Ikek>)
    ensures
        header.signed(body, ikek) is Ok <==> {
            &&& body.len() >= 0x100
            &&& header.plain(body, ikek) matches Ok(plain)
            &&& 0x100 <= header.size_signed <= 0x100 + plain.len()
        },
{
}

/// Plain data are the data themselves, decrypted first where the header says
/// that they are encrypted, and unpacked then where it says that they are
/// compressed. Without a key encrypted data stay closed.
pub proof fn lemma_plain_data(header: HeaderEntry, body: Seq<u8>, ikek: Option<Ikek>)
    ensures
        !header.is_encrypted && !header.is_compressed ==> header.plain(body, ikek) == header.data(
            body,
        ),
        !header.is_encrypted && header.is_compressed ==> (header.data(body) matches Ok(data)
            ==> header.plain(body, ikek) == header.decompressed(data)),
        header.is_encrypted && ikek is None ==> header.plain(body, ikek) is Err,
        header.is_encrypted && !header.is_compressed ==> (ikek matches Some(key) ==> header.plain(
            body,
            ikek,
        ) == header.decrypted(body, key)),
        header.is_encrypted && header.is_compressed ==> (ikek matches Some(key) ==> (
        header.decrypted(body, key) matches Ok(data) ==> header.plain(body, ikek)
            == header.decompressed(data))),
{
}

/// Encrypted data of whole blocks are decrypted in CBC mode, with the vector in
/// the header, under the key in the header as the wrapping key opens it.
pub proof fn lemma_decrypted_data(header: HeaderEntry, body: Seq<u8>, ikek: Ikek)
    ensures
        header.decrypted(body, ikek) is Ok <==> header.is_encrypted && header.data(body) is Ok
            && header.data(body)->Ok_0.len() % 16 == 0,
        header.decrypted(body, ikek) matches Ok(plain) ==> plain == aes128_cbc_plain(
            aes128_block_plain(ikek.key(), header.wrapped_key@),
            header.iv@,
            header.data(body)->Ok_0,
        ),
{
}

/// Compressed data unpack to what stands in front of the zlib stream and what
/// the stream of the given size holds. A stream at `0x100` counts first, then
/// the first one in the search window.
pub proof fn lemma_unpacked_data(header: HeaderEntry, data: Seq<u8>, start: int)
    requires
        zlib_tag_at(data, start),
        start == 0x100 || (start + 2 <= 0x500 && !zlib_tag_at(data, 0x100) && forall|j: int|
            0 <= j < start ==> !#[trigger] zlib_tag_at(data, j)),
    ensures
        header.decompressed(data) is Ok <==> {
            &&& header.is_compressed
            &&& start + header.zlib_size <= data.len()
            &&& zlib_plain(data.subrange(start, start + header.zlib_size)) is Ok
        },
        header.decompressed(data) matches Ok(plain) ==> plain == data.subrange(0, start)
            + zlib_plain(data.subrange(start, start + header.zlib_size))->Ok_0,
{
    assert(zlib_starts_at(data, start));
    assert forall|k: int| #[trigger] zlib_starts_at(data, k) implies k == start by {
        assert(zlib_tag_at(data, k));
        if k != 0x100 && start != 0x100 {
            assert(zlib_tag_at(data, start));
        }
    }
}

/// A signature is accepted exactly when it is one of the signed bytes for the
/// two numbers of the key, read with the least significant byte first: under
/// SHA-256 with a key of 2048 bits for type 0, under SHA-384 with one of 4096
/// bits for type 2, and for no other type.
pub proof fn lemma_accepted_signatures(
    header: HeaderEntry,
    body: Seq<u8>,
    key: PubkeyEntry,
    ikek: Option<Ikek>,
)
    ensures
        header.verified(body, key, ikek) is Ok <==> {
            let b = key.source@.bytes;
            let exponent_end = 0x40 + key.pubexp_bits as int / 8;
            let modulus_end = exponent_end + key.modulus_bits as int / 8;
            let e = le_nat(b.subrange(0x40, exponent_end));
            let n = le_nat(b.subrange(exponent_end, modulus_end));
            &&& modulus_end <= b.len()
            &&& key_fault(n, e) is None
            &&& header.signed(body, ikek) matches Ok(message)
            &&& header.signature(body) matches Ok(signature)
            &&& {
                ||| header.signature_type == 0 && key.modulus_bits == 2048 && pss_sha256_valid(
                    n,
                    e,
                    message,
                    signature.reverse(),
                )
                ||| header.signature_type == 2 && key.modulus_bits == 4096 && pss_sha384_valid(
                    n,
                    e,
                    message,
                    signature.reverse(),
                )
            }
        },
{
}

/// Data in which no zlib stream starts, neither at `0x100` nor in the search
/// window, and data that the header does not call compressed, do not unpack.
pub proof fn lemma_nothing_to_unpack(header: HeaderEntry, data: Seq<u8>)
    ensures
        !header.is_compressed ==> header.decompressed(data) == Err::<Seq<u8>, BodyFault>(
            BodyFault::NotCompressed,
        ),
        header.is_compressed && !zlib_tag_at(data, 0x100) && (forall|j: int|
            0 <= j <= 0x4FE ==> !#[trigger] zlib_tag_at(data, j)) ==> header.decompressed(data)
            is Err,
{
    if header.is_compressed && !zlib_tag_at(data, 0x100) && (forall|j: int|
        0 <= j <= 0x4FE ==> !#[trigger] zlib_tag_at(data, j)) {
        assert forall|k: int| !#[trigger] zlib_starts_at(data, k) by {
            if zlib_starts_at(data, k) {
                assert(zlib_tag_at(data, k));
            }
        }
    }
}

/// A zlib stream may start with `78` and one of `DA`, `9C`, `5E` and `01`.
pub proof fn lemma_stream_starts(s: Seq<u8>, i: int)
    ensures
        zlib_tag_at(s, i) <==> 0 <= i && i + 1 < s.len() && s[i] == 0x78 && (s[i + 1] == 0xDA || s[i
            + 1] == 0x9C || s[i + 1] == 0x5E || s[i + 1] == 0x01),
{
}

/// A signature counts as bad exactly when all that its check takes is there (a
/// supported type, a key of the width that the type asks for, signed bytes, and two
/// numbers that make a key) and the check fails. A key of another width is reported
/// as such, whatever the body holds.
pub proof fn lemma_bad_signatures(
    header: HeaderEntry,
    body: Seq<u8>,
    key: PubkeyEntry,
    ikek: Option<Ikek>,
)
    ensures
        header.verified(body, key, ikek) == Err::<(), VerifyFault>(VerifyFault::BadSignature) <==> {
            let b = key.source@.bytes;
            let exponent_end = 0x40 + key.pubexp_bits as int / 8;
            let modulus_end = exponent_end + key.modulus_bits as int / 8;
            let e = le_nat(b.subrange(0x40, exponent_end));
            let n = le_nat(b.subrange(exponent_end, modulus_end));
            &&& modulus_end <= b.len()
            &&& key_fault(n, e) is None
            &&& header.signed(body, ikek) matches Ok(message)
            &&& header.signature(body) matches Ok(signature)
            &&& {
                ||| header.signature_type == 0 && key.modulus_bits == 2048 && !pss_sha256_valid(
                    n,
                    e,
                    message,
                    signature.reverse(),
                )
                ||| header.signature_type == 2 && key.modulus_bits == 4096 && !pss_sha384_valid(
                    n,
                    e,
                    message,
                    signature.reverse(),
                )
            }
        },
        (header.verified(body, key, ikek) matches Err(fault) && fault is KeySizeMismatch) <==> {
            ||| header.signature_type == 0 && key.modulus_bits != 2048
            ||| header.signature_type == 2 && key.modulus_bits != 4096
        },
{
}

} // verus!
