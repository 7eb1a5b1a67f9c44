//! Signing an entry anew.

use rand::rngs::StdRng;
use rand::SeedableRng;
use rsa::RsaPrivateKey;
use vstd::prelude::*;

use crate::body::{body_fault_text, reversed, BodyError, BodyFault, Ikek, VerifyFault};
use crate::crypto::{
    bit_length, sign_pss_sha256, sign_pss_sha384, signing_exponent_of, signing_key_bits,
    signing_modulus_of,
};
use crate::entry::{Entry, PubkeyEntry};
use crate::source::Window;
use crate::text::{dec, group_text, push_dec};
use crate::writer::{
    lemma_patch_is_local, patch_error_text, replaced, BlobEditor, Edits, Patch, PatchError,
};

verus! {

/// Why an entry was not signed.
#[derive(Debug)]
pub enum SignError {
    /// The entry has no header.
    NotSignedEntry,
    /// The header announces no signature.
    NotSignedFlag,
    UnsupportedSignatureType(u32),
    /// The key is not as wide as the type of signature asks for.
    KeySizeMismatch { sig_type: u32, got_bits: usize, needed_bits: usize },
    /// The private key gives no signature.
    SigningFailed,
    /// The signature is not as long as the room for it.
    SignatureLengthMismatch { expected: usize, got: usize },
    Body(BodyError),
    Patch(PatchError),
}

/// What a `SignError` says.
pub enum SignFault {
    NotSignedEntry,
    NotSignedFlag,
    UnsupportedSignatureType(u32),
    KeySizeMismatch { sig_type: u32, got_bits: usize, needed_bits: usize },
    SigningFailed,
    SignatureLengthMismatch { expected: usize, got: usize },
    Body(BodyFault),
    Patch(PatchError),
}

impl View for SignError {
    type V = SignFault;

    open spec fn view(&self) -> SignFault {
        match self {
            SignError::NotSignedEntry => SignFault::NotSignedEntry,
            SignError::NotSignedFlag => SignFault::NotSignedFlag,
            SignError::UnsupportedSignatureType(t) => SignFault::UnsupportedSignatureType(*t),
            SignError::KeySizeMismatch { sig_type, got_bits, needed_bits } =>
                SignFault::KeySizeMismatch {
                sig_type: *sig_type,
                got_bits: *got_bits,
                needed_bits: *needed_bits,
            },
            SignError::SigningFailed => SignFault::SigningFailed,
            SignError::SignatureLengthMismatch { expected, got } =>
                SignFault::SignatureLengthMismatch { expected: *expected, got: *got },
            SignError::Body(e) => SignFault::Body(e@),
            SignError::Patch(e) => SignFault::Patch(*e),
        }
    }
}

/// One-line description of a fault.
pub open spec fn sign_fault_text(e: SignFault) -> Seq<char> {
    match e {
        SignFault::NotSignedEntry => "entry is not a HeaderFile-class signed entry"@,
        SignFault::NotSignedFlag =>
            "entry header has is_signed == 0; refusing to write a signature region"@,
        SignFault::UnsupportedSignatureType(t) => "unsupported signature_type "@ + (dec(t as nat)
            + " (expected 0 or 2)"@),
        SignFault::KeySizeMismatch { sig_type, got_bits, needed_bits } =>
            "private-key modulus is "@ + (dec(got_bits as nat) + (" bits, but signature_type "@ + (
        dec(sig_type as nat) + (" requires "@ + dec(needed_bits as nat))))),
        SignFault::SigningFailed => "the private key gives no signature"@,
        SignFault::SignatureLengthMismatch { expected, got } =>
            "signature length mismatch: produced "@ + (dec(got as nat) + (" bytes, expected "@
            + dec(expected as nat))),
        SignFault::Body(fault) => body_fault_text(fault),
        SignFault::Patch(e) => patch_error_text(e),
    }
}

impl SignError {
    pub fn text(&self) -> (r: String)
        ensures
            r@ == sign_fault_text(self@),
    {
        broadcast use group_text;

        let mut out = String::new();
        match self {
            SignError::NotSignedEntry => {
                out.append("entry is not a HeaderFile-class signed entry");
            },
            SignError::NotSignedFlag => {
                out.append("entry header has is_signed == 0; refusing to write a signature region");
            },
            SignError::UnsupportedSignatureType(t) => {
                out.append("unsupported signature_type ");
                push_dec(*t as u64, &mut out);
                out.append(" (expected 0 or 2)");
            },
            SignError::KeySizeMismatch { sig_type, got_bits, needed_bits } => {
                out.append("private-key modulus is ");
                push_dec(*got_bits as u64, &mut out);
                out.append(" bits, but signature_type ");
                push_dec(*sig_type as u64, &mut out);
                out.append(" requires ");
                push_dec(*needed_bits as u64, &mut out);
            },
            SignError::SigningFailed => {
                out.append("the private key gives no signature");
            },
            SignError::SignatureLengthMismatch { expected, got } => {
                out.append("signature length mismatch: produced ");
                push_dec(*got as u64, &mut out);
                out.append(" bytes, expected ");
                push_dec(*expected as u64, &mut out);
            },
            SignError::Body(e) => {
                e.push_text(&mut out);
            },
            SignError::Patch(e) => {
                let text = e.text();
                out.append(text.as_str());
            },
        }
        out
    }
}

/// The message that is to be signed for `entry` with a key of `key_bits` bits,
/// or why there is none.
pub open spec fn request(entry: Entry, key_bits: nat, ikek: Option<Ikek>) -> Result<
    Seq<u8>,
    SignFault,
> {
    match entry.class.head() {
        None => Err(SignFault::NotSignedEntry),
        Some(header) => if header.signed_raw == 0 {
            Err(SignFault::NotSignedFlag)
        } else {
            match header.modulus_needed() {
                None => Err(SignFault::UnsupportedSignatureType(header.signature_type)),
                Some(needed) => if key_bits != needed {
                    Err(
                        SignFault::KeySizeMismatch {
                            sig_type: header.signature_type,
                            got_bits: key_bits as usize,
                            needed_bits: needed as usize,
                        },
                    )
                } else {
                    match header.signed(entry.body@.bytes, ikek) {
                        Ok(message) => Ok(message),
                        Err(e) => Err(SignFault::Body(e)),
                    }
                },
            }
        },
    }
}

/// Whether `entry` has a header and room for a signature behind its data.
pub open spec fn signable(entry: Entry) -> bool {
    entry.class.head() matches Some(header) && header.bounds(entry.body@.bytes.len() as int) is Ok
}

/// Where the signature of an entry stands, with the bytes that are there.
pub open spec fn signature_window(entry: Entry) -> Window {
    let (data_end, end) = entry.class.head()->Some_0.bounds(
        entry.body@.bytes.len() as int,
    )->Ok_0;
    entry.body@.part(data_end, end)
}

/// What follows from a request to store a signature, big-endian, in an entry.
pub open spec fn placed(
    before: Edits,
    after: Edits,
    entry: Entry,
    signature: Seq<u8>,
    r: Result<(), SignError>,
) -> bool {
    let room = signature_window(entry);
    if signature.len() != room.bytes.len() {
        r matches Err(e) && e@ == (SignFault::SignatureLengthMismatch {
            expected: room.bytes.len() as usize,
            got: signature.len() as usize,
        }) && after == before
    } else {
        match r {
            Ok(_) => replaced(before, after, room, signature.reverse(), Ok(())),
            Err(SignError::Patch(e)) => replaced(
                before,
                after,
                room,
                signature.reverse(),
                Err(e),
            ),
            _ => false,
        }
    }
}

/// The message that is to be signed for `entry` with a key of `key_bits` bits.
pub fn signing_request(entry: &Entry, key_bits: usize, ikek: Option<Ikek>) -> (r: Result<
    Vec<u8>,
    SignError,
>)
    ensures
        match r {
            Ok(message) => request(*entry, key_bits as nat, ikek) == Ok::<Seq<u8>, SignFault>(
                message@,
            ),
            Err(e) => request(*entry, key_bits as nat, ikek) == Err::<Seq<u8>, SignFault>(e@),
        },
{
    let header = match entry.class.header() {
        Some(h) => h,
        None => {
            return Err(SignError::NotSignedEntry);
        },
    };
    if !header.is_signed() {
        return Err(SignError::NotSignedFlag);
    }
    let needed_bits: usize = match header.signature_type {
        0 => 2048,
        2 => 4096,
        other => {
            return Err(SignError::UnsupportedSignatureType(other));
        },
    };
    if key_bits != needed_bits {
        return Err(
            SignError::KeySizeMismatch {
                sig_type: header.signature_type,
                got_bits: key_bits,
                needed_bits,
            },
        );
    }
    match header.get_signed_bytes(entry.body.as_bytes(), ikek) {
        Ok(message) => Ok(message),
        Err(e) => Err(SignError::Body(e)),
    }
}

/// Store a signature, big-endian, in an entry.
pub fn place_signature(editor: &mut BlobEditor, entry: &Entry, signature: &[u8]) -> (r: Result<
    (),
    SignError,
>)
    requires
        signable(*entry),
    ensures
        final(editor)@.ordered(),
        placed(old(editor)@, final(editor)@, *entry, signature@, r),
{
    let header = entry.class.header().unwrap();
    let len: usize = entry.body.len();
    let end: usize = if header.rom_size == 0 {
        len
    } else {
        header.rom_size as usize
    };
    let sig_len: usize = header.signature_len().unwrap();
    let room = entry.body.slice(end - sig_len, sig_len).unwrap();
    assert(room@ == signature_window(*entry));
    if signature.len() != sig_len {
        proof {
            use_type_invariant(&*editor);
        }
        return Err(
            SignError::SignatureLengthMismatch { expected: sig_len, got: signature.len() },
        );
    }
    match editor.patch_source(&room, reversed(signature)) {
        Ok(_) => Ok(()),
        Err(e) => Err(SignError::Patch(e)),
    }
}

/// A generator seeded from `rand::thread_rng`, by
/// `rand::SeedableRng::from_rng`. Nothing is stated of what it yields.
#[verifier::external_body]
fn fresh_rng() -> (r: StdRng) {
    StdRng::from_rng(rand::thread_rng()).unwrap()
}

/// Sign `entry` anew with a private key and record the signature in `editor`.
/// Only the bytes of the signature change; a refusal changes nothing.
pub fn sign_entry(
    editor: &mut BlobEditor,
    entry: &Entry,
    priv_key: &RsaPrivateKey,
    ikek: Option<Ikek>,
) -> (r: Result<(), SignError>)
    ensures
        final(editor)@.ordered(),
        signed_anew(old(editor)@, final(editor)@, *entry, *priv_key, ikek, r),
{
    let mut rng = fresh_rng();
    sign_entry_with_rng(editor, entry, priv_key, ikek, &mut rng)
}

/// What follows from a request to sign an entry anew. Which of the valid
/// signatures is stored is left open.
pub open spec fn signed_anew(
    before: Edits,
    after: Edits,
    entry: Entry,
    key: RsaPrivateKey,
    ikek: Option<Ikek>,
    r: Result<(), SignError>,
) -> bool {
    match request(entry, bit_length(signing_modulus_of(key)), ikek) {
        Err(fault) => r matches Err(e) && e@ == fault && after == before,
        Ok(message) => {
            ||| r matches Err(e) && e@ == SignFault::SigningFailed && after == before
            ||| exists|signature: Seq<u8>|
                #![trigger placed(before, after, entry, signature, r)]
                entry.class.head()->Some_0.accepts(
                    signing_modulus_of(key),
                    signing_exponent_of(key),
                    message,
                    signature,
                ) && signature.len() == signature_window(entry).bytes.len() && placed(
                    before,
                    after,
                    entry,
                    signature,
                    r,
                )
        },
    }
}

/// An entry that may be signed has room for a signature of its type.
pub proof fn lemma_request_is_signable(entry: Entry, key_bits: nat, ikek: Option<Ikek>)
    requires
        request(entry, key_bits, ikek) is Ok,
    ensures
        signable(entry),
        signature_window(entry).bytes.len() == entry.class.head()->Some_0.signature_size()->Some_0,
{
    let header = entry.class.head()->Some_0;
    assert(header.signed(entry.body@.bytes, ikek) is Ok);
    assert(header.plain(entry.body@.bytes, ikek) is Ok);
    assert(header.data(entry.body@.bytes) is Ok);
}

/// As `sign_entry`, with a generator of the caller's.
pub fn sign_entry_with_rng(
    editor: &mut BlobEditor,
    entry: &Entry,
    priv_key: &RsaPrivateKey,
    ikek: Option<Ikek>,
    rng: &mut StdRng,
) -> (r: Result<(), SignError>)
    ensures
        final(editor)@.ordered(),
        signed_anew(old(editor)@, final(editor)@, *entry, *priv_key, ikek, r),
{
    let key_bits: usize = signing_key_bits(priv_key);
    proof {
        use_type_invariant(&*editor);
    }
    let message = match signing_request(entry, key_bits, ikek) {
        Ok(m) => m,
        Err(e) => {
            return Err(e);
        },
    };
    proof {
        lemma_request_is_signable(*entry, key_bits as nat, ikek);
    }
    let header = entry.class.header().unwrap();
    let signature = if header.signature_type == 0 {
        sign_pss_sha256(priv_key, rng, message.as_slice())
    } else {
        sign_pss_sha384(priv_key, rng, message.as_slice())
    };
    match signature {
        None => Err(SignError::SigningFailed),
        Some(s) => {
            let ghost before = editor@;
            let r = place_signature(editor, entry, s.as_slice());
            assert(placed(before, editor@, *entry, s@, r));
            r
        },
    }
}

/// An image after an entry was signed anew differs from the image before in
/// the signature of the entry alone.
pub proof fn lemma_signing_is_local(
    before: Edits,
    after: Edits,
    entry: Entry,
    signature: Seq<u8>,
    r: Result<(), SignError>,
    old_image: Seq<u8>,
    new_image: Seq<u8>,
)
    requires
        signable(entry),
        signature.len() == signature_window(entry).bytes.len(),
        placed(before, after, entry, signature, r),
        r is Ok,
        before.renders(old_image),
        after.renders(new_image),
    ensures
        new_image.len() == old_image.len(),
        forall|i: int|
            0 <= i < new_image.len() && !(signature_window(entry).offset <= before.original.offset
                + i < signature_window(entry).end()) ==> #[trigger] new_image[i] == old_image[i],
        before.original.covers(
            signature_window(entry).offset,
            signature_window(entry).bytes.len() as int,
        ),
        new_image.subrange(
            signature_window(entry).offset - before.original.offset,
            signature_window(entry).end() - before.original.offset,
        ) == signature.reverse(),
{
    let room = signature_window(entry);
    let patch = Patch { at: room.offset, bytes: signature.reverse() };
    assert(signature.len() > 0);
    assert(before.extended(after, patch));
    lemma_patch_is_local(before, after, patch, old_image, new_image);
    assert(new_image.subrange(
        room.offset - before.original.offset,
        room.end() - before.original.offset,
    ) =~= signature.reverse());
}

/// Signing an entry anew leaves its header as it was.
pub proof fn lemma_signing_keeps_header(
    before: Edits,
    after: Edits,
    entry: Entry,
    key: RsaPrivateKey,
    ikek: Option<Ikek>,
    r: Result<(), SignError>,
    old_image: Seq<u8>,
    new_image: Seq<u8>,
)
    requires
        signed_anew(before, after, entry, key, ikek, r),
        r is Ok,
        before.renders(old_image),
        after.renders(new_image),
        before.original.covers(entry.body@.offset, entry.body@.bytes.len() as int),
    ensures
        entry.class.head() is Some,
        entry.class.head()->Some_0.signed_raw != 0,
        entry.body@.bytes.len() >= 0x100,
        new_image.len() == old_image.len(),
        forall|i: int|
            0 <= i < 0x100 ==> #[trigger] new_image[entry.body@.offset - before.original.offset + i]
                == old_image[entry.body@.offset - before.original.offset + i],
{
    let header = entry.class.head()->Some_0;
    let bits = bit_length(signing_modulus_of(key));
    let message = request(entry, bits, ikek)->Ok_0;
    lemma_request_is_signable(entry, bits, ikek);
    let signature = choose|signature: Seq<u8>|
        #![trigger placed(before, after, entry, signature, r)]
        header.accepts(
            signing_modulus_of(key),
            signing_exponent_of(key),
            message,
            signature,
        ) && signature.len() == signature_window(entry).bytes.len() && placed(
            before,
            after,
            entry,
            signature,
            r,
        );
    lemma_signing_is_local(before, after, entry, signature, r, old_image, new_image);
    let start = entry.body@.offset - before.original.offset;
    assert forall|i: int| 0 <= i < 0x100 implies #[trigger] new_image[start + i] == old_image[start
        + i] by {
        assert(signature_window(entry).offset >= entry.body@.offset + 0x100);
    }
}

/// What was signed anew verifies: where the body of the entry stands in the
/// image unchanged, and a public key has the numbers of the private key, the
/// signature in the new image is accepted with that public key.
pub proof fn lemma_signed_entry_verifies(
    before: Edits,
    after: Edits,
    entry: Entry,
    key: RsaPrivateKey,
    ikek: Option<Ikek>,
    r: Result<(), SignError>,
    pubkey: PubkeyEntry,
    old_image: Seq<u8>,
    new_image: Seq<u8>,
)
    requires
        signed_anew(before, after, entry, key, ikek, r),
        r is Ok,
        before.renders(old_image),
        after.renders(new_image),
        before.original.covers(entry.body@.offset, entry.body@.bytes.len() as int),
        old_image.subrange(
            entry.body@.offset - before.original.offset,
            entry.body@.end() - before.original.offset,
        ) == entry.body@.bytes,
        pubkey.modulus_bits == bit_length(signing_modulus_of(key)),
        pubkey.numbers() == Ok::<(nat, nat), VerifyFault>(
            (signing_modulus_of(key), signing_exponent_of(key)),
        ),
    ensures
        entry.class.head() is Some,
        entry.class.head()->Some_0.verified(
            new_image.subrange(
                entry.body@.offset - before.original.offset,
                entry.body@.end() - before.original.offset,
            ),
            pubkey,
            ikek,
        ) == Ok::<(), VerifyFault>(()),
{
    let header = entry.class.head()->Some_0;
    let body = entry.body@.bytes;
    let start = entry.body@.offset - before.original.offset;
    let new_body = new_image.subrange(start, start + body.len());
    let bits = bit_length(signing_modulus_of(key));
    let message = request(entry, bits, ikek)->Ok_0;
    lemma_request_is_signable(entry, bits, ikek);
    let signature = choose|signature: Seq<u8>|
        #![trigger placed(before, after, entry, signature, r)]
        header.accepts(
            signing_modulus_of(key),
            signing_exponent_of(key),
            message,
            signature,
        ) && signature.len() == signature_window(entry).bytes.len() && placed(
            before,
            after,
            entry,
            signature,
            r,
        );
    lemma_signing_is_local(before, after, entry, signature, r, old_image, new_image);
    let (data_end, end) = header.bounds(body.len() as int)->Ok_0;
    let room = signature_window(entry);
    assert(room.offset == entry.body@.offset + data_end);
    assert(room.end() == entry.body@.offset + end);
    assert forall|i: int| 0 <= i < data_end implies body[i] == new_body[i] by {
        assert(old_image.subrange(start, start + body.len())[i] == old_image[start + i]);
        assert(new_image[start + i] == old_image[start + i]);
    }
    assert(body.subrange(0, data_end) =~= new_body.subrange(0, data_end));
    crate::body::lemma_signed_ignores_signature(header, body, new_body, ikek);
    assert(new_body.subrange(data_end, end) =~= new_image.subrange(start + data_end, start + end));
    assert(header.signature(new_body) == Ok::<Seq<u8>, BodyFault>(signature.reverse()));
    assert(signature.reverse().reverse() =~= signature);
}

/// What may be signed: an entry with a header whose mark of a signature is set, of
/// type 0 with a key of 2048 bits or of type 2 with one of 4096 bits. What is
/// signed then are the bytes that a signature covers.
pub proof fn lemma_what_is_signed(entry: Entry, key_bits: nat, ikek: Option<Ikek>)
    ensures
        request(entry, key_bits, ikek) is Ok <==> {
            &&& entry.class.head() matches Some(header)
            &&& header.signed_raw != 0
            &&& (header.signature_type == 0 && key_bits == 2048) || (header.signature_type == 2
                && key_bits == 4096)
            &&& header.signed(entry.body@.bytes, ikek) is Ok
        },
        request(entry, key_bits, ikek) matches Ok(message) ==> entry.class.head()->Some_0.signed(
            entry.body@.bytes,
            ikek,
        ) == Ok::<Seq<u8>, crate::body::BodyFault>(message),
        request(entry, key_bits, ikek) == Err::<Seq<u8>, SignFault>(SignFault::NotSignedEntry)
            <==> !(entry.class is Header || entry.class is KeyStore),
        request(entry, key_bits, ikek) == Err::<Seq<u8>, SignFault>(SignFault::NotSignedFlag)
            <==> (entry.class.head() matches Some(header) && header.signed_raw == 0),
{
}

/// A signature goes to the end of its entry, least significant byte first: for a
/// signature of type 0 the last 256 bytes, for one of type 2 the last 512, of the
/// size in the ROM or, where that is zero, of the body.
pub proof fn lemma_where_a_signature_goes(entry: Entry)
    requires
        signable(entry),
    ensures
        ({
            let header = entry.class.head()->Some_0;
            let room = signature_window(entry);
            let end = entry.body@.offset + (if header.rom_size == 0 {
                entry.body@.bytes.len() as int
            } else {
                header.rom_size as int
            });
            &&& header.signature_type == 0 || header.signature_type == 2
            &&& room.bytes.len() == (if header.signature_type == 0 {
                0x100int
            } else {
                0x200int
            })
            &&& room.offset + room.bytes.len() == end
            &&& room.offset >= entry.body@.offset + 0x100
            &&& end <= entry.body@.offset + entry.body@.bytes.len()
        }),
{
}

} // verus!
