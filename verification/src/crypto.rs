//! The cryptographic and compression primitives that bodies rely on.

use aes::cipher::block_padding::NoPadding;
use aes::cipher::{BlockDecrypt, BlockDecryptMut, KeyInit, KeyIvInit};
use aes::Aes128;
use flate2::read::ZlibDecoder;
use rsa::pkcs8::{DecodePrivateKey, EncodePublicKey, LineEnding};
use rsa::pss::{Signature, SigningKey, VerifyingKey};
use rsa::signature::{RandomizedSigner, SignatureEncoding, Verifier};
use rsa::traits::PublicKeyParts;
use rsa::{BigUint, RsaPrivateKey, RsaPublicKey};
use sha2::{Sha256, Sha384};
use std::io::Read;
use vstd::prelude::*;

verus! {

/// `rsa::RsaPublicKey`.
#[verifier::external_type_specification]
#[verifier::external_body]
pub struct ExRsaPublicKey(rsa::RsaPublicKey);

/// `rsa::RsaPrivateKey`.
#[verifier::external_type_specification]
#[verifier::external_body]
pub struct ExRsaPrivateKey(rsa::RsaPrivateKey);

/// `rand::rngs::StdRng`, a seedable generator.
#[verifier::external_type_specification]
#[verifier::external_body]
pub struct ExStdRng(rand::rngs::StdRng);

/// The modulus that a public key holds.
pub uninterp spec fn modulus_of(key: rsa::RsaPublicKey) -> nat;

/// The public exponent that a public key holds.
pub uninterp spec fn exponent_of(key: rsa::RsaPublicKey) -> nat;

/// The modulus that a private key holds.
pub uninterp spec fn signing_modulus_of(key: rsa::RsaPrivateKey) -> nat;

/// The public exponent that a private key holds.
pub uninterp spec fn signing_exponent_of(key: rsa::RsaPrivateKey) -> nat;

/// One block of AES-128, decrypted.
pub uninterp spec fn aes128_block_plain(key: Seq<u8>, block: Seq<u8>) -> Seq<u8>;

/// A text of whole blocks, decrypted by AES-128 in CBC mode without padding.
pub uninterp spec fn aes128_cbc_plain(key: Seq<u8>, iv: Seq<u8>, text: Seq<u8>) -> Seq<u8>;

/// What a zlib stream unpacks to, or the text of the error.
pub uninterp spec fn zlib_plain(stream: Seq<u8>) -> Result<Seq<u8>, Seq<char>>;

/// The text of a public key in PEM format, as bytes, or the text of the error.
pub uninterp spec fn public_key_pem(modulus: nat, exponent: nat) -> Result<Seq<u8>, Seq<char>>;

/// The modulus and the public exponent of the private key that a PEM text
/// holds in PKCS#8 form, or the text of the error.
pub uninterp spec fn private_key_in_pem(pem: Seq<char>) -> Result<(nat, nat), Seq<char>>;

/// Whether `signature`, big-endian, is an RSA-PSS signature of `message` under
/// SHA-256 for the given modulus and exponent, with a salt of 32 bytes.
pub uninterp spec fn pss_sha256_valid(
    modulus: nat,
    exponent: nat,
    message: Seq<u8>,
    signature: Seq<u8>,
) -> bool;

/// The same under SHA-384, with a salt of 48 bytes.
pub uninterp spec fn pss_sha384_valid(
    modulus: nat,
    exponent: nat,
    message: Seq<u8>,
    signature: Seq<u8>,
) -> bool;

/// The number whose little-endian bytes are `s`.
pub open spec fn le_nat(s: Seq<u8>) -> nat
    decreases s.len(),
{
    if s.len() == 0 {
        0
    } else {
        s[0] as nat + 256 * le_nat(s.drop_first())
    }
}

/// The number of binary digits of `n`.
pub open spec fn bit_length(n: nat) -> nat
    decreases n,
{
    if n == 0 {
        0
    } else {
        1 + bit_length(n / 2)
    }
}

/// Why `n` and `e` do not make a public key; `None` when they do.
pub open spec fn key_fault(n: nat, e: nat) -> Option<Seq<char>> {
    if bit_length(n) > 4096 {
        Some("modulus too large"@)
    } else if bit_length(e) > 64 {
        Some("public exponent too large"@)
    } else if e >= n || n % 2 == 0 {
        Some("invalid modulus"@)
    } else if e % 2 == 0 {
        Some("invalid exponent"@)
    } else if e < 2 {
        Some("public exponent too small"@)
    } else if e > 0x1_FFFF_FFFF {
        Some("public exponent too large"@)
    } else {
        None
    }
}

/// `aes::cipher::BlockDecrypt::decrypt_block` of `aes::Aes128`: the block that
/// AES-128 decryption makes of `block` under `key`.
#[verifier::external_body]
pub(crate) fn aes128_decrypt_block(key: &[u8; 16], block: &[u8; 16]) -> (r: [u8; 16])
    ensures
        r@ == aes128_block_plain(key@, block@),
{
    let mut plain = (*block).into();
    Aes128::new(key.into()).decrypt_block(&mut plain);
    plain.into()
}

/// `aes::cipher::BlockDecryptMut::decrypt_padded_mut` of `cbc::Decryptor` with
/// `NoPadding`: the text decrypted in CBC mode, which is as long as the text.
/// It fails on a text that is not made of whole blocks.
#[verifier::external_body]
pub(crate) fn aes128_cbc_decrypt(key: &[u8; 16], iv: &[u8; 16], text: &[u8]) -> (r: Vec<u8>)
    requires
        text@.len() % 16 == 0,
    ensures
        r@ == aes128_cbc_plain(key@, iv@, text@),
        r@.len() == text@.len(),
{
    let mut plain = text.to_vec();
    cbc::Decryptor::<Aes128>::new(key.into(), iv.into())
        .decrypt_padded_mut::<NoPadding>(&mut plain)
        .unwrap();
    plain
}

/// `std::io::Read::read_to_end` of `flate2::read::ZlibDecoder`: the bytes that
/// the zlib stream unpacks to, or the text of the error.
#[verifier::external_body]
pub(crate) fn zlib_decode(stream: &[u8]) -> (r: Result<Vec<u8>, String>)
    ensures
        match r {
            Ok(plain) => zlib_plain(stream@) == Ok::<Seq<u8>, Seq<char>>(plain@),
            Err(text) => zlib_plain(stream@) == Err::<Seq<u8>, Seq<char>>(text@),
        },
{
    let mut plain = Vec::new();
    match ZlibDecoder::new(stream).read_to_end(&mut plain) {
        Ok(_) => Ok(plain),
        Err(e) => Err(e.to_string()),
    }
}

/// `rsa::RsaPublicKey::new`: a key with the modulus and the public exponent
/// whose little-endian bytes are given, or the text of the error.
#[verifier::external_body]
pub(crate) fn public_key_new(modulus: &[u8], exponent: &[u8]) -> (r: Result<RsaPublicKey, String>)
    ensures
        match r {
            Ok(key) => key_fault(le_nat(modulus@), le_nat(exponent@)) is None && modulus_of(key)
                == le_nat(modulus@) && exponent_of(key) == le_nat(exponent@),
            Err(text) => key_fault(le_nat(modulus@), le_nat(exponent@)) == Some(text@),
        },
{
    RsaPublicKey::new(BigUint::from_bytes_le(modulus), BigUint::from_bytes_le(exponent))
        .map_err(|e| e.to_string())
}

/// `rsa::pkcs8::EncodePublicKey::to_public_key_pem` with line feeds: the key as
/// a PEM text, or the text of the error.
#[verifier::external_body]
pub(crate) fn encode_pem(key: &RsaPublicKey) -> (r: Result<Vec<u8>, String>)
    ensures
        match r {
            Ok(pem) => public_key_pem(modulus_of(*key), exponent_of(*key)) == Ok::<
                Seq<u8>,
                Seq<char>,
            >(pem@),
            Err(text) => public_key_pem(modulus_of(*key), exponent_of(*key)) == Err::<
                Seq<u8>,
                Seq<char>,
            >(text@),
        },
{
    match key.to_public_key_pem(LineEnding::LF) {
        Ok(pem) => Ok(pem.into_bytes()),
        Err(e) => Err(e.to_string()),
    }
}

/// `rsa::pkcs8::DecodePrivateKey::from_pkcs8_pem`: the private key that the
/// text holds, or the text of the error. The private numbers of the key are
/// left unsaid.
#[verifier::external_body]
pub(crate) fn decode_pem(pem: &str) -> (r: Result<RsaPrivateKey, String>)
    ensures
        match r {
            Ok(key) => private_key_in_pem(pem@) == Ok::<(nat, nat), Seq<char>>(
                (signing_modulus_of(key), signing_exponent_of(key)),
            ),
            Err(text) => private_key_in_pem(pem@) == Err::<(nat, nat), Seq<char>>(text@),
        },
{
    RsaPrivateKey::from_pkcs8_pem(pem).map_err(|e| e.to_string())
}

/// `rsa::signature::Verifier::verify` of `rsa::pss::VerifyingKey<Sha256>`:
/// whether the signature is valid for the key. No length of signature is
/// refused beforehand by `rsa::pss::Signature::try_from`.
#[verifier::external_body]
pub(crate) fn verify_pss_sha256(key: &RsaPublicKey, message: &[u8], signature: &[u8]) -> (r: bool)
    requires
        key_fault(modulus_of(*key), exponent_of(*key)) is None,
    ensures
        r == pss_sha256_valid(modulus_of(*key), exponent_of(*key), message@, signature@),
{
    let key = VerifyingKey::<Sha256>::new(key.clone());
    Signature::try_from(signature).and_then(|s| key.verify(message, &s)).is_ok()
}

/// `rsa::signature::Verifier::verify` of `rsa::pss::VerifyingKey<Sha384>`:
/// whether the signature is valid for the key.
#[verifier::external_body]
pub(crate) fn verify_pss_sha384(key: &RsaPublicKey, message: &[u8], signature: &[u8]) -> (r: bool)
    requires
        key_fault(modulus_of(*key), exponent_of(*key)) is None,
    ensures
        r == pss_sha384_valid(modulus_of(*key), exponent_of(*key), message@, signature@),
{
    let key = VerifyingKey::<Sha384>::new(key.clone());
    Signature::try_from(signature).and_then(|s| key.verify(message, &s)).is_ok()
}

/// `rsa::BigUint::bits` of the modulus of a private key: the number of its
/// binary digits.
#[verifier::external_body]
pub(crate) fn signing_key_bits(key: &RsaPrivateKey) -> (r: usize)
    ensures
        r == bit_length(signing_modulus_of(*key)),
{
    key.n().bits()
}

/// `rsa::signature::RandomizedSigner::try_sign_with_rng` of
/// `rsa::pss::SigningKey<Sha256>`: a signature, big-endian, as long as the
/// modulus, or nothing. A signature is handed out only after it was checked
/// against the public exponent of the key, so it is valid. Which of the valid
/// signatures it is rests on the generator, and whether there is one on the
/// private numbers of the key; neither is stated.
#[verifier::external_body]
pub(crate) fn sign_pss_sha256(
    key: &RsaPrivateKey,
    rng: &mut rand::rngs::StdRng,
    message: &[u8],
) -> (r: Option<Vec<u8>>)
    requires
        bit_length(signing_modulus_of(*key)) > 0,
    ensures
        r matches Some(s) ==> s@.len() == (bit_length(signing_modulus_of(*key)) + 7) / 8
            && pss_sha256_valid(
            signing_modulus_of(*key),
            signing_exponent_of(*key),
            message@,
            s@,
        ),
{
    SigningKey::<Sha256>::new(key.clone())
        .try_sign_with_rng(rng, message)
        .ok()
        .map(|s| s.to_vec())
}

/// `rsa::signature::RandomizedSigner::try_sign_with_rng` of
/// `rsa::pss::SigningKey<Sha384>`: as for SHA-256.
#[verifier::external_body]
pub(crate) fn sign_pss_sha384(
    key: &RsaPrivateKey,
    rng: &mut rand::rngs::StdRng,
    message: &[u8],
) -> (r: Option<Vec<u8>>)
    requires
        bit_length(signing_modulus_of(*key)) > 0,
    ensures
        r matches Some(s) ==> s@.len() == (bit_length(signing_modulus_of(*key)) + 7) / 8
            && pss_sha384_valid(
            signing_modulus_of(*key),
            signing_exponent_of(*key),
            message@,
            s@,
        ),
{
    SigningKey::<Sha384>::new(key.clone())
        .try_sign_with_rng(rng, message)
        .ok()
        .map(|s| s.to_vec())
}

/// A number is zero when all its bytes are.
pub proof fn lemma_le_nat_zero(s: Seq<u8>)
    ensures
        le_nat(s) == 0 <==> forall|i: int| 0 <= i < s.len() ==> #[trigger] s[i] == 0,
    decreases s.len(),
{
    if s.len() > 0 {
        let rest = s.drop_first();
        lemma_le_nat_zero(rest);
        if le_nat(s) == 0 {
            assert forall|i: int| 0 <= i < s.len() implies #[trigger] s[i] == 0 by {
                if i > 0 {
                    assert(rest[i - 1] == s[i]);
                }
            }
        }
        if forall|i: int| 0 <= i < s.len() ==> #[trigger] s[i] == 0 {
            assert forall|i: int| 0 <= i < rest.len() implies #[trigger] rest[i] == 0 by {
                assert(rest[i] == s[i + 1]);
            }
        }
    }
}

/// The bytes of 65537.
pub proof fn lemma_le_nat_f4(s: Seq<u8>)
    ensures
        le_nat(s) == 65537 <==> {
            &&& s.len() >= 3
            &&& s[0] == 1
            &&& s[1] == 0
            &&& s[2] == 1
            &&& forall|i: int| 3 <= i < s.len() ==> #[trigger] s[i] == 0
        },
{
    reveal_with_fuel(le_nat, 4);
    if s.len() > 0 {
        let a = s.drop_first();
        if a.len() > 0 {
            let b = a.drop_first();
            if b.len() > 0 {
                let c = b.drop_first();
                lemma_le_nat_zero(c);
                assert(a[0] == s[1]);
                assert(b[0] == s[2]);
                assert(le_nat(s) == s[0] + 256 * (s[1] + 256 * (s[2] + 256 * le_nat(c))));
                assert forall|i: int| 0 <= i < c.len() implies #[trigger] c[i] == s[i + 3] by {}
                assert(le_nat(s) == s[0] + 256 * s[1] + 65536 * s[2] + 16777216 * le_nat(c));
                if le_nat(s) == 65537 {
                    assert(le_nat(c) == 0);
                    assert forall|i: int| 3 <= i < s.len() implies #[trigger] s[i] == 0 by {
                        assert(c[i - 3] == s[i]);
                    }
                }
            }
        }
    }
}

} // verus!
