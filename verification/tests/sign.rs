use psptool::address::{FlashOffset, RomSize};
use psptool::body::BodyError;
use psptool::directory::Directory;
use psptool::entry::{Entry, EntryClass, PubkeyEntry, HEADER_FILE_LEN};
use psptool::fet::Fet;
use psptool::load::load_priv_key;
use psptool::sign::{place_signature, sign_entry, sign_entry_with_rng, SignError};
use psptool::source::SourceBytes;
use psptool::walk::walk_directories;
use psptool::writer::{BlobEditor, PatchError};
use rand::rngs::StdRng;
use rand::SeedableRng;
use rsa::pkcs8::{DecodePrivateKey, EncodePrivateKey, LineEnding};
use rsa::pss::SigningKey;
use rsa::signature::{RandomizedSigner, SignatureEncoding};
use rsa::traits::PublicKeyParts;
use rsa::{BigUint, RsaPrivateKey, RsaPublicKey};
use sha2::Sha256;

/// On-disk PubkeyFile-shape blob suitable for placement as a `type 0x00`
/// entry body. RSA-2048, no embedded signature.
struct SyntheticPubkey {
    bytes: Vec<u8>,
    key_id: [u8; 16],
}

impl SyntheticPubkey {
    /// Build a `[0x40 header | pubexp(256) | modulus(256)]` PubkeyFile blob
    /// from `pub_key`. The 16-byte `key_id` and `certifying_id` fields are
    /// caller-supplied — set them to whatever a test wants the
    /// chain-of-trust map keyed by.
    fn from_key(pub_key: &RsaPublicKey, key_id: [u8; 16], certifying_id: [u8; 16]) -> Self {
        let mut buf = vec![0u8; 0x40 + 256 + 256];
        buf[0x00..0x04].copy_from_slice(&1u32.to_le_bytes()); // version
        buf[0x04..0x14].copy_from_slice(&key_id);
        buf[0x14..0x24].copy_from_slice(&certifying_id);
        // key_usage = 0 (AMD_CODE_SIGN), security_features = 0
        buf[0x38..0x3C].copy_from_slice(&2048u32.to_le_bytes()); // pubexp_bits
        buf[0x3C..0x40].copy_from_slice(&2048u32.to_le_bytes()); // modulus_bits

        // Pad pubexp / modulus to 256-byte slots, little-endian.
        let mut e_le = pub_key.e().to_bytes_le();
        e_le.resize(256, 0);
        buf[0x40..0x40 + 256].copy_from_slice(&e_le);
        let mut n_le = pub_key.n().to_bytes_le();
        n_le.resize(256, 0);
        buf[0x140..0x140 + 256].copy_from_slice(&n_le);

        Self { bytes: buf, key_id }
    }
}

/// Generate a deterministic RSA-2048 keypair for tests.
///
/// The seed is fixed so that test runs are reproducible.
fn generate_test_keypair() -> (RsaPrivateKey, RsaPublicKey) {
    let mut rng = StdRng::seed_from_u64(0xDEAD_BEEF_C0DE_F00D);
    let priv_key = RsaPrivateKey::new(&mut rng, 2048).expect("generate test 2048-bit RSA key");
    let pub_key = priv_key.to_public_key();
    (priv_key, pub_key)
}

/// Build a complete synthetic ROM containing:
///
/// * FET at offset `0x000` with one pointer to a `$PSP` directory.
/// * `$PSP` directory with two entries: a Pubkey (`type 0x00`) carrying
///   `pubkey`, and a HeaderFile (`type 0x01`) carrying `payload`.
/// * The HeaderFile is signed with `priv_key` over `header || payload`,
///   `signature_fingerprint == pubkey.key_id`.
///
/// `payload` length is padded with zeros to make the body sane (must be
/// non-empty). The HeaderFile uses RSA-2048 (`signature_type = 0`,
/// `sig_len = 0x100`).
///
/// Returns `(rom_bytes, sig_fingerprint_off, header_body_off, sig_region_off)`:
///
/// * `sig_fingerprint_off` — absolute offset of the 16-byte
///   `signature_fingerprint` field inside the HeaderFile (so tests can
///   point it at a different / unknown key).
/// * `header_body_off` — absolute offset of the start of the HeaderFile
///   entry body (its 0x100 header).
/// * `sig_region_off` — absolute offset of the trailing signature region
///   inside the HeaderFile body.
fn build_synthetic_rom_with_signed_entry(
    priv_key: &RsaPrivateKey,
    pubkey: &SyntheticPubkey,
    payload: &[u8],
) -> (Vec<u8>, usize, usize, usize) {
    // Layout (16 MiB ROM, low offsets — masking is identity here):
    //   0x000  FET           (magic + 1 pointer slot + 16-byte terminator = 24 bytes)
    //   0x040  $PSP directory header (0x10) + 2 entries (0x10 each) = 0x30 bytes
    //   0x080  Pubkey body (0x40 + 256 + 256 = 0x240 bytes)
    //   0x300  HeaderFile body (0x100 header + payload_padded + 0x100 sig)
    //
    // We pad payload up to a 16-aligned length.
    let payload_len = payload.len().div_ceil(16) * 16;
    let mut payload_padded = vec![0u8; payload_len];
    payload_padded[..payload.len()].copy_from_slice(payload);

    let pubkey_off = 0x080usize;
    let pubkey_len = pubkey.bytes.len();
    let header_body_off = 0x300usize;
    let header_total_len = HEADER_FILE_LEN + payload_padded.len() + 0x100;

    // Total ROM length — round up to 0x1000 so we have generous headroom.
    let rom_len = ((header_body_off + header_total_len + 0xFFF) & !0xFFF).max(0x1000);
    let mut rom = vec![0u8; rom_len];

    // ---- FET at 0x000 -----------------------------------------------------
    rom[0..4].copy_from_slice(b"\xAA\x55\xAA\x55"); // FET_MAGIC
    // Pointer slot 0 → $PSP directory at 0x040 (PhysicalX86 mode; identity for low offsets).
    rom[4..8].copy_from_slice(&0x0000_0040u32.to_le_bytes());
    // 16-byte terminator at 0x008..0x018.
    rom[8..24].copy_from_slice(&[0xFFu8; 16]);

    // ---- $PSP directory at 0x040 -----------------------------------------
    let dir_off = 0x040usize;
    rom[dir_off..dir_off + 4].copy_from_slice(b"$PSP");
    rom[dir_off + 4..dir_off + 8].copy_from_slice(&0u32.to_le_bytes()); // checksum
    rom[dir_off + 8..dir_off + 0xC].copy_from_slice(&2u32.to_le_bytes()); // count = 2
    // additional_info: v1 (bit 31 = 1), mode bits[25:24] = 01 (FlashOffset)
    // — entry `offset` fields are treated as absolute flash offsets, which
    // matches our hand-laid pubkey/header positions below. FlashOffset does
    // not defer to entry-level mode bits, so `rsv0[31:30]` is ignored here.
    let additional_info: u32 = (1u32 << 31) | (0b01u32 << 24);
    rom[dir_off + 0xC..dir_off + 0x10].copy_from_slice(&additional_info.to_le_bytes());

    // Entry 0: Pubkey (type 0x00).
    let entry0 = dir_off + 0x10;
    rom[entry0] = 0x00; // entry_type = AMD_PUBLIC_KEY
    rom[entry0 + 4..entry0 + 8].copy_from_slice(&(pubkey_len as u32).to_le_bytes());
    rom[entry0 + 8..entry0 + 0xC].copy_from_slice(&(pubkey_off as u32).to_le_bytes());

    // Entry 1: HeaderFile (type 0x01).
    let entry1 = dir_off + 0x20;
    rom[entry1] = 0x01; // entry_type = PSP_FW_BOOT_LOADER
    rom[entry1 + 4..entry1 + 8].copy_from_slice(&(header_total_len as u32).to_le_bytes());
    rom[entry1 + 8..entry1 + 0xC].copy_from_slice(&(header_body_off as u32).to_le_bytes());

    // ---- Pubkey body ------------------------------------------------------
    rom[pubkey_off..pubkey_off + pubkey_len].copy_from_slice(&pubkey.bytes);

    // ---- HeaderFile body --------------------------------------------------
    // Build a 0x100-byte header in-place, then sign over (header || payload).
    let h_off = header_body_off;
    rom[h_off + 0x10..h_off + 0x14].copy_from_slice(b"$PS1");
    let size_signed = (HEADER_FILE_LEN + payload_padded.len()) as u32;
    rom[h_off + 0x14..h_off + 0x18].copy_from_slice(&size_signed.to_le_bytes());
    // is_encrypted = 0
    rom[h_off + 0x30..h_off + 0x34].copy_from_slice(&1u32.to_le_bytes()); // is_signed = 1
    rom[h_off + 0x34..h_off + 0x38].copy_from_slice(&0u32.to_le_bytes()); // signature_type = 0
    // signature_fingerprint: certifying-key id — points at our pubkey.
    rom[h_off + 0x38..h_off + 0x48].copy_from_slice(&pubkey.key_id);
    // is_compressed = 0 (already zero)
    // rom_size = HEADER + payload + sig
    rom[h_off + 0x6C..h_off + 0x70].copy_from_slice(&(header_total_len as u32).to_le_bytes());

    // Place the payload after the header.
    let payload_start = h_off + HEADER_FILE_LEN;
    rom[payload_start..payload_start + payload_padded.len()].copy_from_slice(&payload_padded);

    // Sign (header || payload) with PSS-SHA256.
    let mut signed = Vec::with_capacity(HEADER_FILE_LEN + payload_padded.len());
    signed.extend_from_slice(&rom[h_off..h_off + HEADER_FILE_LEN]);
    signed.extend_from_slice(&payload_padded);

    let mut rng = StdRng::seed_from_u64(0xC0FF_EE00_BABE_FACE);
    let signing_key = SigningKey::<Sha256>::new(priv_key.clone());
    let sig = signing_key.sign_with_rng(&mut rng, &signed);
    let sig_be = sig.to_bytes(); // wire-order, big-endian
    let mut sig_disk = sig_be.to_vec();
    sig_disk.reverse();
    assert_eq!(sig_disk.len(), 0x100);

    let sig_region_off = h_off + HEADER_FILE_LEN + payload_padded.len();
    rom[sig_region_off..sig_region_off + 0x100].copy_from_slice(&sig_disk);

    let sig_fingerprint_off = h_off + 0x38;
    (rom, sig_fingerprint_off, header_body_off, sig_region_off)
}



fn parse_fet(blob: &SourceBytes) -> Fet {
    Fet::parse_at(blob, FlashOffset(0)).expect("FET parse")
}

fn signed_entry_in(blob: &SourceBytes) -> Entry {
    let fet = parse_fet(blob);
    let dirs = walk_directories(blob, &fet, RomSize::MIB_16, FlashOffset(0));
    for dir_ref in dirs {
        if let Directory::Psp(p) = &dir_ref.directory {
            for i in 0..p.entries.len() {
                if let Ok(entry) = Entry::parse_psp(blob, p, i, RomSize::MIB_16, FlashOffset(0)) {
                    if matches!(&entry.class, EntryClass::Header(h) if h.is_signed()) {
                        return entry;
                    }
                }
            }
        }
    }
    panic!("no signed entry in synthetic ROM");
}

#[test]
fn sign_entry_rejects_plain_entry() {
    // Build a synthetic blob with a single Plain entry (no HeaderFile).
    // Reuse the layered ROM from the writer tests — the Type 0x21
    // (WRAPPED_IKEK) entry is Plain.
    let body = vec![0u8; 0x10];
    // Minimal $PSP directory: 1 entry of type 0x21 (Plain), body inside dir.
    let mut buf = vec![0u8; 0x40];
    buf[0..4].copy_from_slice(b"$PSP");
    buf[8..0xC].copy_from_slice(&1u32.to_le_bytes());
    let additional_info: u32 = (1u32 << 31) | (0b10u32 << 24);
    buf[0xC..0x10].copy_from_slice(&additional_info.to_le_bytes());
    // Entry record at +0x10
    buf[0x10] = 0x21; // WRAPPED_IKEK → Plain
    buf[0x14..0x18].copy_from_slice(&(body.len() as u32).to_le_bytes());
    buf[0x18..0x1C].copy_from_slice(&0x20u32.to_le_bytes()); // offset
    let entry_rsv0: u32 = 0b10u32 << 30;
    buf[0x1C..0x20].copy_from_slice(&entry_rsv0.to_le_bytes());
    buf[0x20..0x30].copy_from_slice(&body);
    let blob = SourceBytes::from_blob(buf);
    let dir = match Directory::parse_at(&blob, FlashOffset(0)).unwrap() {
        Directory::Psp(p) => p,
        _ => unreachable!(),
    };
    let entry = Entry::parse_psp(&blob, &dir, 0, RomSize::MIB_16, FlashOffset(0)).unwrap();
    assert!(matches!(entry.class, EntryClass::Plain));

    let (priv_key, _) = generate_test_keypair();
    let mut editor = BlobEditor::from_blob(blob);
    let err = sign_entry(&mut editor, &entry, &priv_key, None).unwrap_err();
    assert!(matches!(err, SignError::NotSignedEntry));
    assert!(editor.is_clean(), "rejected sign must record no patch");
}

#[test]
fn sign_entry_patches_only_signature_region() {
    // Build a synthetic ROM, sign it, then assert the only diff vs. the
    // original blob is the trailing signature region.
    let (priv_key, pub_key) = generate_test_keypair();
    let pk = SyntheticPubkey::from_key(&pub_key, [0xD4; 16], [0xD4; 16]);
    let (rom_bytes, _, _, sig_off) =
        build_synthetic_rom_with_signed_entry(&priv_key, &pk, b"locality-test");
    let original = rom_bytes.clone();
    let blob = SourceBytes::from_blob(rom_bytes);
    let entry = signed_entry_in(&blob);
    let mut editor = BlobEditor::from_blob(blob.clone());
    sign_entry(&mut editor, &entry, &priv_key, None).expect("sign");
    let out = editor.serialize();

    // Only bytes in [sig_off, sig_off + 0x100) may differ from the original.
    for (i, (a, b)) in out.iter().zip(&original).enumerate() {
        if !(sig_off..sig_off + 0x100).contains(&i) {
            assert_eq!(a, b, "byte {i:#06x} differs but is outside sig region");
        }
    }
    // And at least one byte inside the sig region differs (the original
    // was zero-filled above; a fresh PSS signature is overwhelmingly
    // unlikely to be all zeros).
    let any_changed = out[sig_off..sig_off + 0x100]
        .iter()
        .zip(&original[sig_off..sig_off + 0x100])
        .any(|(a, b)| a != b);
    assert!(any_changed, "signing did not change the signature region");
}

/// A 4096-bit key of two known primes; looking for primes of this size takes
/// too long for a test.
fn key_4096() -> RsaPrivateKey {
    let top = BigUint::from(1u32) << 2048usize;
    let p = top.clone() - BigUint::from(1557u32);
    let q = top - BigUint::from(1_942_289u32);
    RsaPrivateKey::from_p_q(p, q, BigUint::from(65537u32)).expect("4096-bit RSA")
}

#[test]
fn sign_entry_rejects_wrong_key_size() {
    // Sign a 2048-bit-typed entry with a 4096-bit key — KeySizeMismatch.
    let (_priv_2048, pub_key) = generate_test_keypair();
    let pk = SyntheticPubkey::from_key(&pub_key, [0xE5; 16], [0xE5; 16]);
    let (rom_bytes, _, _, _) =
        build_synthetic_rom_with_signed_entry(&_priv_2048, &pk, b"wrong-key-size");
    let blob = SourceBytes::from_blob(rom_bytes);
    let entry = signed_entry_in(&blob);

    let priv_4096 = key_4096();
    let mut editor = BlobEditor::from_blob(blob);
    let err = sign_entry(&mut editor, &entry, &priv_4096, None).unwrap_err();
    assert!(
        matches!(err, SignError::KeySizeMismatch { .. }),
        "got {err:?}"
    );
    assert!(editor.is_clean());
}

/// A 2048-bit key of two known primes.
fn key_2048() -> RsaPrivateKey {
    let top = BigUint::from(1u32) << 1024usize;
    let p = top.clone() - BigUint::from(105u32);
    let q = top - BigUint::from(179u32);
    RsaPrivateKey::from_p_q(p, q, BigUint::from(65537u32)).expect("2048-bit RSA")
}

/// A ROM with an entry that is signed with `key_2048`.
fn signed_rom() -> (RsaPrivateKey, Vec<u8>, usize, usize) {
    let key = key_2048();
    let pk = SyntheticPubkey::from_key(&key.to_public_key(), [0x11; 16], [0x11; 16]);
    let (rom, _, body_off, sig_off) = build_synthetic_rom_with_signed_entry(&key, &pk, b"payload");
    (key, rom, body_off, sig_off)
}

#[test]
fn private_key_comes_from_its_pem_text() {
    let key = key_2048();
    let pem = key.to_pkcs8_pem(LineEnding::LF).unwrap();
    let loaded = load_priv_key(&pem).unwrap();
    assert_eq!(loaded.n(), key.n());
    assert_eq!(loaded.e(), key.e());
    assert_eq!(loaded, key);
}

#[test]
fn text_that_holds_no_private_key_is_refused() {
    let text = "-----BEGIN PUBLIC KEY-----\nAAAA\n-----END PUBLIC KEY-----\n";
    let expected = RsaPrivateKey::from_pkcs8_pem(text).unwrap_err().to_string();
    assert_eq!(load_priv_key(text).unwrap_err(), expected);
    assert!(load_priv_key("").is_err());
}

#[test]
fn signed_entry_verifies_with_the_public_key() {
    let (key, mut rom, _, sig_off) = signed_rom();
    for b in &mut rom[sig_off..sig_off + 0x100] {
        *b = 0;
    }
    let blob = SourceBytes::from_blob(rom);
    let entry = signed_entry_in(&blob);
    let mut editor = BlobEditor::from_blob(blob);
    sign_entry(&mut editor, &entry, &key, None).unwrap();
    let image = SourceBytes::from_blob(editor.serialize());
    let entry = signed_entry_in(&image);
    let pk = SyntheticPubkey::from_key(&key.to_public_key(), [0x11; 16], [0x11; 16]);
    let pubkey = PubkeyEntry::parse(&SourceBytes::from_blob(pk.bytes)).unwrap();
    let header = entry.class.header().unwrap();
    header
        .verify_signature(entry.body.as_bytes(), &pubkey, None)
        .unwrap();
}

#[test]
fn same_generator_gives_the_same_signature() {
    let (key, rom, _, _) = signed_rom();
    let blob = SourceBytes::from_blob(rom);
    let entry = signed_entry_in(&blob);
    let sign = |seed: u64| {
        let mut editor = BlobEditor::from_blob(blob.clone());
        let mut rng = StdRng::seed_from_u64(seed);
        sign_entry_with_rng(&mut editor, &entry, &key, None, &mut rng).unwrap();
        editor.serialize()
    };
    assert_eq!(sign(1), sign(1));
    assert_ne!(sign(1), sign(2));
}

#[test]
fn wide_entry_is_signed_and_verifies() {
    let key = key_4096();
    let public = key.to_public_key();
    // A directory with one entry of type 0x01 behind it.
    let mut body = vec![0u8; HEADER_FILE_LEN + 0x10 + 0x200];
    body[0x10..0x14].copy_from_slice(b"$PS1");
    body[0x14..0x18].copy_from_slice(&0x110u32.to_le_bytes());
    body[0x30..0x34].copy_from_slice(&1u32.to_le_bytes());
    body[0x34..0x38].copy_from_slice(&2u32.to_le_bytes());
    let mut rom = vec![0u8; 0x20];
    rom[0..4].copy_from_slice(b"$PSP");
    rom[8..12].copy_from_slice(&1u32.to_le_bytes());
    rom[12..16].copy_from_slice(&((1u32 << 31) | (0b01u32 << 24)).to_le_bytes());
    rom[0x10] = 0x01;
    rom[0x14..0x18].copy_from_slice(&(body.len() as u32).to_le_bytes());
    rom[0x18..0x1C].copy_from_slice(&0x20u32.to_le_bytes());
    rom.extend_from_slice(&body);

    let parse = |bytes: Vec<u8>| {
        let blob = SourceBytes::from_blob(bytes);
        let dir = match Directory::parse_at(&blob, FlashOffset(0)).unwrap() {
            Directory::Psp(p) => p,
            _ => unreachable!(),
        };
        let entry = Entry::parse_psp(&blob, &dir, 0, RomSize::MIB_16, FlashOffset(0)).unwrap();
        (blob, entry)
    };
    let (blob, entry) = parse(rom);
    let mut editor = BlobEditor::from_blob(blob);
    sign_entry(&mut editor, &entry, &key, None).unwrap();
    let (_, entry) = parse(editor.serialize());

    let mut stored = vec![0u8; 0x40];
    stored[0..4].copy_from_slice(&1u32.to_le_bytes());
    stored[0x38..0x3C].copy_from_slice(&4096u32.to_le_bytes());
    stored[0x3C..0x40].copy_from_slice(&4096u32.to_le_bytes());
    for number in [public.e(), public.n()] {
        let mut le = number.to_bytes_le();
        le.resize(512, 0);
        stored.extend_from_slice(&le);
    }
    let pubkey = PubkeyEntry::parse(&SourceBytes::from_blob(stored)).unwrap();
    let header = entry.class.header().unwrap();
    header
        .verify_signature(entry.body.as_bytes(), &pubkey, None)
        .unwrap();
}

#[test]
fn entries_that_announce_no_signature_are_refused() {
    let (key, mut rom, body_off, _) = signed_rom();
    rom[body_off + 0x30..body_off + 0x34].copy_from_slice(&0u32.to_le_bytes());
    let blob = SourceBytes::from_blob(rom);
    let dir = match Directory::parse_at(&blob, FlashOffset(0x40)).unwrap() {
        Directory::Psp(p) => p,
        _ => unreachable!(),
    };
    let entry = Entry::parse_psp(&blob, &dir, 1, RomSize::MIB_16, FlashOffset(0)).unwrap();
    let mut editor = BlobEditor::from_blob(blob);
    let e = sign_entry(&mut editor, &entry, &key, None).unwrap_err();
    assert!(matches!(e, SignError::NotSignedFlag), "{e:?}");
    assert!(editor.is_clean());
}

#[test]
fn unknown_types_of_signature_are_refused() {
    let (key, mut rom, body_off, _) = signed_rom();
    rom[body_off + 0x34..body_off + 0x38].copy_from_slice(&1u32.to_le_bytes());
    let blob = SourceBytes::from_blob(rom);
    let entry = signed_entry_in(&blob);
    let mut editor = BlobEditor::from_blob(blob);
    let e = sign_entry(&mut editor, &entry, &key, None).unwrap_err();
    assert_eq!(e.text(), "unsupported signature_type 1 (expected 0 or 2)");
}

#[test]
fn signature_of_another_length_is_not_placed() {
    let (_, rom, _, _) = signed_rom();
    let blob = SourceBytes::from_blob(rom);
    let entry = signed_entry_in(&blob);
    let mut editor = BlobEditor::from_blob(blob);
    let e = place_signature(&mut editor, &entry, &[0u8; 0x80]).unwrap_err();
    assert_eq!(
        e.text(),
        "signature length mismatch: produced 128 bytes, expected 256"
    );
    assert!(editor.is_clean());
}

#[test]
fn failures_to_sign_are_described() {
    let cases = [
        (
            SignError::NotSignedEntry,
            "entry is not a HeaderFile-class signed entry",
        ),
        (
            SignError::NotSignedFlag,
            "entry header has is_signed == 0; refusing to write a signature region",
        ),
        (
            SignError::KeySizeMismatch { sig_type: 0, got_bits: 4096, needed_bits: 2048 },
            "private-key modulus is 4096 bits, but signature_type 0 requires 2048",
        ),
        (
            SignError::Body(BodyError::NotEncrypted),
            "entry is not encrypted (is_encrypted == 0)",
        ),
        (
            SignError::Patch(PatchError::BodyLengthMismatch { expected: 2, got: 1 }),
            "entry-body replacement length 1 != original 2",
        ),
    ];
    for (e, text) in cases {
        assert_eq!(e.text(), text);
    }
}
