use psptool::address::{FlashOffset, RomSize};
use psptool::body::VerifyError;
use psptool::directory::Directory;
use psptool::entry::{Entry, EntryClass, HEADER_FILE_LEN};
use psptool::fet::Fet;
use psptool::id::EntryType;
use psptool::inventory::{parse_all, parse_dir_entries};
use psptool::sign::sign_entry;
use psptool::source::SourceBytes;
use psptool::verify::{
    classify_entry, collect_pubkeys, render_report, status_of, verify_chain_of_trust, verify_with_directories,
    EntryVerification, VerificationStatus,
};
use psptool::walk::{walk_directories, DirectoryProvenance, DirectoryRef};
use psptool::writer::BlobEditor;
use rand::rngs::StdRng;
use rand::SeedableRng;
use rsa::pss::SigningKey;
use rsa::signature::{RandomizedSigner, SignatureEncoding};
use rsa::traits::PublicKeyParts;
use rsa::{BigUint, RsaPrivateKey, RsaPublicKey};
use sha2::Sha256;

/// On-disk PubkeyFile-shape blob suitable for placement as a `type 0x00`
/// entry body. RSA-2048, no embedded signature.
struct SyntheticPubkey {
    bytes: Vec<u8>,
    key_id: [u8; 16],
}

impl SyntheticPubkey {
    /// Build a `[0x40 header | pubexp(256) | modulus(256)]` PubkeyFile blob
    /// from `pub_key`. The 16-byte `key_id` and `certifying_id` fields are
    /// caller-supplied — set them to whatever a test wants the
    /// chain-of-trust map keyed by.
    fn from_key(pub_key: &RsaPublicKey, key_id: [u8; 16], certifying_id: [u8; 16]) -> Self {
        let mut buf = vec![0u8; 0x40 + 256 + 256];
        buf[0x00..0x04].copy_from_slice(&1u32.to_le_bytes()); // version
        buf[0x04..0x14].copy_from_slice(&key_id);
        buf[0x14..0x24].copy_from_slice(&certifying_id);
        // key_usage = 0 (AMD_CODE_SIGN), security_features = 0
        buf[0x38..0x3C].copy_from_slice(&2048u32.to_le_bytes()); // pubexp_bits
        buf[0x3C..0x40].copy_from_slice(&2048u32.to_le_bytes()); // modulus_bits

        // Pad pubexp / modulus to 256-byte slots, little-endian.
        let mut e_le = pub_key.e().to_bytes_le();
        e_le.resize(256, 0);
        buf[0x40..0x40 + 256].copy_from_slice(&e_le);
        let mut n_le = pub_key.n().to_bytes_le();
        n_le.resize(256, 0);
        buf[0x140..0x140 + 256].copy_from_slice(&n_le);

        Self { bytes: buf, key_id }
    }
}

/// Generate a deterministic RSA-2048 keypair for tests.
///
/// The seed is fixed so that test runs are reproducible.
fn generate_test_keypair() -> (RsaPrivateKey, RsaPublicKey) {
    let mut rng = StdRng::seed_from_u64(0xDEAD_BEEF_C0DE_F00D);
    let priv_key = RsaPrivateKey::new(&mut rng, 2048).expect("generate test 2048-bit RSA key");
    let pub_key = priv_key.to_public_key();
    (priv_key, pub_key)
}

/// Build a complete synthetic ROM containing:
///
/// * FET at offset `0x000` with one pointer to a `$PSP` directory.
/// * `$PSP` directory with two entries: a Pubkey (`type 0x00`) carrying
///   `pubkey`, and a HeaderFile (`type 0x01`) carrying `payload`.
/// * The HeaderFile is signed with `priv_key` over `header || payload`,
///   `signature_fingerprint == pubkey.key_id`.
///
/// `payload` length is padded with zeros to make the body sane (must be
/// non-empty). The HeaderFile uses RSA-2048 (`signature_type = 0`,
/// `sig_len = 0x100`).
///
/// Returns `(rom_bytes, sig_fingerprint_off, header_body_off, sig_region_off)`:
///
/// * `sig_fingerprint_off` — absolute offset of the 16-byte
///   `signature_fingerprint` field inside the HeaderFile (so tests can
///   point it at a different / unknown key).
/// * `header_body_off` — absolute offset of the start of the HeaderFile
///   entry body (its 0x100 header).
/// * `sig_region_off` — absolute offset of the trailing signature region
///   inside the HeaderFile body.
fn build_synthetic_rom_with_signed_entry(
    priv_key: &RsaPrivateKey,
    pubkey: &SyntheticPubkey,
    payload: &[u8],
) -> (Vec<u8>, usize, usize, usize) {
    // Layout (16 MiB ROM, low offsets — masking is identity here):
    //   0x000  FET           (magic + 1 pointer slot + 16-byte terminator = 24 bytes)
    //   0x040  $PSP directory header (0x10) + 2 entries (0x10 each) = 0x30 bytes
    //   0x080  Pubkey body (0x40 + 256 + 256 = 0x240 bytes)
    //   0x300  HeaderFile body (0x100 header + payload_padded + 0x100 sig)
    //
    // We pad payload up to a 16-aligned length.
    let payload_len = payload.len().div_ceil(16) * 16;
    let mut payload_padded = vec![0u8; payload_len];
    payload_padded[..payload.len()].copy_from_slice(payload);

    let pubkey_off = 0x080usize;
    let pubkey_len = pubkey.bytes.len();
    let header_body_off = 0x300usize;
    let header_total_len = HEADER_FILE_LEN + payload_padded.len() + 0x100;

    // Total ROM length — round up to 0x1000 so we have generous headroom.
    let rom_len = ((header_body_off + header_total_len + 0xFFF) & !0xFFF).max(0x1000);
    let mut rom = vec![0u8; rom_len];

    // ---- FET at 0x000 -----------------------------------------------------
    rom[0..4].copy_from_slice(b"\xAA\x55\xAA\x55"); // FET_MAGIC
    // Pointer slot 0 → $PSP directory at 0x040 (PhysicalX86 mode; identity for low offsets).
    rom[4..8].copy_from_slice(&0x0000_0040u32.to_le_bytes());
    // 16-byte terminator at 0x008..0x018.
    rom[8..24].copy_from_slice(&[0xFFu8; 16]);

    // ---- $PSP directory at 0x040 -----------------------------------------
    let dir_off = 0x040usize;
    rom[dir_off..dir_off + 4].copy_from_slice(b"$PSP");
    rom[dir_off + 4..dir_off + 8].copy_from_slice(&0u32.to_le_bytes()); // checksum
    rom[dir_off + 8..dir_off + 0xC].copy_from_slice(&2u32.to_le_bytes()); // count = 2
    // additional_info: v1 (bit 31 = 1), mode bits[25:24] = 01 (FlashOffset)
    // — entry `offset` fields are treated as absolute flash offsets, which
    // matches our hand-laid pubkey/header positions below. FlashOffset does
    // not defer to entry-level mode bits, so `rsv0[31:30]` is ignored here.
    let additional_info: u32 = (1u32 << 31) | (0b01u32 << 24);
    rom[dir_off + 0xC..dir_off + 0x10].copy_from_slice(&additional_info.to_le_bytes());

    // Entry 0: Pubkey (type 0x00).
    let entry0 = dir_off + 0x10;
    rom[entry0] = 0x00; // entry_type = AMD_PUBLIC_KEY
    rom[entry0 + 4..entry0 + 8].copy_from_slice(&(pubkey_len as u32).to_le_bytes());
    rom[entry0 + 8..entry0 + 0xC].copy_from_slice(&(pubkey_off as u32).to_le_bytes());

    // Entry 1: HeaderFile (type 0x01).
    let entry1 = dir_off + 0x20;
    rom[entry1] = 0x01; // entry_type = PSP_FW_BOOT_LOADER
    rom[entry1 + 4..entry1 + 8].copy_from_slice(&(header_total_len as u32).to_le_bytes());
    rom[entry1 + 8..entry1 + 0xC].copy_from_slice(&(header_body_off as u32).to_le_bytes());

    // ---- Pubkey body ------------------------------------------------------
    rom[pubkey_off..pubkey_off + pubkey_len].copy_from_slice(&pubkey.bytes);

    // ---- HeaderFile body --------------------------------------------------
    // Build a 0x100-byte header in-place, then sign over (header || payload).
    let h_off = header_body_off;
    rom[h_off + 0x10..h_off + 0x14].copy_from_slice(b"$PS1");
    let size_signed = (HEADER_FILE_LEN + payload_padded.len()) as u32;
    rom[h_off + 0x14..h_off + 0x18].copy_from_slice(&size_signed.to_le_bytes());
    // is_encrypted = 0
    rom[h_off + 0x30..h_off + 0x34].copy_from_slice(&1u32.to_le_bytes()); // is_signed = 1
    rom[h_off + 0x34..h_off + 0x38].copy_from_slice(&0u32.to_le_bytes()); // signature_type = 0
    // signature_fingerprint: certifying-key id — points at our pubkey.
    rom[h_off + 0x38..h_off + 0x48].copy_from_slice(&pubkey.key_id);
    // is_compressed = 0 (already zero)
    // rom_size = HEADER + payload + sig
    rom[h_off + 0x6C..h_off + 0x70].copy_from_slice(&(header_total_len as u32).to_le_bytes());

    // Place the payload after the header.
    let payload_start = h_off + HEADER_FILE_LEN;
    rom[payload_start..payload_start + payload_padded.len()].copy_from_slice(&payload_padded);

    // Sign (header || payload) with PSS-SHA256.
    let mut signed = Vec::with_capacity(HEADER_FILE_LEN + payload_padded.len());
    signed.extend_from_slice(&rom[h_off..h_off + HEADER_FILE_LEN]);
    signed.extend_from_slice(&payload_padded);

    let mut rng = StdRng::seed_from_u64(0xC0FF_EE00_BABE_FACE);
    let signing_key = SigningKey::<Sha256>::new(priv_key.clone());
    let sig = signing_key.sign_with_rng(&mut rng, &signed);
    let sig_be = sig.to_bytes(); // wire-order, big-endian
    let mut sig_disk = sig_be.to_vec();
    sig_disk.reverse();
    assert_eq!(sig_disk.len(), 0x100);

    let sig_region_off = h_off + HEADER_FILE_LEN + payload_padded.len();
    rom[sig_region_off..sig_region_off + 0x100].copy_from_slice(&sig_disk);

    let sig_fingerprint_off = h_off + 0x38;
    (rom, sig_fingerprint_off, header_body_off, sig_region_off)
}



fn parse_fet_at(blob: &SourceBytes, off: u64) -> Fet {
    Fet::parse_at(blob, FlashOffset(off)).expect("FET parse")
}

#[test]
fn verify_round_trip_synthetic_rom() {
    let (priv_key, pub_key) = generate_test_keypair();
    let pk = SyntheticPubkey::from_key(&pub_key, [0xA1; 16], [0xA1; 16]);
    let (rom_bytes, _, _, _) =
        build_synthetic_rom_with_signed_entry(&priv_key, &pk, b"hello, signed!");
    let blob = SourceBytes::from_blob(rom_bytes);
    let fet = parse_fet_at(&blob, 0);
    let report = verify_chain_of_trust(&blob, &fet, RomSize::MIB_16, FlashOffset(0), None);

    // Expect at least one Verified row for the signed entry, and a NotSigned
    // row for the pubkey itself (it does not carry a HeaderFile prefix).
    let verified = report
        .iter()
        .filter(|r| matches!(r.status, VerificationStatus::Verified))
        .count();
    assert!(verified >= 1, "expected ≥1 Verified row, got {report:#?}");
}

#[test]
fn verify_flags_unknown_key_when_pubkey_missing() {
    let (priv_key, pub_key) = generate_test_keypair();
    // Use a key_id that does NOT match the signature_fingerprint we stamp
    // into the entry header. The signing key is real, but the pubkey
    // lookup will miss.
    let pk = SyntheticPubkey::from_key(
        &pub_key, /* key_id      */ [0xCC; 16], /* certifying  */ [0xCC; 16],
    );
    // build_synthetic_rom_with_signed_entry stamps the signature_fingerprint
    // to the pubkey's key_id by default. To exercise UnknownKey we replace
    // that field after the fact.
    let (mut rom_bytes, sig_fp_off, _, _) =
        build_synthetic_rom_with_signed_entry(&priv_key, &pk, b"unknown-key-test");
    rom_bytes[sig_fp_off..sig_fp_off + 16].copy_from_slice(&[0xDE; 16]);
    let blob = SourceBytes::from_blob(rom_bytes);
    let fet = parse_fet_at(&blob, 0);
    let report = verify_chain_of_trust(&blob, &fet, RomSize::MIB_16, FlashOffset(0), None);

    let unknown = report
        .iter()
        .filter(|r| matches!(r.status, VerificationStatus::UnknownKey))
        .count();
    assert!(unknown >= 1, "expected ≥1 UnknownKey row, got {report:#?}");
}

#[test]
fn verify_flags_bad_signature_when_body_tampered() {
    let (priv_key, pub_key) = generate_test_keypair();
    let pk = SyntheticPubkey::from_key(&pub_key, [0xB2; 16], [0xB2; 16]);
    let (mut rom_bytes, _, body_off, _) =
        build_synthetic_rom_with_signed_entry(&priv_key, &pk, b"tampered-body");
    // Flip a byte in the signed body region (just past the 0x100 header).
    rom_bytes[body_off + 0x100] ^= 0x01;
    let blob = SourceBytes::from_blob(rom_bytes);
    let fet = parse_fet_at(&blob, 0);
    let report = verify_chain_of_trust(&blob, &fet, RomSize::MIB_16, FlashOffset(0), None);

    let bad = report
        .iter()
        .filter(|r| matches!(r.status, VerificationStatus::BadSignature))
        .count();
    assert!(bad >= 1, "expected ≥1 BadSignature row, got {report:#?}");
}

#[test]
fn sign_then_verify_round_trip_via_blob_editor() {
    // Signing path: build a ROM with an entry whose signature region is
    // intentionally garbage, then re-sign through the diff-and-patch
    // writer and confirm verify reports Verified.
    let (priv_key, pub_key) = generate_test_keypair();
    let pk = SyntheticPubkey::from_key(&pub_key, [0xC3; 16], [0xC3; 16]);
    let (mut rom_bytes, _, body_off, sig_off) =
        build_synthetic_rom_with_signed_entry(&priv_key, &pk, b"resign-target");
    // Corrupt the signature region — verify must now fail.
    for b in &mut rom_bytes[sig_off..sig_off + 0x100] {
        *b = 0;
    }
    let blob = SourceBytes::from_blob(rom_bytes.clone());
    let fet = parse_fet_at(&blob, 0);
    let dirs = walk_directories(&blob, &fet, RomSize::MIB_16, FlashOffset(0));
    let report = verify_with_directories(&blob, &dirs, RomSize::MIB_16, FlashOffset(0), None);
    assert!(
        report
            .iter()
            .any(|r| matches!(r.status, VerificationStatus::BadSignature)),
        "expected the corrupted entry to surface as BadSignature, got {report:#?}"
    );

    // Locate the signed entry, re-sign through BlobEditor, serialise, and
    // re-verify against the patched bytes.
    let mut editor = BlobEditor::from_blob(blob.clone());
    // Find the parsed signed entry.
    let mut signed_entry: Option<Entry> = None;
    for dir_ref in &dirs {
        for parsed in parse_dir_entries(&blob, &dir_ref.directory, RomSize::MIB_16, FlashOffset(0)) {
            if let Ok(entry) = parsed {
                if matches!(&entry.class, EntryClass::Header(h) if h.is_signed()) {
                    signed_entry = Some(entry);
                    break;
                }
            }
        }
        if signed_entry.is_some() {
            break;
        }
    }
    let entry = signed_entry.expect("synthetic ROM has a signed entry");
    sign_entry(&mut editor, &entry, &priv_key, None).expect("re-sign");
    let _ = body_off;

    let patched = editor.serialize();
    // Sanity: the patch landed in the signature region only.
    assert_eq!(patched.len(), rom_bytes.len());
    let blob2 = SourceBytes::from_blob(patched);
    let fet2 = parse_fet_at(&blob2, 0);
    let report2 = verify_chain_of_trust(&blob2, &fet2, RomSize::MIB_16, FlashOffset(0), None);
    assert!(
        report2
            .iter()
            .any(|r| matches!(r.status, VerificationStatus::Verified)),
        "expected the re-signed entry to verify, got {report2:#?}"
    );
}

/// A ROM whose entry is signed with a key of two known primes.
fn rom_of_known_primes() -> (Vec<u8>, usize) {
    let top = BigUint::from(1u32) << 1024usize;
    let p = top.clone() - BigUint::from(105u32);
    let q = top - BigUint::from(179u32);
    let key = RsaPrivateKey::from_p_q(p, q, BigUint::from(65537u32)).unwrap();
    let pk = SyntheticPubkey::from_key(&key.to_public_key(), [0x21; 16], [0x21; 16]);
    let (rom, _, body_off, _) = build_synthetic_rom_with_signed_entry(&key, &pk, b"payload");
    (rom, body_off)
}

fn report_of(rom: Vec<u8>) -> Vec<EntryVerification> {
    let blob = SourceBytes::from_blob(rom);
    let fet = parse_fet_at(&blob, 0);
    verify_chain_of_trust(&blob, &fet, RomSize::MIB_16, FlashOffset(0), None)
}

#[test]
fn report_has_a_row_for_each_entry() {
    let (rom, _) = rom_of_known_primes();
    let report = report_of(rom);
    assert_eq!(report.len(), 2);
    assert_eq!(
        report[0],
        EntryVerification {
            directory_index: 0,
            entry_index: 0,
            entry_type: EntryType(0x00),
            body_offset: FlashOffset(0x80),
            key_id: None,
            status: VerificationStatus::NotSigned,
        }
    );
    assert_eq!(
        report[1],
        EntryVerification {
            directory_index: 0,
            entry_index: 1,
            entry_type: EntryType(0x01),
            body_offset: FlashOffset(0x300),
            key_id: Some([0x21; 16]),
            status: VerificationStatus::Verified,
        }
    );
    assert_eq!(
        render_report(&report, true),
        "dir=  0 entry=  0 type=0x00 body=0x00000080 status=not-signed\n\
         dir=  0 entry=  1 type=0x01 body=0x00000300 status=verified\n"
    );
}

#[test]
fn header_without_signature_is_not_signed() {
    let (mut rom, body_off) = rom_of_known_primes();
    rom[body_off + 0x30..body_off + 0x34].copy_from_slice(&0u32.to_le_bytes());
    let report = report_of(rom);
    assert_eq!(report[1].status, VerificationStatus::NotSigned);
}

#[test]
fn entry_that_cannot_be_checked_is_an_error() {
    let (mut rom, body_off) = rom_of_known_primes();
    rom[body_off + 0x34..body_off + 0x38].copy_from_slice(&2u32.to_le_bytes());
    let report = report_of(rom);
    assert_eq!(
        report[1].status.text(),
        "error: signature_type 2 requires modulus 4096 bits, but pubkey has 2048 bits"
    );
}

#[test]
fn table_has_the_keys_that_the_check_uses() {
    let (rom, _) = rom_of_known_primes();
    let blob = SourceBytes::from_blob(rom);
    let fet = parse_fet_at(&blob, 0);
    let dirs = walk_directories(&blob, &fet, RomSize::MIB_16, FlashOffset(0));
    let table = collect_pubkeys(&blob, &dirs, RomSize::MIB_16, FlashOffset(0));
    assert_eq!(table.len(), 1);
    assert!(!table.is_empty());
    assert!(table.contains_key(&[0x21; 16]));
    assert!(!table.contains_key(&[0x22; 16]));
    let key = table.get(&[0x21; 16]).unwrap();
    assert_eq!(key.source.offset(), FlashOffset(0x80));
    assert!(table.get(&[0x22; 16]).is_none());
}

#[test]
fn first_of_two_keys_with_one_identifier_counts() {
    // Two key entries with the same identifier: the second one has another
    // modulus.
    let mut rom = vec![0u8; 0x1000];
    rom[0..4].copy_from_slice(b"$PSP");
    rom[8..12].copy_from_slice(&2u32.to_le_bytes());
    rom[12..16].copy_from_slice(&((1u32 << 31) | (0b01u32 << 24)).to_le_bytes());
    for (i, at) in [0x100usize, 0x400].into_iter().enumerate() {
        let e = 0x10 + i * 0x10;
        rom[e + 4..e + 8].copy_from_slice(&0x240u32.to_le_bytes());
        rom[e + 8..e + 12].copy_from_slice(&(at as u32).to_le_bytes());
        rom[at..at + 4].copy_from_slice(&1u32.to_le_bytes());
        rom[at + 4..at + 0x14].copy_from_slice(&[0x33; 16]);
        rom[at + 0x38..at + 0x3C].copy_from_slice(&2048u32.to_le_bytes());
        rom[at + 0x3C..at + 0x40].copy_from_slice(&2048u32.to_le_bytes());
    }
    let blob = SourceBytes::from_blob(rom);
    let directory = Directory::parse_at(&blob, FlashOffset(0)).unwrap();
    let dirs = vec![DirectoryRef {
        directory,
        provenance: DirectoryProvenance::FetSlot { index: 0 },
    }];
    let table = collect_pubkeys(&blob, &dirs, RomSize::MIB_16, FlashOffset(0));
    assert_eq!(table.len(), 1);
    assert_eq!(
        table.get(&[0x33; 16]).unwrap().source.offset(),
        FlashOffset(0x100)
    );
}

#[test]
fn outcomes_of_a_check_become_statuses() {
    assert_eq!(status_of(Ok(())), VerificationStatus::Verified);
    assert_eq!(
        status_of(Err(VerifyError::BadSignature)),
        VerificationStatus::BadSignature
    );
    assert_eq!(
        status_of(Err(VerifyError::InvalidSignature)).text(),
        "error: invalid signature bytes"
    );
    assert_eq!(VerificationStatus::UnknownKey.text(), "unknown-key");
    assert_eq!(VerificationStatus::BadSignature.text(), "bad-signature");
}

#[test]
fn entry_that_cannot_be_parsed_has_a_row_of_its_own() {
    let (mut rom, _) = rom_of_known_primes();
    // The body of entry 0 lies outside of the input.
    rom[0x58..0x5C].copy_from_slice(&0x00F0_0000u32.to_le_bytes());
    let report = report_of(rom);
    assert_eq!(report.len(), 2);
    assert_eq!(report[0].entry_type, EntryType(0));
    assert_eq!(report[0].body_offset, FlashOffset(0));
    assert_eq!(report[0].key_id, None);
    assert!(report[0].status.text().starts_with("error: truncated entry body at 0x00f00000"));
    // With the key gone, the other entry cannot be checked.
    assert_eq!(report[1].status, VerificationStatus::UnknownKey);
}

#[test]
fn single_entries_are_checked_as_in_the_report() {
    let (rom, body_off) = rom_of_known_primes();
    let blob = SourceBytes::from_blob(rom);
    let fet = parse_fet_at(&blob, 0);
    let dirs = walk_directories(&blob, &fet, RomSize::MIB_16, FlashOffset(0));
    let items = parse_all(&blob, &dirs, RomSize::MIB_16, FlashOffset(0));
    // The public key itself carries no signature.
    let row = classify_entry(&items, &items[0], None);
    assert_eq!(row.status, VerificationStatus::NotSigned);
    assert_eq!(row.key_id, None);
    let row = classify_entry(&items, &items[1], None);
    assert_eq!(row.status, VerificationStatus::Verified);
    assert_eq!(row.key_id, Some([0x21; 16]));
    assert_eq!(row.body_offset, FlashOffset(body_off as u64));
    // Without the key the same entry names one that is not known.
    let row = classify_entry(&Vec::new(), &items[1], None);
    assert_eq!(row.status, VerificationStatus::UnknownKey);
    assert_eq!(row.key_id, Some([0x21; 16]));
}
