use psptool::address::{FlashOffset, RomSize};
use psptool::entry::HEADER_FILE_LEN;
use psptool::fet::Fet;
use psptool::search_keys::{
    render_hits, search_keys, search_keys_with_directories, try_heuristic_at, EntryRef, KeyHit,
    KeyHitLocation,
};
use psptool::source::SourceBytes;
use psptool::walk::walk_directories;
use rand::rngs::StdRng;
use rand::SeedableRng;
use rsa::pss::SigningKey;
use rsa::signature::{RandomizedSigner, SignatureEncoding};
use rsa::traits::PublicKeyParts;
use rsa::{RsaPrivateKey, RsaPublicKey};
use sha2::Sha256;

/// On-disk PubkeyFile-shape blob suitable for placement as a `type 0x00`
/// entry body. RSA-2048, no embedded signature.
struct SyntheticPubkey {
    bytes: Vec<u8>,
    key_id: [u8; 16],
}

impl SyntheticPubkey {
    /// Build a `[0x40 header | pubexp(256) | modulus(256)]` PubkeyFile blob
    /// from `pub_key`. The 16-byte `key_id` and `certifying_id` fields are
    /// caller-supplied — set them to whatever a test wants the
    /// chain-of-trust map keyed by.
    fn from_key(pub_key: &RsaPublicKey, key_id: [u8; 16], certifying_id: [u8; 16]) -> Self {
        let mut buf = vec![0u8; 0x40 + 256 + 256];
        buf[0x00..0x04].copy_from_slice(&1u32.to_le_bytes()); // version
        buf[0x04..0x14].copy_from_slice(&key_id);
        buf[0x14..0x24].copy_from_slice(&certifying_id);
        // key_usage = 0 (AMD_CODE_SIGN), security_features = 0
        buf[0x38..0x3C].copy_from_slice(&2048u32.to_le_bytes()); // pubexp_bits
        buf[0x3C..0x40].copy_from_slice(&2048u32.to_le_bytes()); // modulus_bits

        // Pad pubexp / modulus to 256-byte slots, little-endian.
        let mut e_le = pub_key.e().to_bytes_le();
        e_le.resize(256, 0);
        buf[0x40..0x40 + 256].copy_from_slice(&e_le);
        let mut n_le = pub_key.n().to_bytes_le();
        n_le.resize(256, 0);
        buf[0x140..0x140 + 256].copy_from_slice(&n_le);

        Self { bytes: buf, key_id }
    }
}

/// Generate a deterministic RSA-2048 keypair for tests.
///
/// The seed is fixed so that test runs are reproducible.
fn generate_test_keypair() -> (RsaPrivateKey, RsaPublicKey) {
    let mut rng = StdRng::seed_from_u64(0xDEAD_BEEF_C0DE_F00D);
    let priv_key = RsaPrivateKey::new(&mut rng, 2048).expect("generate test 2048-bit RSA key");
    let pub_key = priv_key.to_public_key();
    (priv_key, pub_key)
}

/// Build a complete synthetic ROM containing:
///
/// * FET at offset `0x000` with one pointer to a `$PSP` directory.
/// * `$PSP` directory with two entries: a Pubkey (`type 0x00`) carrying
///   `pubkey`, and a HeaderFile (`type 0x01`) carrying `payload`.
/// * The HeaderFile is signed with `priv_key` over `header || payload`,
///   `signature_fingerprint == pubkey.key_id`.
///
/// `payload` length is padded with zeros to make the body sane (must be
/// non-empty). The HeaderFile uses RSA-2048 (`signature_type = 0`,
/// `sig_len = 0x100`).
///
/// Returns `(rom_bytes, sig_fingerprint_off, header_body_off, sig_region_off)`:
///
/// * `sig_fingerprint_off` — absolute offset of the 16-byte
///   `signature_fingerprint` field inside the HeaderFile (so tests can
///   point it at a different / unknown key).
/// * `header_body_off` — absolute offset of the start of the HeaderFile
///   entry body (its 0x100 header).
/// * `sig_region_off` — absolute offset of the trailing signature region
///   inside the HeaderFile body.
fn build_synthetic_rom_with_signed_entry(
    priv_key: &RsaPrivateKey,
    pubkey: &SyntheticPubkey,
    payload: &[u8],
) -> (Vec<u8>, usize, usize, usize) {
    // Layout (16 MiB ROM, low offsets — masking is identity here):
    //   0x000  FET           (magic + 1 pointer slot + 16-byte terminator = 24 bytes)
    //   0x040  $PSP directory header (0x10) + 2 entries (0x10 each) = 0x30 bytes
    //   0x080  Pubkey body (0x40 + 256 + 256 = 0x240 bytes)
    //   0x300  HeaderFile body (0x100 header + payload_padded + 0x100 sig)
    //
    // We pad payload up to a 16-aligned length.
    let payload_len = payload.len().div_ceil(16) * 16;
    let mut payload_padded = vec![0u8; payload_len];
    payload_padded[..payload.len()].copy_from_slice(payload);

    let pubkey_off = 0x080usize;
    let pubkey_len = pubkey.bytes.len();
    let header_body_off = 0x300usize;
    let header_total_len = HEADER_FILE_LEN + payload_padded.len() + 0x100;

    // Total ROM length — round up to 0x1000 so we have generous headroom.
    let rom_len = ((header_body_off + header_total_len + 0xFFF) & !0xFFF).max(0x1000);
    let mut rom = vec![0u8; rom_len];

    // ---- FET at 0x000 -----------------------------------------------------
    rom[0..4].copy_from_slice(b"\xAA\x55\xAA\x55"); // FET_MAGIC
    // Pointer slot 0 → $PSP directory at 0x040 (PhysicalX86 mode; identity for low offsets).
    rom[4..8].copy_from_slice(&0x0000_0040u32.to_le_bytes());
    // 16-byte terminator at 0x008..0x018.
    rom[8..24].copy_from_slice(&[0xFFu8; 16]);

    // ---- $PSP directory at 0x040 -----------------------------------------
    let dir_off = 0x040usize;
    rom[dir_off..dir_off + 4].copy_from_slice(b"$PSP");
    rom[dir_off + 4..dir_off + 8].copy_from_slice(&0u32.to_le_bytes()); // checksum
    rom[dir_off + 8..dir_off + 0xC].copy_from_slice(&2u32.to_le_bytes()); // count = 2
    // additional_info: v1 (bit 31 = 1), mode bits[25:24] = 01 (FlashOffset)
    // — entry `offset` fields are treated as absolute flash offsets, which
    // matches our hand-laid pubkey/header positions below. FlashOffset does
    // not defer to entry-level mode bits, so `rsv0[31:30]` is ignored here.
    let additional_info: u32 = (1u32 << 31) | (0b01u32 << 24);
    rom[dir_off + 0xC..dir_off + 0x10].copy_from_slice(&additional_info.to_le_bytes());

    // Entry 0: Pubkey (type 0x00).
    let entry0 = dir_off + 0x10;
    rom[entry0] = 0x00; // entry_type = AMD_PUBLIC_KEY
    rom[entry0 + 4..entry0 + 8].copy_from_slice(&(pubkey_len as u32).to_le_bytes());
    rom[entry0 + 8..entry0 + 0xC].copy_from_slice(&(pubkey_off as u32).to_le_bytes());

    // Entry 1: HeaderFile (type 0x01).
    let entry1 = dir_off + 0x20;
    rom[entry1] = 0x01; // entry_type = PSP_FW_BOOT_LOADER
    rom[entry1 + 4..entry1 + 8].copy_from_slice(&(header_total_len as u32).to_le_bytes());
    rom[entry1 + 8..entry1 + 0xC].copy_from_slice(&(header_body_off as u32).to_le_bytes());

    // ---- Pubkey body ------------------------------------------------------
    rom[pubkey_off..pubkey_off + pubkey_len].copy_from_slice(&pubkey.bytes);

    // ---- HeaderFile body --------------------------------------------------
    // Build a 0x100-byte header in-place, then sign over (header || payload).
    let h_off = header_body_off;
    rom[h_off + 0x10..h_off + 0x14].copy_from_slice(b"$PS1");
    let size_signed = (HEADER_FILE_LEN + payload_padded.len()) as u32;
    rom[h_off + 0x14..h_off + 0x18].copy_from_slice(&size_signed.to_le_bytes());
    // is_encrypted = 0
    rom[h_off + 0x30..h_off + 0x34].copy_from_slice(&1u32.to_le_bytes()); // is_signed = 1
    rom[h_off + 0x34..h_off + 0x38].copy_from_slice(&0u32.to_le_bytes()); // signature_type = 0
    // signature_fingerprint: certifying-key id — points at our pubkey.
    rom[h_off + 0x38..h_off + 0x48].copy_from_slice(&pubkey.key_id);
    // is_compressed = 0 (already zero)
    // rom_size = HEADER + payload + sig
    rom[h_off + 0x6C..h_off + 0x70].copy_from_slice(&(header_total_len as u32).to_le_bytes());

    // Place the payload after the header.
    let payload_start = h_off + HEADER_FILE_LEN;
    rom[payload_start..payload_start + payload_padded.len()].copy_from_slice(&payload_padded);

    // Sign (header || payload) with PSS-SHA256.
    let mut signed = Vec::with_capacity(HEADER_FILE_LEN + payload_padded.len());
    signed.extend_from_slice(&rom[h_off..h_off + HEADER_FILE_LEN]);
    signed.extend_from_slice(&payload_padded);

    let mut rng = StdRng::seed_from_u64(0xC0FF_EE00_BABE_FACE);
    let signing_key = SigningKey::<Sha256>::new(priv_key.clone());
    let sig = signing_key.sign_with_rng(&mut rng, &signed);
    let sig_be = sig.to_bytes(); // wire-order, big-endian
    let mut sig_disk = sig_be.to_vec();
    sig_disk.reverse();
    assert_eq!(sig_disk.len(), 0x100);

    let sig_region_off = h_off + HEADER_FILE_LEN + payload_padded.len();
    rom[sig_region_off..sig_region_off + 0x100].copy_from_slice(&sig_disk);

    let sig_fingerprint_off = h_off + 0x38;
    (rom, sig_fingerprint_off, header_body_off, sig_region_off)
}



fn parse_fet_at_zero(blob: &SourceBytes) -> Fet {
    Fet::parse_at(blob, FlashOffset(0)).expect("FET parse")
}

#[test]
fn structured_walk_finds_pubkey_entry() {
    let (priv_key, pub_key) = generate_test_keypair();
    let pk = SyntheticPubkey::from_key(&pub_key, [0xA1; 16], [0xA1; 16]);
    let (rom_bytes, _, _, _) =
        build_synthetic_rom_with_signed_entry(&priv_key, &pk, b"structured-only");
    let blob = SourceBytes::from_blob(rom_bytes);
    let fet = parse_fet_at_zero(&blob);
    let hits = search_keys(&blob, &fet, RomSize::MIB_16, FlashOffset(0));

    // The synthetic ROM has exactly one directory pubkey at offset 0x80.
    let structured: Vec<&KeyHit> = hits
        .iter()
        .filter(|h| matches!(h.location, KeyHitLocation::Structured(_)))
        .collect();
    assert_eq!(
        structured.len(),
        1,
        "expected exactly 1 structured hit, got {hits:#?}",
    );
    let hit = structured[0];
    assert_eq!(hit.offset, FlashOffset(0x080));
    assert_eq!(hit.key_id, [0xA1; 16]);
    assert_eq!(hit.modulus_size, 256);
    assert!(matches!(
        hit.location,
        KeyHitLocation::Structured(EntryRef {
            directory_index: 0,
            entry_index: 0,
        })
    ));

    // No heuristic hit at the same place — the structured-range filter
    // must drop the duplicate even though the bytes match the heuristic.
    let heuristic_at_structured = hits.iter().any(|h| {
        matches!(h.location, KeyHitLocation::Heuristic) && h.offset == FlashOffset(0x080)
    });
    assert!(
        !heuristic_at_structured,
        "structured pubkey must not be re-reported as heuristic, got {hits:#?}",
    );
}

/// Place a syntactically-valid PubkeyFile blob into the unused tail of a
/// synthetic ROM (well past every directory body) so the heuristic
/// scanner can find it but the directory walk cannot.
fn rom_with_inline_pubkey() -> (Vec<u8>, usize, [u8; 16], SyntheticPubkey, [u8; 16]) {
    let (priv_key, pub_key) = generate_test_keypair();
    // Structured pubkey lives in the directory.
    let dir_pk = SyntheticPubkey::from_key(&pub_key, [0xB2; 16], [0xB2; 16]);
    let dir_pk_id = dir_pk.key_id;
    let (mut rom_bytes, _, _, _) =
        build_synthetic_rom_with_signed_entry(&priv_key, &dir_pk, b"heuristic-test");

    // Build a second, syntactically-valid pubkey blob with a different
    // key_id and embed it in unused space well past the existing layout.
    let inline_pk = SyntheticPubkey::from_key(&pub_key, [0xCD; 16], [0xEF; 16]);
    let inline_pk_id = inline_pk.key_id;
    let inline_off = 0xC00usize;
    // Sanity: the synthetic ROM is at least 0x1000 bytes and 0xC00 is
    // beyond the directory body region (which ends well below 0x800
    // since the pubkey lives at 0x080..0x320 and the header at 0x300+).
    // Re-confirm by checking we're not overwriting the signature region.
    let pk_len = inline_pk.bytes.len();
    assert!(inline_off + pk_len <= rom_bytes.len());
    rom_bytes[inline_off..inline_off + pk_len].copy_from_slice(&inline_pk.bytes);

    (rom_bytes, inline_off, inline_pk_id, inline_pk, dir_pk_id)
}

#[test]
fn heuristic_scan_finds_inline_pubkey() {
    let (rom_bytes, inline_off, inline_pk_id, _inline_pk, _dir_pk_id) =
        rom_with_inline_pubkey();
    let blob = SourceBytes::from_blob(rom_bytes);
    let fet = parse_fet_at_zero(&blob);
    let hits = search_keys(&blob, &fet, RomSize::MIB_16, FlashOffset(0));

    let heuristic: Vec<&KeyHit> = hits
        .iter()
        .filter(|h| matches!(h.location, KeyHitLocation::Heuristic))
        .collect();

    let inline_hit = heuristic
        .iter()
        .find(|h| h.offset == FlashOffset(inline_off as u64))
        .unwrap_or_else(|| panic!("no heuristic hit at 0x{inline_off:x}; got {hits:#?}"));
    assert_eq!(inline_hit.key_id, inline_pk_id);
    assert_eq!(inline_hit.modulus_size, 256);
}

#[test]
fn structured_and_heuristic_coexist_distinct_offsets() {
    let (rom_bytes, inline_off, inline_pk_id, _inline_pk, dir_pk_id) = rom_with_inline_pubkey();
    let blob = SourceBytes::from_blob(rom_bytes);
    let fet = parse_fet_at_zero(&blob);
    let hits = search_keys(&blob, &fet, RomSize::MIB_16, FlashOffset(0));

    // Exactly one Structured + one Heuristic hit (the rest of the ROM
    // is zeros, which can't satisfy version ∈ {1,2}).
    let structured = hits
        .iter()
        .filter(|h| matches!(h.location, KeyHitLocation::Structured(_)))
        .count();
    let heuristic = hits
        .iter()
        .filter(|h| matches!(h.location, KeyHitLocation::Heuristic))
        .count();
    assert_eq!(structured, 1, "want 1 structured, got {hits:#?}");
    assert_eq!(heuristic, 1, "want 1 heuristic, got {hits:#?}");

    // The structured hit reports the directory pubkey at 0x080.
    let s = hits
        .iter()
        .find(|h| matches!(h.location, KeyHitLocation::Structured(_)))
        .unwrap();
    assert_eq!(s.offset, FlashOffset(0x080));
    assert_eq!(s.key_id, dir_pk_id);

    // The heuristic hit reports the inline pubkey at the planted offset.
    let h = hits
        .iter()
        .find(|h| matches!(h.location, KeyHitLocation::Heuristic))
        .unwrap();
    assert_eq!(h.offset, FlashOffset(inline_off as u64));
    assert_eq!(h.key_id, inline_pk_id);
}

#[test]
fn heuristic_rejects_non_pubkey_bytes() {
    // A blob full of zeros should yield no hits — version is 0 ∉ {1,2}.
    let blob = SourceBytes::from_blob(vec![0u8; 0x1000]);
    let h = (0..0x1000usize)
        .filter_map(|local| try_heuristic_at(blob.as_bytes(), local, 0))
        .count();
    assert_eq!(h, 0);
}

#[test]
fn heuristic_rejects_bad_pubexp_bits() {
    // Build a blob that satisfies all conditions except pubexp_bits.
    let mut buf = vec![0u8; 0x40 + 256 + 256];
    buf[0..4].copy_from_slice(&1u32.to_le_bytes()); // version = 1
    buf[0x38..0x3C].copy_from_slice(&1024u32.to_le_bytes()); // not in {2048, 4096}
    buf[0x3C..0x40].copy_from_slice(&1024u32.to_le_bytes());
    buf[0x40..0x44].copy_from_slice(&[0x01, 0x00, 0x01, 0x00]);
    let blob = SourceBytes::from_blob(buf);
    assert!(try_heuristic_at(blob.as_bytes(), 0, 0).is_none());
}

#[test]
fn heuristic_rejects_pubexp_modulus_mismatch() {
    let mut buf = vec![0u8; 0x40 + 256 + 256];
    buf[0..4].copy_from_slice(&1u32.to_le_bytes());
    buf[0x38..0x3C].copy_from_slice(&2048u32.to_le_bytes());
    buf[0x3C..0x40].copy_from_slice(&4096u32.to_le_bytes()); // mismatched
    buf[0x40..0x44].copy_from_slice(&[0x01, 0x00, 0x01, 0x00]);
    let blob = SourceBytes::from_blob(buf);
    assert!(try_heuristic_at(blob.as_bytes(), 0, 0).is_none());
}

#[test]
fn heuristic_rejects_wrong_pubexp_value() {
    let mut buf = vec![0u8; 0x40 + 256 + 256];
    buf[0..4].copy_from_slice(&1u32.to_le_bytes());
    buf[0x38..0x3C].copy_from_slice(&2048u32.to_le_bytes());
    buf[0x3C..0x40].copy_from_slice(&2048u32.to_le_bytes());
    // exponent != 0x10001
    buf[0x40..0x44].copy_from_slice(&[0x03, 0x00, 0x00, 0x00]);
    let blob = SourceBytes::from_blob(buf);
    assert!(try_heuristic_at(blob.as_bytes(), 0, 0).is_none());
}

#[test]
fn heuristic_offset_carries_blob_root() {
    // Heuristic hits must report absolute flash offsets, not local ones.
    let pad = 0x100usize;
    let pk = SyntheticPubkey::from_key(&generate_test_keypair().1, [0x77; 16], [0x77; 16]);
    let mut buf = vec![0u8; pad + pk.bytes.len() + 0x40];
    buf[pad..pad + pk.bytes.len()].copy_from_slice(&pk.bytes);
    let blob = SourceBytes::with_offset(buf, FlashOffset(0xA000_0000));
    let hit = (0..blob.len())
        .find_map(|local| try_heuristic_at(blob.as_bytes(), local, blob.offset().get()))
        .expect("heuristic must find the planted pubkey");
    assert_eq!(hit.offset, FlashOffset(0xA000_0000 + pad as u64));
    assert_eq!(hit.key_id, [0x77; 16]);
}

/// Bytes of the shape of a key with the identifier `id`.
fn key_shape(id: u8) -> Vec<u8> {
    let mut buf = vec![0u8; 0x40 + 256 + 256];
    buf[0..4].copy_from_slice(&2u32.to_le_bytes());
    buf[4..0x14].copy_from_slice(&[id; 16]);
    buf[0x38..0x3C].copy_from_slice(&2048u32.to_le_bytes());
    buf[0x3C..0x40].copy_from_slice(&2048u32.to_le_bytes());
    buf[0x40..0x44].copy_from_slice(&[0x01, 0x00, 0x01, 0x00]);
    for b in &mut buf[0x140..] {
        *b = 0xEE;
    }
    buf
}

#[test]
fn shapes_at_the_end_of_the_input_count() {
    let key = key_shape(0x61);
    let hit = try_heuristic_at(&key, 0, 0x1000).unwrap();
    assert_eq!(hit.offset, FlashOffset(0x1000));
    assert_eq!(hit.key_id, [0x61; 16]);
    assert_eq!(hit.modulus_size, 256);
    assert!(matches!(hit.location, KeyHitLocation::Heuristic));
    // With one byte less the numbers do not fit.
    assert!(try_heuristic_at(&key[..key.len() - 1], 0, 0x1000).is_none());
    assert!(try_heuristic_at(&key, 1, 0x1000).is_none());
}

/// A ROM with one key entry of 0x300 bytes at 0x80.
fn rom_with_key_entry() -> Vec<u8> {
    let mut rom = vec![0u8; 0x1000];
    rom[0..4].copy_from_slice(b"\xAA\x55\xAA\x55");
    rom[4..8].copy_from_slice(&0x40u32.to_le_bytes());
    rom[8..24].copy_from_slice(&[0xFF; 16]);
    rom[0x40..0x44].copy_from_slice(b"$PSP");
    rom[0x48..0x4C].copy_from_slice(&1u32.to_le_bytes());
    rom[0x4C..0x50].copy_from_slice(&((1u32 << 31) | (0b01u32 << 24)).to_le_bytes());
    rom[0x54..0x58].copy_from_slice(&0x300u32.to_le_bytes());
    rom[0x58..0x5C].copy_from_slice(&0x80u32.to_le_bytes());
    rom[0x80..0x80 + 0x240].copy_from_slice(&key_shape(0x62));
    rom
}

#[test]
fn shapes_that_overlap_a_structured_key_are_dropped() {
    let mut rom = rom_with_key_entry();
    // In the modulus of the entry's key.
    let inner = 0x80 + 0x140 + 0x10;
    rom[inner..inner + 0x240].copy_from_slice(&key_shape(0x63));
    // Behind the entry.
    rom[0x800..0x800 + 0x240].copy_from_slice(&key_shape(0x64));
    let blob = SourceBytes::from_blob(rom);
    let fet = parse_fet_at_zero(&blob);
    let hits = search_keys(&blob, &fet, RomSize::MIB_16, FlashOffset(0));
    assert_eq!(
        render_hits(&hits),
        "0x00000080  62626262626262626262626262626262  modulus=256  structured(d0.e0)\n\
         0x00000800  64646464646464646464646464646464  modulus=256  heuristic\n"
    );
}

#[test]
fn hits_are_the_same_for_given_directories() {
    let blob = SourceBytes::from_blob(rom_with_key_entry());
    let fet = parse_fet_at_zero(&blob);
    let dirs = walk_directories(&blob, &fet, RomSize::MIB_16, FlashOffset(0));
    assert_eq!(
        search_keys(&blob, &fet, RomSize::MIB_16, FlashOffset(0)),
        search_keys_with_directories(&blob, &dirs, RomSize::MIB_16, FlashOffset(0))
    );
}

#[test]
fn shape_at_the_last_offset_is_reported() {
    let mut buf = vec![0u8; 0x40 + 256 + 256];
    buf[0..4].copy_from_slice(&2u32.to_le_bytes());
    buf[4..0x14].copy_from_slice(&[0x77; 16]);
    buf[0x38..0x3C].copy_from_slice(&2048u32.to_le_bytes());
    buf[0x3C..0x40].copy_from_slice(&2048u32.to_le_bytes());
    buf[0x40..0x44].copy_from_slice(&[0x01, 0x00, 0x01, 0x00]);
    let hit = try_heuristic_at(&buf, 0, u64::MAX).unwrap();
    assert_eq!(hit.offset, FlashOffset(u64::MAX));
    assert_eq!(hit.key_id, [0x77; 16]);
    assert_eq!(hit.modulus_size, 256);
}
