//! From an input to one of the ROMs in there, and from a text to a private key.

use rsa::RsaPrivateKey;
use vstd::prelude::*;

use crate::address::{FlashOffset, RomSize};
use crate::crypto::{decode_pem, private_key_in_pem, signing_exponent_of, signing_modulus_of};
use crate::fet::{
    candidates, detect_rom_layout, has_layout, indices, scan_fet_candidates, Fet, RomLayout,
};
use crate::source::{SourceBytes, Window};
use crate::text::{dec, group_text, push_dec};
use crate::walk::{all_decode, places, reached, walk_directories, DirectoryRef};

verus! {

/// A ROM of an input, with its directories.
pub struct OpenedRom {
    pub blob: SourceBytes,
    pub fet: Fet,
    pub rom_size: RomSize,
    /// Input offset of the first byte of the ROM.
    pub rom_origin: FlashOffset,
    pub directories: Vec<DirectoryRef>,
}

/// Why no ROM was opened.
#[derive(Clone, Debug, PartialEq, Eq)]
pub enum OpenError {
    /// No table was found.
    NoFet,
    /// There are fewer ROMs; `found` places may hold a table.
    RomIndexOutOfRange { rom_index: usize, found: usize },
}

/// One-line description of an error.
pub open spec fn open_error_text(e: OpenError) -> Seq<char> {
    match e {
        OpenError::NoFet => "no FET (Firmware Entry Table) found"@,
        OpenError::RomIndexOutOfRange { rom_index, found } => "ROM index "@ + (dec(
            rom_index as nat,
        ) + (" out of range (found "@ + (dec(found as nat) + " ROM(s))"@))),
    }
}

impl OpenError {
    pub fn text(&self) -> (r: String)
        ensures
            r@ == open_error_text(*self),
    {
        broadcast use group_text;

        let mut out = String::new();
        match self {
            OpenError::NoFet => out.append("no FET (Firmware Entry Table) found"),
            OpenError::RomIndexOutOfRange { rom_index, found } => {
                out.append("ROM index ");
                push_dec(*rom_index as u64, &mut out);
                out.append(" out of range (found ");
                push_dec(*found as u64, &mut out);
                out.append(" ROM(s))");
            },
        }
        out
    }
}

/// Those of the first `n` candidates whose table is that of a ROM.
pub open spec fn rom_tables(blob: Window, found: Seq<int>, n: int) -> Seq<int>
    decreases n,
{
    if n <= 0 {
        Seq::empty()
    } else if has_layout(blob, blob.offset + found[n - 1]) {
        rom_tables(blob, found, n - 1).push(found[n - 1])
    } else {
        rom_tables(blob, found, n - 1)
    }
}

/// The indices of the tables of ROMs in an input, in ascending order.
pub open spec fn roms(blob: Window) -> Seq<int> {
    let found = candidates(blob.bytes, blob.bytes.len() as int);
    rom_tables(blob, found, found.len() as int)
}

impl OpenedRom {
    /// Whether this is the ROM whose table stands at `at`, with all of its
    /// directories.
    pub open spec fn describes(self, blob: Window, at: int) -> bool {
        &&& self.blob@ == blob
        &&& (RomLayout {
            rom_origin: self.rom_origin,
            rom_size: self.rom_size,
            fet: self.fet,
        }).describes(blob, at)
        &&& places(self.directories@) == reached(
            blob,
            self.fet.slots@,
            self.rom_size,
            self.rom_origin,
        )
        &&& all_decode(self.directories@, blob)
    }
}

fn opened_from_layout(blob: SourceBytes, layout: RomLayout) -> (r: OpenedRom)
    ensures
        forall|at: int| layout.describes(blob@, at) ==> #[trigger] r.describes(blob@, at),
{
    let directories = walk_directories(&blob, &layout.fet, layout.rom_size, layout.rom_origin);
    OpenedRom {
        blob,
        fet: layout.fet,
        rom_size: layout.rom_size,
        rom_origin: layout.rom_origin,
        directories,
    }
}

/// Open the ROM with a given index in an input.
pub fn open_rom(bytes: Vec<u8>, rom_index: usize) -> (r: Result<OpenedRom, OpenError>)
    ensures
        ({
            let blob = Window { bytes: bytes@, offset: 0 };
            let found = candidates(bytes@, bytes@.len() as int);
            if found.len() == 0 {
                r == Err::<OpenedRom, OpenError>(OpenError::NoFet)
            } else if rom_index >= roms(blob).len() {
                r == Err::<OpenedRom, OpenError>(
                    OpenError::RomIndexOutOfRange { rom_index, found: found.len() as usize },
                )
            } else {
                r matches Ok(opened) && opened.describes(blob, roms(blob)[rom_index as int])
            }
        }),
{
    let ghost input = Window { bytes: bytes@, offset: 0 };
    let blob = SourceBytes::from_blob(bytes);
    let found = scan_fet_candidates(&blob);
    let ghost all = candidates(blob@.bytes, blob@.bytes.len() as int);
    assert(indices(blob@, found@) == all);
    if found.len() == 0 {
        return Err(OpenError::NoFet);
    }
    let mut seen: usize = 0;
    let mut i: usize = 0;
    while i < found.len()
        invariant
            i <= found@.len(),
            input == (Window { bytes: bytes@, offset: 0 }),
            blob@ == input,
            all.len() > 0,
            all == candidates(blob@.bytes, blob@.bytes.len() as int),
            indices(blob@, found@) == all,
            seen <= i,
            seen <= rom_index,
            seen == rom_tables(blob@, all, i as int).len(),
        decreases found@.len() - i,
    {
        let at = found[i];
        assert(all[i as int] == at.0 - blob@.offset);
        if let Some(layout) = detect_rom_layout(&blob, at) {
            if seen == rom_index {
                proof {
                    assert(rom_tables(blob@, all, i + 1)[seen as int] == all[i as int]);
                    lemma_rom_tables_extend(blob@, all, i + 1, all.len() as int);
                    assert(layout.describes(blob@, at.0 as int));
                }
                let ghost window = blob@;
                let opened = opened_from_layout(blob, layout);
                assert(opened.describes(window, at.0 as int));
                return Ok(opened);
            }
            seen += 1;
        }
        i += 1;
    }
    Err(OpenError::RomIndexOutOfRange { rom_index, found: found.len() })
}

/// The private key that a PEM text holds in PKCS#8 form, or the text of the
/// error.
pub fn load_priv_key(pem: &str) -> (r: Result<RsaPrivateKey, String>)
    ensures
        match r {
            Ok(key) => private_key_in_pem(pem@) == Ok::<(nat, nat), Seq<char>>(
                (signing_modulus_of(key), signing_exponent_of(key)),
            ),
            Err(text) => private_key_in_pem(pem@) == Err::<(nat, nat), Seq<char>>(text@),
        },
{
    decode_pem(pem)
}

proof fn lemma_rom_tables_extend(blob: Window, found: Seq<int>, m: int, n: int)
    requires
        m <= n,
    ensures
        rom_tables(blob, found, m).is_prefix_of(rom_tables(blob, found, n)),
    decreases n - m,
{
    if m < n {
        lemma_rom_tables_extend(blob, found, m, n - 1);
    }
}

} // verus!
