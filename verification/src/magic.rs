//! Four-byte tags of the AMD PSP on-disk format.

use vstd::prelude::*;

use crate::text::{all_graphic, push_prefixed_hex_padded, push_quoted_chars};
use crate::wire::{le32, read_le32};

verus! {

/// A four-byte tag, held as the bytes appear in the image.
#[derive(Copy, Clone, Debug, PartialEq, Eq, Hash)]
pub struct Magic(pub [u8; 4]);

/// Tag of a Firmware Entry Table, as the little-endian word `0xAA55AA55`.
pub const FET_MAGIC: [u8; 4] = [0x55, 0xAA, 0x55, 0xAA];

/// Tag of a Firmware Entry Table in the byte order that image scans look for.
pub const FET_MAGIC_SWAPPED: [u8; 4] = [0xAA, 0x55, 0xAA, 0x55];

/// `$PSP`: primary PSP directory.
pub const PSP_MAGIC: [u8; 4] = [0x24, 0x50, 0x53, 0x50];

/// `$PL2`: second-level PSP directory.
pub const PL2_MAGIC: [u8; 4] = [0x24, 0x50, 0x4C, 0x32];

/// `$BHD`: primary BIOS directory.
pub const BHD_MAGIC: [u8; 4] = [0x24, 0x42, 0x48, 0x44];

/// `$BL2`: second-level BIOS directory.
pub const BL2_MAGIC: [u8; 4] = [0x24, 0x42, 0x4C, 0x32];

/// `2PSP`: combo PSP directory.
pub const COMBO_PSP_MAGIC: [u8; 4] = [0x32, 0x50, 0x53, 0x50];

/// `2BHD`: combo BIOS directory.
pub const COMBO_BHD_MAGIC: [u8; 4] = [0x32, 0x42, 0x48, 0x44];

/// `$PS1`: tag found in the header of most signed entry bodies.
pub const PS1_MAGIC: [u8; 4] = [0x24, 0x50, 0x53, 0x31];

/// `$KDB`: tag of a key-store body.
pub const KDB_MAGIC: [u8; 4] = [0x24, 0x4B, 0x44, 0x42];

impl Magic {
    pub fn new(bytes: [u8; 4]) -> (r: Self)
        ensures
            r == Magic(bytes),
    {
        Magic(bytes)
    }

    /// Make a tag from four ASCII bytes such as `b"$PSP"`.
    pub fn from_ascii(tag: &[u8; 4]) -> (r: Self)
        ensures
            r == Magic(*tag),
    {
        Magic(*tag)
    }

    pub fn as_bytes(&self) -> (r: &[u8; 4])
        ensures
            *r == self.0,
    {
        &self.0
    }

    /// The tag read as a little-endian `u32`.
    pub fn as_u32_le(self) -> (r: u32)
        ensures
            r == le32(self.0@, 0),
    {
        read_le32(&self.0, 0)
    }

    /// Whether the tag is exactly the four bytes `tag`.
    pub fn is(&self, tag: &[u8; 4]) -> (r: bool)
        ensures
            r == (self.0@ == tag@),
    {
        let r: bool = self.0[0] == tag[0] && self.0[1] == tag[1] && self.0[2] == tag[2]
            && self.0[3] == tag[3];
        assert(r ==> self.0@ =~= tag@);
        r
    }

    /// Programmer-facing text: `Magic("$PSP")` when every byte is a visible
    /// ASCII character, `Magic([0x55, 0xaa, 0x55, 0xaa])` otherwise.
    pub fn debug_text(&self) -> (r: String)
        ensures
            r@ == magic_text(self.0@),
    {
        broadcast use crate::text::group_text;

        let mut out = String::new();
        if all_graphic(&self.0) {
            out.append("Magic(\"");
            push_quoted_chars(&self.0, &mut out);
            out.append("\")");
        } else {
            out.append("Magic([");
            push_prefixed_hex_padded(self.0[0] as u64, 2, &mut out);
            out.append(", ");
            push_prefixed_hex_padded(self.0[1] as u64, 2, &mut out);
            out.append(", ");
            push_prefixed_hex_padded(self.0[2] as u64, 2, &mut out);
            out.append(", ");
            push_prefixed_hex_padded(self.0[3] as u64, 2, &mut out);
            out.append("])");
        }
        out
    }
}

/// Programmer-facing text of a tag.
pub open spec fn magic_text(tag: Seq<u8>) -> Seq<char> {
    if forall|i: int| 0 <= i < tag.len() ==> crate::text::is_graphic(#[trigger] tag[i]) {
        "Magic(\""@ + (crate::text::quoted_chars(tag) + "\")"@)
    } else {
        "Magic(["@ + (crate::text::prefixed_hex_padded(tag[0] as nat, 2) + (", "@ + (
        crate::text::prefixed_hex_padded(tag[1] as nat, 2) + (", "@ + (
        crate::text::prefixed_hex_padded(tag[2] as nat, 2) + (", "@ + (
        crate::text::prefixed_hex_padded(tag[3] as nat, 2) + "])"@)))))))
    }
}

/// Shape of a directory, as its tag tells it.
#[derive(Copy, Clone, Debug, PartialEq, Eq, Hash, Structural)]
pub enum DirectoryFamily {
    /// `$PSP` and `$PL2`: entries of 16 bytes.
    Psp,
    /// `$BHD` and `$BL2`: entries of 24 bytes.
    Bios,
    /// `2PSP` and `2BHD`: pointers by processor generation.
    Combo,
}

/// The family that a tag names, if it names a directory at all.
pub open spec fn family_of(tag: Seq<u8>) -> Option<DirectoryFamily> {
    if tag == PSP_MAGIC@ || tag == PL2_MAGIC@ {
        Some(DirectoryFamily::Psp)
    } else if tag == BHD_MAGIC@ || tag == BL2_MAGIC@ {
        Some(DirectoryFamily::Bios)
    } else if tag == COMBO_PSP_MAGIC@ || tag == COMBO_BHD_MAGIC@ {
        Some(DirectoryFamily::Combo)
    } else {
        None
    }
}

pub fn directory_family(magic: Magic) -> (r: Option<DirectoryFamily>)
    ensures
        r == family_of(magic.0@),
{
    if magic.is(&PSP_MAGIC) || magic.is(&PL2_MAGIC) {
        Some(DirectoryFamily::Psp)
    } else if magic.is(&BHD_MAGIC) || magic.is(&BL2_MAGIC) {
        Some(DirectoryFamily::Bios)
    } else if magic.is(&COMBO_PSP_MAGIC) || magic.is(&COMBO_BHD_MAGIC) {
        Some(DirectoryFamily::Combo)
    } else {
        None
    }
}

} // verus!
