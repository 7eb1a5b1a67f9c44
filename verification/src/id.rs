//! Identifiers of the wire format as types of their own.

use vstd::prelude::*;

use crate::magic::{DirectoryFamily, Magic};

verus! {

/// The `type` byte of a directory entry.
#[derive(Copy, Clone, Debug, PartialEq, Eq, Hash, PartialOrd, Ord, Default, Structural)]
pub struct EntryType(pub u8);

impl EntryType {
    pub fn new(b: u8) -> (r: Self)
        ensures
            r == EntryType(b),
    {
        EntryType(b)
    }

    pub fn get(self) -> (r: u8)
        ensures
            r == self.0,
    {
        self.0
    }

    /// Types whose body is another directory.
    pub open spec fn points_to_directory(self) -> bool {
        self.0 == 0x40 || self.0 == 0x49 || self.0 == 0x70
    }

    /// Types whose body is a record that leads to another directory.
    pub open spec fn points_to_indirection(self) -> bool {
        self.0 == 0x48 || self.0 == 0x4A
    }

    /// The type whose payload is the directory record itself.
    pub open spec fn soft_fuse(self) -> bool {
        self.0 == 0x0B
    }

    /// Types whose body is a public key.
    pub open spec fn holds_pubkey(self) -> bool {
        set![0x00u8, 0x05, 0x09, 0x0A, 0x0D, 0x43, 0x4E, 0x53, 0x81, 0x97, 0xAD].contains(self.0)
    }

    /// Types whose body is a store of keys.
    pub open spec fn holds_key_store(self) -> bool {
        self.0 == 0x50 || self.0 == 0x51
    }

    /// Types whose body has no header in front.
    pub open spec fn headerless(self) -> bool {
        set![
            0x04u8, 0x06, 0x07, 0x0B, 0x1A, 0x21, 0x22, 0x38, 0x40, 0x46, 0x48, 0x49, 0x4A, 0x54,
            0x5F, 0x60, 0x61, 0x62, 0x63, 0x66, 0x67, 0x68, 0x69, 0x6D, 0x70, 0x7C, 0x82, 0x84,
            0x8D, 0x98,
        ].contains(self.0)
    }

    pub fn is_secondary_directory_pointer(self) -> (r: bool)
        ensures
            r == self.points_to_directory(),
    {
        matches!(self.0, 0x40 | 0x49 | 0x70)
    }

    pub fn is_tertiary_directory_pointer(self) -> (r: bool)
        ensures
            r == self.points_to_indirection(),
    {
        matches!(self.0, 0x48 | 0x4A)
    }

    pub fn is_soft_fuse_chain(self) -> (r: bool)
        ensures
            r == self.soft_fuse(),
    {
        self.0 == 0x0B
    }

    pub fn is_pubkey(self) -> (r: bool)
        ensures
            r == self.holds_pubkey(),
    {
        matches!(
            self.0,
            0x00 | 0x05 | 0x09 | 0x0A | 0x0D | 0x43 | 0x4E | 0x53 | 0x81 | 0x97 | 0xAD
        )
    }

    pub fn is_key_store(self) -> (r: bool)
        ensures
            r == self.holds_key_store(),
    {
        matches!(self.0, 0x50 | 0x51)
    }

    /// Whether the `size` field of such an entry says nothing.
    pub fn has_no_size(self) -> (r: bool)
        ensures
            r == (self.0 == 0x0B),
    {
        self.0 == 0x0B
    }

    pub fn has_no_header(self) -> (r: bool)
        ensures
            r == self.headerless(),
    {
        matches!(
            self.0,
            0x04 | 0x06 | 0x07 | 0x0B | 0x1A | 0x21 | 0x22 | 0x38 | 0x40 | 0x46 | 0x48 | 0x49
                | 0x4A | 0x54 | 0x5F | 0x60 | 0x61 | 0x62 | 0x63 | 0x66 | 0x67 | 0x68 | 0x69 | 0x6D
                | 0x70 | 0x7C | 0x82 | 0x84 | 0x8D | 0x98
        )
    }

    pub fn is_wrapped_ikek(self) -> (r: bool)
        ensures
            r == (self.0 == 0x21),
    {
        self.0 == 0x21
    }

    /// The BIOS entry that is allocated when the machine runs.
    pub fn is_bios_apob(self) -> (r: bool)
        ensures
            r == (self.0 == 0x61),
    {
        self.0 == 0x61
    }
}

/// Handle of a directory in walk order.
#[derive(Copy, Clone, Debug, PartialEq, Eq, Hash, PartialOrd, Ord, Default, Structural)]
pub struct DirectoryId(pub u32);

impl DirectoryId {
    pub fn new(n: u32) -> (r: Self)
        ensures
            r == DirectoryId(n),
    {
        DirectoryId(n)
    }

    pub fn get(self) -> (r: u32)
        ensures
            r == self.0,
    {
        self.0
    }
}

/// A directory tag with the family it names.
#[derive(Copy, Clone, Debug, PartialEq, Eq, Hash)]
pub struct DirectoryKind {
    pub magic: Magic,
    pub family: DirectoryFamily,
}

/// Processor generation tag of a combo entry. The low byte is a revision and
/// does not take part in matching.
#[derive(Copy, Clone, Debug, PartialEq, Eq, Hash, PartialOrd, Ord, Structural)]
pub struct PspGenerationId(pub u32);

/// The generation that the three high bytes of a tag name.
pub open spec fn generation_of(high24: u32) -> Option<ZenGeneration> {
    if high24 == 0xBC0900 || high24 == 0xBC0A00 {
        Some(ZenGeneration::Zen1)
    } else if high24 == 0xBC0B05 || high24 == 0xBC0A01 {
        Some(ZenGeneration::Zen2)
    } else if high24 == 0xBC0C01 || high24 == 0xBC0C00 {
        Some(ZenGeneration::Zen3)
    } else if high24 == 0xBC0D04 || high24 == 0xBC0D0B {
        Some(ZenGeneration::Zen4)
    } else if high24 == 0xBC0D03 {
        Some(ZenGeneration::Zen4Or5)
    } else {
        None
    }
}

impl PspGenerationId {
    pub fn new(raw: u32) -> (r: Self)
        ensures
            r == PspGenerationId(raw),
    {
        PspGenerationId(raw)
    }

    pub fn get(self) -> (r: u32)
        ensures
            r == self.0,
    {
        self.0
    }

    /// The three high bytes.
    pub fn high24(self) -> (r: u32)
        ensures
            r == self.0 / 0x100,
    {
        self.0 / 0x100
    }

    pub fn zen_generation(self) -> (r: Option<ZenGeneration>)
        ensures
            r == generation_of(self.0 / 0x100),
    {
        match self.high24() {
            0xBC0900 | 0xBC0A00 => Some(ZenGeneration::Zen1),
            0xBC0B05 | 0xBC0A01 => Some(ZenGeneration::Zen2),
            0xBC0C01 | 0xBC0C00 => Some(ZenGeneration::Zen3),
            0xBC0D04 | 0xBC0D0B => Some(ZenGeneration::Zen4),
            0xBC0D03 => Some(ZenGeneration::Zen4Or5),
            _ => None,
        }
    }
}

/// The revision in the low byte of a tag does not change the generation.
pub proof fn lemma_generation_ignores_revision(high24: u32, revision: u8)
    requires
        high24 < 0x100_0000,
    ensures
        generation_of(((high24 * 0x100 + revision) as u32) / 0x100) == generation_of(high24),
{
}

#[derive(Copy, Clone, Debug, PartialEq, Eq, Hash, Structural)]
pub enum ZenGeneration {
    Zen1,
    Zen2,
    Zen3,
    Zen4,
    Zen4Or5,
}

/// The generations by the bytes of a tag, the most significant first: `BC`, then
/// two bytes that tell the generation. Any other tag names none.
pub proof fn lemma_generation_bytes(top: u8, family: u8, model: u8)
    ensures
        ({
            let g = generation_of((0x1_0000 * top + 0x100 * family + model) as u32);
            let known = top == 0xBC;
            &&& g == Some(ZenGeneration::Zen1) <==> known && (family == 0x09 && model == 0x00
                || family == 0x0A && model == 0x00)
            &&& g == Some(ZenGeneration::Zen2) <==> known && (family == 0x0B && model == 0x05
                || family == 0x0A && model == 0x01)
            &&& g == Some(ZenGeneration::Zen3) <==> known && family == 0x0C && (model == 0x00
                || model == 0x01)
            &&& g == Some(ZenGeneration::Zen4) <==> known && family == 0x0D && (model == 0x04
                || model == 0x0B)
            &&& g == Some(ZenGeneration::Zen4Or5) <==> known && family == 0x0D && model == 0x03
        }),
{
}

/// What the types of entries say of themselves, by their numbers.
pub proof fn lemma_types_by_number(t: u8)
    ensures
        EntryType(t).points_to_directory() <==> t == 0x40 || t == 0x49 || t == 0x70,
        EntryType(t).points_to_indirection() <==> t == 0x48 || t == 0x4A,
        EntryType(t).soft_fuse() <==> t == 0x0B,
        EntryType(t).holds_key_store() <==> 0x50 <= t && t <= 0x51,
        EntryType(t).holds_pubkey() <==> t == 0x00 || t == 0x05 || t == 0x09 || t == 0x0A || t
            == 0x0D || t == 0x43 || t == 0x4E || t == 0x53 || t == 0x81 || t == 0x97 || t == 0xAD,
        EntryType(t).headerless() <==> t == 0x04 || t == 0x06 || t == 0x07 || t == 0x0B || t
            == 0x1A || t == 0x21 || t == 0x22 || t == 0x38 || t == 0x40 || t == 0x46 || (0x48 <= t
            && t <= 0x4A) || t == 0x54 || (0x5F <= t && t <= 0x63) || (0x66 <= t && t <= 0x69)
            || t == 0x6D || t == 0x70 || t == 0x7C || t == 0x82 || t == 0x84 || t == 0x8D || t
            == 0x98,
{
}

} // verus!
