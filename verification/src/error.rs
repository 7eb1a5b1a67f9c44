//! Why a structure could not be parsed.

use vstd::prelude::*;

use crate::address::FlashOffset;
use crate::magic::{magic_text, Magic};
use crate::text::{
    dec, group_text, joined, prefixed_hex_padded, push_dec, push_prefixed_hex_padded,
};

verus! {

#[allow(inconsistent_fields)]
#[derive(Clone, Debug, PartialEq, Eq)]
pub enum ParseError {
    /// A structure needs `expected` bytes and `available` are left.
    Truncated { what: &'static str, offset: FlashOffset, expected: usize, available: usize },
    /// A structure starts with a tag that is not one of `expected`.
    BadMagic { what: &'static str, offset: FlashOffset, got: Magic, expected: &'static [Magic] },
    /// The Firmware Entry Table at `offset` has no terminator.
    FetUnterminated { offset: FlashOffset },
    /// The reserved block of the combo directory at `offset` is not zero.
    ComboReservedNonZero { offset: FlashOffset },
    /// The directory at `offset` has `count` entries and no entry `index`.
    EntryIndexOutOfRange { offset: FlashOffset, index: usize, count: usize },
}

/// The texts of the tags, as a bracketed list.
pub open spec fn magics_text(tags: Seq<Magic>) -> Seq<char> {
    "["@ + (joined(tags.map_values(|m: Magic| magic_text(m.0@)), ", "@) + "]"@)
}

/// One-line description of an error.
pub open spec fn parse_error_text(e: ParseError) -> Seq<char> {
    match e {
        ParseError::Truncated { what, offset, expected, available } => "truncated "@ + (what@ + (
        " at "@ + (prefixed_hex_padded(offset.0 as nat, 8) + (": expected "@ + (dec(
            expected as nat,
        ) + (" bytes, only "@ + (dec(available as nat) + " available"@))))))),
        ParseError::BadMagic { what, offset, got, expected } => "bad magic at "@ + (
        prefixed_hex_padded(offset.0 as nat, 8) + (": got "@ + (magic_text(got.0@) + (
        ", expected one of "@ + magics_text(expected@))))),
        ParseError::FetUnterminated { offset } => "FET at "@ + (prefixed_hex_padded(
            offset.0 as nat,
            8,
        ) + " has no terminator within the remaining bytes"@),
        ParseError::ComboReservedNonZero { offset } => "combo directory at "@ + (
        prefixed_hex_padded(offset.0 as nat, 8)
            + " has non-zero reserved bytes at +0x10..+0x20"@),
        ParseError::EntryIndexOutOfRange { offset, index, count } => "entry index "@ + (dec(
            index as nat,
        ) + (" out of range for directory at "@ + (prefixed_hex_padded(offset.0 as nat, 8) + (
        " ("@ + (dec(count as nat) + " entries)"@))))),
    }
}

fn push_magics(tags: &[Magic], out: &mut String)
    ensures
        final(out)@ == old(out)@ + magics_text(tags@),
{
    broadcast use group_text;

    out.append("[");
    let ghost start = out@;
    let ghost texts = |s: Seq<Magic>| s.map_values(|m: Magic| magic_text(m.0@));
    let mut i: usize = 0;
    assert(start + joined(texts(tags@.subrange(0, 0)), ", "@) =~= start);
    while i < tags.len()
        invariant
            i <= tags@.len(),
            texts == (|s: Seq<Magic>| s.map_values(|m: Magic| magic_text(m.0@))),
            out@ == start + joined(texts(tags@.subrange(0, i as int)), ", "@),
        decreases tags@.len() - i,
    {
        broadcast use group_text;

        if i > 0 {
            out.append(", ");
        }
        let text = tags[i].debug_text();
        out.append(text.as_str());
        i += 1;
        proof {
            let now = texts(tags@.subrange(0, i as int));
            assert(now.drop_last() =~= texts(tags@.subrange(0, i - 1)));
            assert(now.last() == magic_text(tags@[i - 1].0@));
        }
    }
    assert(tags@.subrange(0, tags@.len() as int) =~= tags@);
    out.append("]");
}

impl ParseError {
    /// One-line description for people.
    pub fn text(&self) -> (r: String)
        ensures
            r@ == parse_error_text(*self),
    {
        broadcast use group_text;

        let mut out = String::new();
        match self {
            ParseError::Truncated { what, offset, expected, available } => {
                out.append("truncated ");
                out.append(what);
                out.append(" at ");
                push_prefixed_hex_padded(offset.0, 8, &mut out);
                out.append(": expected ");
                push_dec(*expected as u64, &mut out);
                out.append(" bytes, only ");
                push_dec(*available as u64, &mut out);
                out.append(" available");
            },
            ParseError::BadMagic { what: _, offset, got, expected } => {
                out.append("bad magic at ");
                push_prefixed_hex_padded(offset.0, 8, &mut out);
                out.append(": got ");
                let text = got.debug_text();
                out.append(text.as_str());
                out.append(", expected one of ");
                push_magics(expected, &mut out);
            },
            ParseError::FetUnterminated { offset } => {
                out.append("FET at ");
                push_prefixed_hex_padded(offset.0, 8, &mut out);
                out.append(" has no terminator within the remaining bytes");
            },
            ParseError::ComboReservedNonZero { offset } => {
                out.append("combo directory at ");
                push_prefixed_hex_padded(offset.0, 8, &mut out);
                out.append(" has non-zero reserved bytes at +0x10..+0x20");
            },
            ParseError::EntryIndexOutOfRange { offset, index, count } => {
                out.append("entry index ");
                push_dec(*index as u64, &mut out);
                out.append(" out of range for directory at ");
                push_prefixed_hex_padded(offset.0, 8, &mut out);
                out.append(" (");
                push_dec(*count as u64, &mut out);
                out.append(" entries)");
            },
        }
        out
    }
}

} // verus!
