//! Fixed-width integers as they are laid out in a firmware image.

use vstd::prelude::*;

verus! {

/// The little-endian `u16` that starts at index `at` of `s`.
pub open spec fn le16(s: Seq<u8>, at: int) -> u16 {
    (s[at] + s[at + 1] * 0x100) as u16
}

/// The little-endian `u32` that starts at index `at` of `s`.
pub open spec fn le32(s: Seq<u8>, at: int) -> u32 {
    (s[at] + s[at + 1] * 0x100 + s[at + 2] * 0x1_0000 + s[at + 3] * 0x100_0000) as u32
}

/// The big-endian `u32` that starts at index `at` of `s`.
pub open spec fn be32(s: Seq<u8>, at: int) -> u32 {
    (s[at + 3] + s[at + 2] * 0x100 + s[at + 1] * 0x1_0000 + s[at] * 0x100_0000) as u32
}

/// The little-endian `u64` that starts at index `at` of `s`.
pub open spec fn le64(s: Seq<u8>, at: int) -> u64 {
    (le32(s, at) + le32(s, at + 4) * 0x1_0000_0000) as u64
}

/// The four bytes of `v`, least significant first.
pub open spec fn le32_bytes(v: u32) -> Seq<u8> {
    seq![
        (v % 0x100) as u8,
        (v / 0x100 % 0x100) as u8,
        (v / 0x1_0000 % 0x100) as u8,
        (v / 0x100_0000) as u8,
    ]
}

/// Reading back the four bytes of a `u32` gives the `u32`.
pub proof fn lemma_le32_round_trip(v: u32)
    ensures
        le32(le32_bytes(v), 0) == v,
{
    let high = v as int / 0x100;
    let higher = high / 0x100;
    assert(v as int == v as int % 0x100 + 0x100 * high);
    assert(high == high % 0x100 + 0x100 * higher);
    assert(v as int / 0x1_0000 == higher);
    assert(higher == higher % 0x100 + 0x100 * (higher / 0x100));
    assert(v as int / 0x100_0000 == higher / 0x100);
    let b = le32_bytes(v);
    assert(b[0] == v as int % 0x100);
    assert(b[1] == high % 0x100);
    assert(b[2] == higher % 0x100);
    assert(b[3] == higher / 0x100);
}

pub fn read_le16(s: &[u8], at: usize) -> (r: u16)
    requires
        at + 2 <= s@.len(),
    ensures
        r == le16(s@, at as int),
{
    s[at] as u16 + s[at + 1] as u16 * 0x100
}

pub fn read_le32(s: &[u8], at: usize) -> (r: u32)
    requires
        at + 4 <= s@.len(),
    ensures
        r == le32(s@, at as int),
{
    s[at] as u32 + s[at + 1] as u32 * 0x100 + s[at + 2] as u32 * 0x1_0000 + s[at + 3] as u32
        * 0x100_0000
}

pub fn read_be32(s: &[u8], at: usize) -> (r: u32)
    requires
        at + 4 <= s@.len(),
    ensures
        r == be32(s@, at as int),
{
    assert(s.len() == s@.len());
    s[at + 3] as u32 + s[at + 2] as u32 * 0x100 + s[at + 1] as u32 * 0x1_0000 + s[at] as u32
        * 0x100_0000
}

pub fn read_le64(s: &[u8], at: usize) -> (r: u64)
    requires
        at + 8 <= s@.len(),
    ensures
        r == le64(s@, at as int),
{
    assert(s.len() == s@.len());
    let low: u64 = read_le32(s, at) as u64;
    let high: u64 = read_le32(s, at + 4) as u64;
    low + high * 0x1_0000_0000
}

pub fn write_le32(v: u32) -> (r: Vec<u8>)
    ensures
        r@ == le32_bytes(v),
{
    vec![
        (v % 0x100) as u8,
        (v / 0x100 % 0x100) as u8,
        (v / 0x1_0000 % 0x100) as u8,
        (v / 0x100_0000) as u8,
    ]
}

/// The four bytes of `s` from index `at` on.
pub fn read_array4(s: &[u8], at: usize) -> (r: [u8; 4])
    requires
        at + 4 <= s@.len(),
    ensures
        r@ == s@.subrange(at as int, at + 4),
{
    let r: [u8; 4] = [s[at], s[at + 1], s[at + 2], s[at + 3]];
    assert(r@ =~= s@.subrange(at as int, at + 4));
    r
}

/// The sixteen bytes of `s` from index `at` on.
pub fn read_array16(s: &[u8], at: usize) -> (r: [u8; 16])
    requires
        at + 16 <= s@.len(),
    ensures
        r@ == s@.subrange(at as int, at + 16),
{
    let r: [u8; 16] = [
        s[at],
        s[at + 1],
        s[at + 2],
        s[at + 3],
        s[at + 4],
        s[at + 5],
        s[at + 6],
        s[at + 7],
        s[at + 8],
        s[at + 9],
        s[at + 10],
        s[at + 11],
        s[at + 12],
        s[at + 13],
        s[at + 14],
        s[at + 15],
    ];
    assert(r@ =~= s@.subrange(at as int, at + 16));
    r
}

} // verus!
