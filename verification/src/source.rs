//! Byte windows that remember where in the input they come from.

use bytes::Bytes;
use core::ops::Range;
use vstd::prelude::*;

use crate::address::FlashOffset;
use crate::text::{dec, group_text, prefixed_hex_padded, push_dec, push_prefixed_hex_padded};

verus! {

/// `bytes::Bytes`, a reference-counted run of bytes.
#[verifier::external_type_specification]
#[verifier::external_body]
pub struct ExBytes(bytes::Bytes);

/// The bytes that a `bytes::Bytes` holds.
pub uninterp spec fn held(b: bytes::Bytes) -> Seq<u8>;

/// `bytes::Bytes::from(Vec<u8>)`: the handle holds the bytes of the vector.
#[verifier::external_body]
pub(crate) fn bytes_from_vec(v: Vec<u8>) -> (r: Bytes)
    ensures
        held(r) == v@,
{
    Bytes::from(v)
}

/// `bytes::Bytes::len`: the number of bytes held.
#[verifier::external_body]
pub(crate) fn bytes_len(b: &Bytes) -> (r: usize)
    ensures
        r == held(*b).len(),
{
    b.len()
}

/// `<bytes::Bytes as Deref>::deref`: the bytes held, as a slice.
#[verifier::external_body]
pub(crate) fn bytes_as_slice(b: &Bytes) -> (r: &[u8])
    ensures
        r@ == held(*b),
{
    b
}

/// `bytes::Bytes::slice`: a handle to the bytes from `start` up to `end`. It
/// panics when the range does not lie within the handle.
#[verifier::external_body]
pub(crate) fn bytes_slice(b: &Bytes, start: usize, end: usize) -> (r: Bytes)
    requires
        start <= end <= held(*b).len(),
    ensures
        held(r) == held(*b).subrange(start as int, end as int),
{
    b.slice(start..end)
}

/// `<bytes::Bytes as Clone>::clone`: another handle to the same bytes.
#[verifier::external_body]
pub(crate) fn bytes_clone(b: &Bytes) -> (r: Bytes)
    ensures
        held(r) == held(*b),
{
    b.clone()
}

/// What a window shows: some bytes, and the input offset of the first.
pub struct Window {
    pub bytes: Seq<u8>,
    pub offset: int,
}

impl Window {
    /// The input offset just behind the last byte.
    pub open spec fn end(self) -> int {
        self.offset + self.bytes.len()
    }

    /// The part of the window from index `start` up to index `end`.
    pub open spec fn part(self, start: int, end: int) -> Window {
        Window { bytes: self.bytes.subrange(start, end), offset: self.offset + start }
    }

    /// Whether the `len` bytes at input offset `at` are all in the window.
    pub open spec fn covers(self, at: int, len: int) -> bool {
        self.offset <= at && at + len <= self.end()
    }

    /// The `len` bytes at input offset `at`.
    pub open spec fn at(self, at: int, len: int) -> Window {
        self.part(at - self.offset, at - self.offset + len)
    }
}

/// A run of bytes together with the input offset of its first byte. Every
/// parsed structure keeps one, so that an editor knows what to overwrite.
#[derive(Debug)]
pub struct SourceBytes {
    bytes: Bytes,
    flash_offset: u64,
}

impl View for SourceBytes {
    type V = Window;

    closed spec fn view(&self) -> Window {
        Window { bytes: held(self.bytes), offset: self.flash_offset as int }
    }
}

impl SourceBytes {
    /// Indices fit in a machine word. Offsets inside a window, and the one
    /// behind it, fit in 64 bits.
    #[verifier::type_invariant]
    pub open spec fn fits(self) -> bool {
        &&& self@.bytes.len() <= usize::MAX
        &&& 0 <= self@.offset
        &&& self@.end() <= u64::MAX
    }

    /// A window on a whole input.
    pub fn from_blob(blob: Vec<u8>) -> (r: Self)
        ensures
            r@ == (Window { bytes: blob@, offset: 0 }),
    {
        assert(blob.len() == blob@.len());
        SourceBytes { bytes: bytes_from_vec(blob), flash_offset: 0 }
    }

    /// A window whose first byte has a given input offset.
    pub fn with_offset(blob: Vec<u8>, offset: FlashOffset) -> (r: Self)
        requires
            offset.0 + blob@.len() <= u64::MAX,
        ensures
            r@ == (Window { bytes: blob@, offset: offset.0 as int }),
    {
        assert(blob.len() == blob@.len());
        SourceBytes { bytes: bytes_from_vec(blob), flash_offset: offset.0 }
    }

    /// Input offset of the first byte.
    pub fn offset(&self) -> (r: FlashOffset)
        ensures
            r.0 == self@.offset,
            self@.end() <= u64::MAX,
    {
        proof {
            use_type_invariant(self);
        }
        FlashOffset(self.flash_offset)
    }

    pub fn len(&self) -> (r: usize)
        ensures
            r == self@.bytes.len(),
            0 <= self@.offset,
            self@.end() <= u64::MAX,
    {
        proof {
            use_type_invariant(self);
        }
        bytes_len(&self.bytes)
    }

    pub fn is_empty(&self) -> (r: bool)
        ensures
            r == (self@.bytes.len() == 0),
    {
        bytes_len(&self.bytes) == 0
    }

    /// The input offsets of the bytes, and the one behind the last.
    pub fn flash_range(&self) -> (r: Range<u64>)
        ensures
            r.start == self@.offset,
            r.end == self@.end(),
    {
        proof {
            use_type_invariant(self);
        }
        let end: u64 = self.flash_offset + bytes_len(&self.bytes) as u64;
        Range { start: self.flash_offset, end }
    }

    pub fn as_bytes(&self) -> (r: &[u8])
        ensures
            r@ == self@.bytes,
            self@.bytes.len() <= usize::MAX,
            0 <= self@.offset,
            self@.end() <= u64::MAX,
    {
        proof {
            use_type_invariant(self);
        }
        bytes_as_slice(&self.bytes)
    }

    /// The reference-counted handle itself.
    pub fn bytes(&self) -> (r: &Bytes)
        ensures
            held(*r) == self@.bytes,
    {
        &self.bytes
    }

    /// The part given by a range of indices; `None` when the range runs
    /// backwards or does not lie in the window.
    pub fn subslice(&self, range: Range<usize>) -> (r: Option<Self>)
        ensures
            r is Some <==> range.start <= range.end <= self@.bytes.len(),
            r matches Some(part) ==> part@ == self@.part(range.start as int, range.end as int),
    {
        proof {
            use_type_invariant(self);
        }
        if range.start > range.end || range.end > self.len() {
            return None;
        }
        let flash_offset: u64 = self.flash_offset + range.start as u64;
        Some(SourceBytes { bytes: bytes_slice(&self.bytes, range.start, range.end), flash_offset })
    }

    /// The part given by a range of input offsets.
    pub fn subslice_at(&self, abs: Range<u64>) -> (r: Option<Self>)
        ensures
            r is Some <==> self@.offset <= abs.start <= abs.end <= self@.end(),
            r matches Some(part) ==> part@ == self@.at(abs.start as int, abs.end - abs.start),
    {
        proof {
            use_type_invariant(self);
        }
        let our = self.flash_range();
        if abs.start < our.start || abs.end > our.end || abs.start > abs.end {
            return None;
        }
        let start: usize = (abs.start - our.start) as usize;
        let end: usize = (abs.end - our.start) as usize;
        self.subslice(Range { start, end })
    }

    /// The `len` bytes from index `start` on.
    pub fn slice(&self, start: usize, len: usize) -> (r: Option<Self>)
        ensures
            r is Some <==> start + len <= self@.bytes.len(),
            r matches Some(part) ==> part@ == self@.part(start as int, start + len),
    {
        proof {
            use_type_invariant(self);
        }
        match start.checked_add(len) {
            Some(end) => self.subslice(Range { start, end }),
            None => None,
        }
    }

    /// Whether both windows show the same bytes at the same offset.
    pub fn same(&self, other: &SourceBytes) -> (r: bool)
        ensures
            r == (self@ == other@),
    {
        self.flash_offset == other.flash_offset && equal_bytes(self.as_bytes(), other.as_bytes())
    }

    /// Programmer-facing text that names the offset and the length.
    pub fn debug_text(&self) -> (r: String)
        ensures
            r@ == "SourceBytes { offset: FlashOffset("@ + (prefixed_hex_padded(
                self@.offset as nat,
                8,
            ) + ("), len: "@ + (dec(self@.bytes.len()) + " }"@))),
    {
        broadcast use group_text;

        let mut out = String::new();
        out.append("SourceBytes { offset: FlashOffset(");
        push_prefixed_hex_padded(self.flash_offset, 8, &mut out);
        out.append("), len: ");
        push_dec(self.len() as u64, &mut out);
        out.append(" }");
        out
    }
}

impl Clone for SourceBytes {
    fn clone(&self) -> (r: Self)
        ensures
            r@ == self@,
    {
        proof {
            use_type_invariant(self);
        }
        SourceBytes { bytes: bytes_clone(&self.bytes), flash_offset: self.flash_offset }
    }
}

impl PartialEq for SourceBytes {
    /// Windows are equal when they show the same bytes at the same offset;
    /// it does not matter whether they share memory.
    fn eq(&self, other: &Self) -> (r: bool) {
        self.same(other)
    }
}

impl Eq for SourceBytes {

}

impl vstd::std_specs::cmp::PartialEqSpecImpl for SourceBytes {
    open spec fn obeys_eq_spec() -> bool {
        true
    }

    open spec fn eq_spec(&self, other: &Self) -> bool {
        self@ == other@
    }
}

/// Whether two runs of bytes are the same.
pub fn equal_bytes(a: &[u8], b: &[u8]) -> (r: bool)
    ensures
        r == (a@ == b@),
{
    if a.len() != b.len() {
        return false;
    }
    let mut i: usize = 0;
    while i < a.len()
        invariant
            i <= a@.len(),
            a@.len() == b@.len(),
            forall|j: int| 0 <= j < i ==> a@[j] == b@[j],
        decreases a@.len() - i,
    {
        if a[i] != b[i] {
            assert(a@[i as int] != b@[i as int]);
            return false;
        }
        i += 1;
    }
    assert(a@ =~= b@);
    true
}

/// A vector of the same bytes.
pub fn copy_of(s: &[u8]) -> (r: Vec<u8>)
    ensures
        r@ == s@,
{
    let mut out: Vec<u8> = Vec::new();
    out.extend_from_slice(s);
    assert(out@ =~= s@);
    out
}

/// A part of a part is a part of the whole.
pub proof fn lemma_part_of_part(w: Window, a: int, b: int, c: int, d: int)
    requires
        0 <= a <= b <= w.bytes.len(),
        0 <= c <= d <= b - a,
    ensures
        w.part(a, b).part(c, d) == w.part(a + c, a + d),
{
    assert(w.part(a, b).part(c, d).bytes =~= w.part(a + c, a + d).bytes);
}

} // verus!
