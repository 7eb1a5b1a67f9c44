//! An editor that overwrites parts of an input and leaves the rest as it is.

use bytes::Bytes;
use vstd::prelude::*;

use crate::address::FlashOffset;
use crate::entry::Entry;
use crate::source::{
    bytes_as_slice, bytes_clone, bytes_from_vec, bytes_len, copy_of, held, SourceBytes, Window,
};
use crate::text::{dec, group_text, prefixed_hex_padded, push_dec, push_prefixed_hex_padded};

verus! {

/// Why a patch was refused.
#[derive(Clone, Debug, PartialEq, Eq)]
pub enum PatchError {
    /// The patch does not lie in the input.
    OutOfBounds {
        offset: FlashOffset,
        len: usize,
        blob_start: FlashOffset,
        blob_end: FlashOffset,
    },
    /// The patch overlaps an earlier one.
    Overlap {
        start: FlashOffset,
        end: FlashOffset,
        existing_start: FlashOffset,
        existing_end: FlashOffset,
    },
    /// The replacement is not as long as what it replaces.
    BodyLengthMismatch { expected: usize, got: usize },
}

/// One-line description of a refusal.
pub open spec fn patch_error_text(e: PatchError) -> Seq<char> {
    match e {
        PatchError::OutOfBounds { offset, len, blob_start, blob_end } => "patch at "@ + (
        prefixed_hex_padded(offset.0 as nat, 8) + (" length "@ + (dec(len as nat) + (
        " extends past end of blob ("@ + (prefixed_hex_padded(blob_end.0 as nat, 8) + (
        ") (blob starts at "@ + (prefixed_hex_padded(blob_start.0 as nat, 8) + ")"@))))))),
        PatchError::Overlap { start, end, existing_start, existing_end } => "patch at "@ + (
        prefixed_hex_padded(start.0 as nat, 8) + (".."@ + (prefixed_hex_padded(end.0 as nat, 8) + (
        " overlaps existing patch at "@ + (prefixed_hex_padded(existing_start.0 as nat, 8) + (".."@
            + prefixed_hex_padded(existing_end.0 as nat, 8))))))),
        PatchError::BodyLengthMismatch { expected, got } => "entry-body replacement length "@ + (
        dec(got as nat) + (" != original "@ + dec(expected as nat))),
    }
}

impl PatchError {
    pub fn text(&self) -> (r: String)
        ensures
            r@ == patch_error_text(*self),
    {
        broadcast use group_text;

        let mut out = String::new();
        match self {
            PatchError::OutOfBounds { offset, len, blob_start, blob_end } => {
                out.append("patch at ");
                push_prefixed_hex_padded(offset.0, 8, &mut out);
                out.append(" length ");
                push_dec(*len as u64, &mut out);
                out.append(" extends past end of blob (");
                push_prefixed_hex_padded(blob_end.0, 8, &mut out);
                out.append(") (blob starts at ");
                push_prefixed_hex_padded(blob_start.0, 8, &mut out);
                out.append(")");
            },
            PatchError::Overlap { start, end, existing_start, existing_end } => {
                out.append("patch at ");
                push_prefixed_hex_padded(start.0, 8, &mut out);
                out.append("..");
                push_prefixed_hex_padded(end.0, 8, &mut out);
                out.append(" overlaps existing patch at ");
                push_prefixed_hex_padded(existing_start.0, 8, &mut out);
                out.append("..");
                push_prefixed_hex_padded(existing_end.0, 8, &mut out);
            },
            PatchError::BodyLengthMismatch { expected, got } => {
                out.append("entry-body replacement length ");
                push_dec(*got as u64, &mut out);
                out.append(" != original ");
                push_dec(*expected as u64, &mut out);
            },
        }
        out
    }
}

/// Bytes that are to stand at an input offset.
pub struct Patch {
    pub at: int,
    pub bytes: Seq<u8>,
}

impl Patch {
    /// The input offset behind the last byte.
    pub open spec fn end(self) -> int {
        self.at + self.bytes.len()
    }

    /// Whether the byte at input offset `at` is replaced.
    pub open spec fn covers(self, at: int) -> bool {
        self.at <= at < self.end()
    }
}

/// An input and the patches recorded for it.
pub struct Edits {
    pub original: Window,
    pub patches: Seq<Patch>,
}

impl Edits {
    /// Whether the patches lie in the input, are not empty, and stand in
    /// ascending order without overlap.
    pub open spec fn ordered(self) -> bool {
        &&& forall|i: int|
            0 <= i < self.patches.len() ==> (#[trigger] self.patches[i]).bytes.len() > 0
                && self.original.covers(self.patches[i].at, self.patches[i].bytes.len() as int)
        &&& forall|i: int, j: int|
            0 <= i < j < self.patches.len() ==> (#[trigger] self.patches[i]).end() <= (
            #[trigger] self.patches[j]).at
    }

    /// Whether a patch covers the byte at input offset `at`.
    pub open spec fn touches(self, at: int) -> bool {
        exists|k: int| 0 <= k < self.patches.len() && (#[trigger] self.patches[k]).covers(at)
    }

    /// Whether patch `i` is the one that stands in the way of a patch from
    /// `start` up to `end`: the first that starts in there, or, when none
    /// does, the one that reaches in from before.
    pub open spec fn obstacle(self, i: int, start: int, end: int) -> bool {
        &&& 0 <= i < self.patches.len()
        &&& {
            ||| start <= self.patches[i].at < end && forall|j: int|
                0 <= j < i ==> (#[trigger] self.patches[j]).at < start
            ||| self.patches[i].at < start < self.patches[i].end() && forall|j: int|
                0 <= j < self.patches.len() ==> !(start <= (#[trigger] self.patches[j]).at < end)
        }
    }

    /// Whether a patch from `start` up to `end` would overlap another.
    pub open spec fn obstructed(self, start: int, end: int) -> bool {
        exists|i: int|
            0 <= i < self.patches.len() && (#[trigger] self.patches[i]).at < end && start
                < self.patches[i].end()
    }

    /// Whether `after` are these edits and one more patch, in its place.
    pub open spec fn extended(self, after: Edits, patch: Patch) -> bool {
        &&& after.original == self.original
        &&& exists|k: int|
            0 <= k <= self.patches.len() && after.patches == #[trigger] self.patches.insert(
                k,
                patch,
            ) && after.ordered()
    }

    /// Whether `image` is the input with the patches applied: each patch
    /// stands in its place, and every other byte is as it was.
    pub open spec fn renders(self, image: Seq<u8>) -> bool {
        &&& image.len() == self.original.bytes.len()
        &&& forall|k: int, j: int|
            0 <= k < self.patches.len() && 0 <= j < self.patches[k].bytes.len()
                ==> image[self.patches[k].at - self.original.offset + j] == (
            #[trigger] self.patches[k].bytes[j])
        &&& forall|i: int|
            0 <= i < image.len() && !self.touches(self.original.offset + i)
                ==> #[trigger] image[i] == self.original.bytes[i]
    }
}

/// Replacement bytes and where they go.
#[derive(Debug)]
struct StoredPatch {
    at: u64,
    bytes: Bytes,
}

impl StoredPatch {
    spec fn patch(self) -> Patch {
        Patch { at: self.at as int, bytes: held(self.bytes) }
    }

    fn duplicate(&self) -> (r: Self)
        ensures
            r.patch() == self.patch(),
    {
        StoredPatch { at: self.at, bytes: bytes_clone(&self.bytes) }
    }
}

spec fn stored(patches: Seq<StoredPatch>) -> Seq<Patch> {
    patches.map_values(|p: StoredPatch| p.patch())
}

/// An editor of one input. It records patches and renders the result.
#[derive(Debug)]
pub struct BlobEditor {
    original: SourceBytes,
    patches: Vec<StoredPatch>,
}

impl View for BlobEditor {
    type V = Edits;

    closed spec fn view(&self) -> Edits {
        Edits { original: self.original@, patches: stored(self.patches@) }
    }
}

impl Clone for BlobEditor {
    fn clone(&self) -> (r: Self)
        ensures
            r@ == self@,
    {
        proof {
            use_type_invariant(self);
        }
        let mut patches: Vec<StoredPatch> = Vec::new();
        let mut i: usize = 0;
        while i < self.patches.len()
            invariant
                i <= self.patches@.len(),
                stored(patches@) == stored(self.patches@).take(i as int),
            decreases self.patches@.len() - i,
        {
            let ghost before = patches@;
            patches.push(self.patches[i].duplicate());
            assert(stored(patches@) =~= stored(before).push(stored(self.patches@)[i as int]));
            assert(stored(patches@) =~= stored(self.patches@).take(i + 1));
            i += 1;
        }
        assert(stored(patches@) =~= stored(self.patches@));
        BlobEditor { original: self.original.clone(), patches }
    }
}

impl BlobEditor {
    /// Patches ascend and do not overlap.
    #[verifier::type_invariant]
    pub open spec fn keeps_order(self) -> bool {
        self@.ordered()
    }

    /// An editor without patches.
    pub fn from_blob(blob: SourceBytes) -> (r: Self)
        ensures
            r@ == (Edits { original: blob@, patches: Seq::empty() }),
    {
        let patches: Vec<StoredPatch> = Vec::new();
        assert(stored(patches@) =~= Seq::<Patch>::empty());
        BlobEditor { original: blob, patches }
    }

    pub fn original(&self) -> (r: &SourceBytes)
        ensures
            r@ == self@.original,
    {
        &self.original
    }

    /// Whether no patch has been recorded.
    pub fn is_clean(&self) -> (r: bool)
        ensures
            r == (self@.patches.len() == 0),
            self@.ordered(),
    {
        proof {
            use_type_invariant(self);
        }
        self.patches.len() == 0
    }

    pub fn patch_count(&self) -> (r: usize)
        ensures
            r == self@.patches.len(),
    {
        self.patches.len()
    }

    /// The patches with their offsets, in ascending order.
    pub fn patches(&self) -> (r: Vec<(FlashOffset, &[u8])>)
        ensures
            self@.ordered(),
            r@.len() == self@.patches.len(),
            forall|i: int|
                0 <= i < r@.len() ==> (#[trigger] r@[i]).0.0 == self@.patches[i].at && r@[i].1@
                    == self@.patches[i].bytes,
    {
        proof {
            use_type_invariant(self);
        }
        let mut out: Vec<(FlashOffset, &[u8])> = Vec::new();
        while out.len() < self.patches.len()
            invariant
                out@.len() <= self.patches@.len(),
                forall|i: int|
                    0 <= i < out@.len() ==> (#[trigger] out@[i]).0.0 == self@.patches[i].at
                        && out@[i].1@ == self@.patches[i].bytes,
            decreases self.patches@.len() - out@.len(),
        {
            let p = &self.patches[out.len()];
            assert(stored(self.patches@)[out@.len() as int] == p.patch());
            out.push((FlashOffset(p.at), bytes_as_slice(&p.bytes)));
        }
        out
    }

    /// Record that `bytes` are to stand at `offset`. An empty replacement is
    /// accepted and records nothing; a refused one changes nothing.
    pub fn patch(&mut self, offset: FlashOffset, bytes: Vec<u8>) -> (r: Result<(), PatchError>)
        ensures
            old(self)@.ordered(),
            final(self)@.ordered(),
            patched(old(self)@, final(self)@, offset.0 as int, bytes@, r),
    {
        proof {
            use_type_invariant(&*self);
        }
        let ghost edits = self@;
        let len: usize = bytes.len();
        if len == 0 {
            return Ok(());
        }
        let start: u64 = offset.0;
        let blob = self.original.flash_range();
        let out_of_bounds = PatchError::OutOfBounds {
            offset,
            len,
            blob_start: FlashOffset(blob.start),
            blob_end: FlashOffset(blob.end),
        };
        if start < blob.start || start > blob.end || len as u64 > blob.end - start {
            return Err(out_of_bounds);
        }
        let end: u64 = start + len as u64;
        let mut place: usize = 0;
        while place < self.patches.len() && self.patches[place].at < start
            invariant
                place <= self.patches@.len(),
                self@.patches == stored(self.patches@),
                forall|j: int| 0 <= j < place ==> (#[trigger] self@.patches[j]).at < start,
            decreases self.patches@.len() - place,
        {
            assert(self@.patches[place as int].at == self.patches@[place as int].at);
            place += 1;
        }
        if place < self.patches.len() {
            assert(self@.patches[place as int] == self.patches@[place as int].patch());
            let next = &self.patches[place];
            if next.at < end {
                assert(edits.obstacle(place as int, start as int, end as int));
                let next_end: u64 = next.at + bytes_len(&next.bytes) as u64;
                return Err(
                    PatchError::Overlap {
                        start: offset,
                        end: FlashOffset(end),
                        existing_start: FlashOffset(next.at),
                        existing_end: FlashOffset(next_end),
                    },
                );
            }
        }
        if place > 0 {
            assert(self@.patches[place - 1] == self.patches@[place - 1].patch());
            let previous = &self.patches[place - 1];
            let previous_end: u64 = previous.at + bytes_len(&previous.bytes) as u64;
            if previous_end > start {
                assert(edits.obstacle(place - 1, start as int, end as int));
                return Err(
                    PatchError::Overlap {
                        start: offset,
                        end: FlashOffset(end),
                        existing_start: FlashOffset(previous.at),
                        existing_end: FlashOffset(previous_end),
                    },
                );
            }
        }
        let ghost patch = Patch { at: start as int, bytes: bytes@ };
        assert(!edits.obstructed(start as int, end as int));
        let mut patches: Vec<StoredPatch> = Vec::new();
        std::mem::swap(&mut patches, &mut self.patches);
        let ghost before = patches@;
        patches.insert(place, StoredPatch { at: start, bytes: bytes_from_vec(bytes) });
        proof {
            let after = Edits { original: edits.original, patches: stored(patches@) };
            assert(stored(patches@) =~= stored(before).insert(place as int, patch));
            assert(edits.patches == stored(before));
            lemma_insert_keeps_order(edits, after, place as int, patch);
        }
        self.patches = patches;
        assert(self@.patches == edits.patches.insert(place as int, patch));
        Ok(())
    }

    /// Replace what `target` shows by as many other bytes.
    pub fn patch_source(&mut self, target: &SourceBytes, replacement: Vec<u8>) -> (r: Result<
        (),
        PatchError,
    >)
        ensures
            final(self)@.ordered(),
            replaced(old(self)@, final(self)@, target@, replacement@, r),
    {
        if replacement.len() != target.len() {
            proof {
                use_type_invariant(&*self);
            }
            return Err(
                PatchError::BodyLengthMismatch { expected: target.len(), got: replacement.len() },
            );
        }
        self.patch(target.offset(), replacement)
    }

    /// An editor of the body of `entry`.
    pub fn entry<'a>(&'a mut self, entry: &'a Entry) -> (r: EntryEditor<'a>)
        ensures
            *r.editor == *old(self),
            *final(self) == *final(r.editor),
            *r.entry == *entry,
    {
        EntryEditor { editor: self, entry }
    }

    /// The input with the patches applied.
    pub fn serialize(&self) -> (r: Vec<u8>)
        ensures
            self@.ordered(),
            self@.renders(r@),
    {
        proof {
            use_type_invariant(self);
        }
        let original = self.original.as_bytes();
        let base: u64 = self.original.offset().0;
        let mut out: Vec<u8> = copy_of(original);
        let ghost edits = self@;
        let mut k: usize = 0;
        while k < self.patches.len()
            invariant
                k <= self.patches@.len(),
                edits == self@,
                edits.ordered(),
                base == edits.original.offset,
                edits.original.bytes.len() <= usize::MAX,
                edits.original.end() <= u64::MAX,
                (Edits {
                    original: edits.original,
                    patches: edits.patches.take(k as int),
                }).renders(out@),
            decreases self.patches@.len() - k,
        {
            let patch = &self.patches[k];
            assert(edits.patches[k as int] == patch.patch());
            let local: usize = (patch.at - base) as usize;
            let replacement = bytes_as_slice(&patch.bytes);
            let ghost before = out@;
            overwrite(&mut out, local, replacement);
            proof {
                lemma_overwrite_renders(edits, k as int, before, out@);
            }
            k += 1;
        }
        assert(edits.patches.take(k as int) =~= edits.patches);
        out
    }
}

/// What follows from a request to put `bytes` at input offset `start`.
pub open spec fn patched(
    before: Edits,
    after: Edits,
    start: int,
    bytes: Seq<u8>,
    r: Result<(), PatchError>,
) -> bool {
    let end = start + bytes.len();
    if bytes.len() == 0 {
        r is Ok && after == before
    } else if !before.original.covers(start, bytes.len() as int) {
        r == Err::<(), PatchError>(
            PatchError::OutOfBounds {
                offset: FlashOffset(start as u64),
                len: bytes.len() as usize,
                blob_start: FlashOffset(before.original.offset as u64),
                blob_end: FlashOffset(before.original.end() as u64),
            },
        ) && after == before
    } else if before.obstructed(start, end) {
        (exists|i: int| #[trigger]
            before.obstacle(i, start, end) && r == Err::<(), PatchError>(
                PatchError::Overlap {
                    start: FlashOffset(start as u64),
                    end: FlashOffset(end as u64),
                    existing_start: FlashOffset(before.patches[i].at as u64),
                    existing_end: FlashOffset(before.patches[i].end() as u64),
                },
            )) && after == before
    } else {
        r is Ok && before.extended(after, Patch { at: start, bytes })
    }
}

/// What follows from a request to replace what `target` shows.
pub open spec fn replaced(
    before: Edits,
    after: Edits,
    target: Window,
    replacement: Seq<u8>,
    r: Result<(), PatchError>,
) -> bool {
    if replacement.len() != target.bytes.len() {
        r == Err::<(), PatchError>(
            PatchError::BodyLengthMismatch {
                expected: target.bytes.len() as usize,
                got: replacement.len() as usize,
            },
        ) && after == before
    } else {
        patched(before, after, target.offset, replacement, r)
    }
}

/// Write `replacement` over the bytes from index `at` on.
pub fn overwrite(out: &mut Vec<u8>, at: usize, replacement: &[u8])
    requires
        at + replacement@.len() <= old(out)@.len(),
    ensures
        final(out)@.len() == old(out)@.len(),
        forall|i: int|
            0 <= i < final(out)@.len() ==> #[trigger] final(out)@[i] == (if at <= i < at
                + replacement@.len() {
                replacement@[i - at]
            } else {
                old(out)@[i]
            }),
{
    let ghost before = out@;
    let mut j: usize = 0;
    while j < replacement.len()
        invariant
            j <= replacement@.len(),
            out@.len() == before.len(),
            at + replacement@.len() <= before.len(),
            forall|i: int|
                0 <= i < out@.len() ==> #[trigger] out@[i] == (if at <= i < at + j {
                    replacement@[i - at]
                } else {
                    before[i]
                }),
        decreases replacement@.len() - j,
    {
        assert(out.len() == out@.len());
        out[at + j] = replacement[j];
        j += 1;
    }
}

proof fn lemma_insert_keeps_order(before: Edits, after: Edits, k: int, patch: Patch)
    requires
        before.ordered(),
        after.original == before.original,
        0 <= k <= before.patches.len(),
        after.patches == before.patches.insert(k, patch),
        patch.bytes.len() > 0,
        before.original.covers(patch.at, patch.bytes.len() as int),
        !before.obstructed(patch.at, patch.end()),
        forall|j: int| 0 <= j < k ==> (#[trigger] before.patches[j]).at < patch.at,
        k < before.patches.len() ==> before.patches[k].at >= patch.at,
    ensures
        after.ordered(),
{
    assert forall|i: int, j: int| 0 <= i < j < after.patches.len() implies (
    #[trigger] after.patches[i]).end() <= (#[trigger] after.patches[j]).at by {
        let old_i = if i < k {
            i
        } else {
            i - 1
        };
        let old_j = if j < k {
            j
        } else {
            j - 1
        };
        if i == k {
            assert(after.patches[j] == before.patches[old_j]);
            assert(before.patches[old_j].bytes.len() > 0);
            if old_j > k {
                assert(before.patches[k].bytes.len() > 0);
                assert(before.patches[k].end() <= before.patches[old_j].at);
            }
        } else if j == k {
            assert(after.patches[i] == before.patches[i]);
        } else {
            assert(after.patches[i] == before.patches[old_i]);
            assert(after.patches[j] == before.patches[old_j]);
        }
    }
    assert forall|i: int| 0 <= i < after.patches.len() implies (
    #[trigger] after.patches[i]).bytes.len() > 0 && after.original.covers(
        after.patches[i].at,
        after.patches[i].bytes.len() as int,
    ) by {
        if i < k {
            assert(after.patches[i] == before.patches[i]);
        } else if i > k {
            assert(after.patches[i] == before.patches[i - 1]);
        }
    }
}

proof fn lemma_overwrite_renders(edits: Edits, k: int, before: Seq<u8>, after: Seq<u8>)
    requires
        edits.ordered(),
        0 <= k < edits.patches.len(),
        (Edits { original: edits.original, patches: edits.patches.take(k) }).renders(before),
        after.len() == before.len(),
        forall|i: int|
            0 <= i < after.len() ==> #[trigger] after[i] == (if edits.patches[k].covers(
                edits.original.offset + i,
            ) {
                edits.patches[k].bytes[edits.original.offset + i - edits.patches[k].at]
            } else {
                before[i]
            }),
    ensures
        (Edits { original: edits.original, patches: edits.patches.take(k + 1) }).renders(after),
{
    let small = Edits { original: edits.original, patches: edits.patches.take(k) };
    let large = Edits { original: edits.original, patches: edits.patches.take(k + 1) };
    assert forall|m: int, j: int|
        0 <= m < large.patches.len() && 0 <= j < large.patches[m].bytes.len() implies after[
    large.patches[m].at - large.original.offset + j] == (
    #[trigger] large.patches[m].bytes[j]) by {
        assert(edits.patches[m].bytes.len() > 0);
        if m < k {
            assert(small.patches[m] == large.patches[m]);
            assert(small.patches[m].bytes[j] == large.patches[m].bytes[j]);
            assert(edits.patches[m].end() <= edits.patches[k].at);
        }
    }
    assert forall|i: int| 0 <= i < after.len() && !large.touches(
        large.original.offset + i,
    ) implies #[trigger] after[i] == large.original.bytes[i] by {
        let at = large.original.offset + i;
        assert(large.patches[k] == edits.patches[k]);
        assert(!large.patches[k].covers(at));
        assert forall|m: int| 0 <= m < small.patches.len() implies !(
        #[trigger] small.patches[m]).covers(at) by {
            assert(large.patches[m] == small.patches[m]);
        }
        assert(!small.touches(at));
        assert(before[i] == small.original.bytes[i]);
    }
}

/// Without patches an input is rendered as it is.
pub proof fn lemma_clean_image(edits: Edits, image: Seq<u8>)
    requires
        edits.patches.len() == 0,
        edits.renders(image),
    ensures
        image == edits.original.bytes,
{
    assert forall|i: int| 0 <= i < image.len() implies image[i] == edits.original.bytes[i] by {
        assert(!edits.touches(edits.original.offset + i));
    }
    assert(image =~= edits.original.bytes);
}

/// There is one image of an input and its patches.
pub proof fn lemma_one_image(edits: Edits, a: Seq<u8>, b: Seq<u8>)
    requires
        edits.renders(a),
        edits.renders(b),
    ensures
        a == b,
{
    assert forall|i: int| 0 <= i < a.len() implies a[i] == b[i] by {
        let at = edits.original.offset + i;
        if edits.touches(at) {
            let k = choose|k: int|
                0 <= k < edits.patches.len() && (#[trigger] edits.patches[k]).covers(at);
            let j = at - edits.patches[k].at;
            assert(edits.patches[k].bytes[j] == a[i]);
            assert(edits.patches[k].bytes[j] == b[i]);
        }
    }
    assert(a =~= b);
}

/// A patch that is accepted puts its bytes in their place and changes nothing
/// else of the image.
pub proof fn lemma_patch_is_local(
    before: Edits,
    after: Edits,
    patch: Patch,
    old_image: Seq<u8>,
    new_image: Seq<u8>,
)
    requires
        before.extended(after, patch),
        before.renders(old_image),
        after.renders(new_image),
    ensures
        new_image.len() == old_image.len(),
        forall|i: int|
            0 <= i < new_image.len() ==> #[trigger] new_image[i] == (if patch.covers(
                before.original.offset + i,
            ) {
                patch.bytes[before.original.offset + i - patch.at]
            } else {
                old_image[i]
            }),
{
    let k = choose|k: int|
        0 <= k <= before.patches.len() && after.patches == #[trigger] before.patches.insert(
            k,
            patch,
        ) && after.ordered();
    assert forall|i: int| 0 <= i < new_image.len() implies #[trigger] new_image[i] == (
    if patch.covers(before.original.offset + i) {
        patch.bytes[before.original.offset + i - patch.at]
    } else {
        old_image[i]
    }) by {
        let at = before.original.offset + i;
        assert(after.patches[k] == patch);
        if patch.covers(at) {
            let j = at - patch.at;
            assert(after.patches[k].bytes[j] == new_image[i]);
        } else if before.touches(at) {
            let m = choose|m: int|
                0 <= m < before.patches.len() && (#[trigger] before.patches[m]).covers(at);
            let j = at - before.patches[m].at;
            let n = if m < k {
                m
            } else {
                m + 1
            };
            assert(after.patches[n] == before.patches[m]);
            assert(after.patches[n].bytes[j] == new_image[i]);
            assert(before.patches[m].bytes[j] == old_image[i]);
        } else {
            assert forall|n: int| 0 <= n < after.patches.len() implies !(
            #[trigger] after.patches[n]).covers(at) by {
                if n != k {
                    let m = if n < k {
                        n
                    } else {
                        n - 1
                    };
                    assert(after.patches[n] == before.patches[m]);
                }
            }
            assert(!after.touches(at));
        }
    }
}

/// An editor of one entry's body.
pub struct EntryEditor<'a> {
    pub editor: &'a mut BlobEditor,
    pub entry: &'a Entry,
}

impl<'a> EntryEditor<'a> {
    /// Replace the body by as many other bytes.
    pub fn set_body(self, new_body: Vec<u8>) -> (r: Result<(), PatchError>)
        ensures
            final(self.editor)@.ordered(),
            replaced(old(self.editor)@, final(self.editor)@, self.entry.body@, new_body@, r),
    {
        self.editor.patch_source(&self.entry.body, new_body)
    }

    pub fn entry(&self) -> (r: &Entry)
        ensures
            *r == *self.entry,
    {
        self.entry
    }
}

/// A patch is taken exactly when it is empty, or lies in the input and shares no
/// byte with a patch that was taken before. Taking one adds one patch with its
/// offset and bytes; refusing one, or taking an empty one, changes nothing.
pub proof fn lemma_when_a_patch_is_taken(
    before: Edits,
    after: Edits,
    start: int,
    bytes: Seq<u8>,
    r: Result<(), PatchError>,
)
    requires
        before.ordered(),
        patched(before, after, start, bytes, r),
    ensures
        r is Ok <==> bytes.len() == 0 || {
            &&& before.original.offset <= start
            &&& start + bytes.len() <= before.original.offset + before.original.bytes.len()
            &&& forall|k: int, j: int|
                0 <= k < before.patches.len() && 0 <= j < bytes.len() ==> !(
                #[trigger] before.patches[k]).covers(#[trigger] offset_of(start, j))
        },
        after.original == before.original,
        r is Err || bytes.len() == 0 ==> after == before,
        r is Ok && bytes.len() > 0 ==> after.patches.len() == before.patches.len() + 1
            && after.patches.contains(Patch { at: start, bytes }),
{
    let end = start + bytes.len();
    if bytes.len() > 0 {
        if before.obstructed(start, end) {
            let i = choose|i: int|
                0 <= i < before.patches.len() && (#[trigger] before.patches[i]).at < end && start
                    < before.patches[i].end();
            assert(before.patches[i].bytes.len() > 0);
            let at = if before.patches[i].at <= start {
                start
            } else {
                before.patches[i].at
            };
            assert(before.patches[i].covers(offset_of(start, at - start)));
        } else {
            assert forall|k: int, j: int|
                0 <= k < before.patches.len() && 0 <= j < bytes.len() implies !(
            #[trigger] before.patches[k]).covers(#[trigger] offset_of(start, j)) by {
                assert(!(before.patches[k].at < end && start < before.patches[k].end()));
            }
        }
        if r is Ok {
            let patch = Patch { at: start, bytes };
            let k = choose|k: int|
                0 <= k <= before.patches.len() && after.patches == #[trigger] before.patches.insert(
                    k,
                    patch,
                ) && after.ordered();
            assert(after.patches[k] == patch);
        }
    }
}

/// The offset `j` bytes behind `start`.
pub open spec fn offset_of(start: int, j: int) -> int {
    start + j
}

/// What a window shows is replaced by as many bytes as it has, as a patch at its
/// offset would; any other number of bytes is refused.
pub proof fn lemma_when_a_window_is_replaced(
    before: Edits,
    after: Edits,
    target: Window,
    replacement: Seq<u8>,
    r: Result<(), PatchError>,
)
    requires
        replaced(before, after, target, replacement, r),
    ensures
        replacement.len() != target.bytes.len() ==> r is Err && after == before,
        replacement.len() == target.bytes.len() ==> patched(
            before,
            after,
            target.offset,
            replacement,
            r,
        ),
{
}

} // verus!
