//! Replacing the body of an entry.

use vstd::prelude::*;

use crate::address::{directory_mode, AddressMode, FlashOffset, ResolveContext, RomSize};
use crate::directory::{
    count_at, directory_at, directory_of_family_at, tag_at, BiosDirectory, BiosEntry, Directory,
    PspDirectory, PspEntry,
};
use crate::entry::{body_error, body_of, entry_context, Entry, EntryClass, EntryRecord};
use crate::error::{parse_error_text, ParseError};
use crate::inventory::{context_in, entry_count, mode_in, parsed_as, record_in};
use crate::source::{copy_of, Window};
use crate::text::{dec, group_text, push_dec};
use crate::wire::{le32, le32_bytes, lemma_le32_round_trip, write_le32};
use crate::writer::{
    lemma_patch_is_local, patch_error_text, patched, BlobEditor, Edits, Patch, PatchError,
};

verus! {

/// Where the size stands in a directory record.
pub const ENTRY_RECORD_SIZE_OFFSET: u64 = 0x04;

/// Why a body was not replaced.
#[derive(Debug)]
pub enum ReplaceError {
    /// The entry could not be parsed.
    Parse(ParseError),
    /// The new body does not fit where the old one stands.
    BodyTooLarge { available: usize, requested: usize },
    /// The entry has no body of its own.
    SoftFuseChainEntry,
    Patch(PatchError),
}

/// One-line description of an error.
pub open spec fn replace_error_text(e: ReplaceError) -> Seq<char> {
    match e {
        ReplaceError::Parse(inner) => parse_error_text(inner),
        ReplaceError::BodyTooLarge { available, requested } => "new body length "@ + (dec(
            requested as nat,
        ) + (" exceeds original entry slot "@ + (dec(available as nat)
            + " (growing entries is not supported by replace_entry_body)"@))),
        ReplaceError::SoftFuseChainEntry =>
            "entry is a soft-fuse-chain — replace_entry_body has no slot to write"@,
        ReplaceError::Patch(inner) => patch_error_text(inner),
    }
}

impl ReplaceError {
    pub fn text(&self) -> (r: String)
        ensures
            r@ == replace_error_text(*self),
    {
        broadcast use group_text;

        let mut out = String::new();
        match self {
            ReplaceError::Parse(inner) => {
                let text = inner.text();
                out.append(text.as_str());
            },
            ReplaceError::BodyTooLarge { available, requested } => {
                out.append("new body length ");
                push_dec(*requested as u64, &mut out);
                out.append(" exceeds original entry slot ");
                push_dec(*available as u64, &mut out);
                out.append(" (growing entries is not supported by replace_entry_body)");
            },
            ReplaceError::SoftFuseChainEntry => {
                out.append("entry is a soft-fuse-chain — replace_entry_body has no slot to write");
            },
            ReplaceError::Patch(inner) => {
                let text = inner.text();
                out.append(text.as_str());
            },
        }
        out
    }
}

/// Whether the record of an entry has a size field and the size of the body
/// fits in there.
pub open spec fn resizable(entry: Entry) -> bool {
    entry.record.window().bytes.len() >= 8 && entry.body@.bytes.len() <= u32::MAX
}

/// Where the size of an entry stands in the input.
pub open spec fn size_field(entry: Entry) -> int {
    entry.record.window().offset + 4
}

/// What follows from a request to replace the body of an entry. The size goes
/// first where it changes. Bytes of the old body behind the new one stay.
pub open spec fn body_replaced(
    before: Edits,
    after: Edits,
    entry: Entry,
    body: Seq<u8>,
    r: Result<(), ReplaceError>,
) -> bool {
    let old_len = entry.body@.bytes.len();
    if entry.class is SoftFuseChain {
        r == Err::<(), ReplaceError>(ReplaceError::SoftFuseChainEntry) && after == before
    } else if body.len() > old_len {
        r == Err::<(), ReplaceError>(
            ReplaceError::BodyTooLarge {
                available: old_len as usize,
                requested: body.len() as usize,
            },
        ) && after == before
    } else if body.len() == old_len {
        match r {
            Ok(_) => patched(before, after, entry.body@.offset, body, Ok(())),
            Err(ReplaceError::Patch(e)) => patched(
                before,
                after,
                entry.body@.offset,
                body,
                Err(e),
            ),
            _ => false,
        }
    } else {
        resized(before, after, entry, body, r)
    }
}

/// What follows from a request to replace the body of an entry by a shorter
/// one. Size and body are recorded together: when either is refused, neither
/// is.
pub open spec fn resized(
    before: Edits,
    after: Edits,
    entry: Entry,
    body: Seq<u8>,
    r: Result<(), ReplaceError>,
) -> bool {
    let size = le32_bytes(body.len() as u32);
    match r {
        Ok(_) => exists|middle: Edits|
            #![trigger patched(before, middle, size_field(entry), size, Ok(()))]
            patched(before, middle, size_field(entry), size, Ok(())) && patched(
                middle,
                after,
                entry.body@.offset,
                body,
                Ok(()),
            ),
        Err(ReplaceError::Patch(e)) => after == before && (patched(
            before,
            before,
            size_field(entry),
            size,
            Err(e),
        ) || exists|middle: Edits|
            #![trigger patched(before, middle, size_field(entry), size, Ok(()))]
            patched(before, middle, size_field(entry), size, Ok(())) && patched(
                middle,
                middle,
                entry.body@.offset,
                body,
                Err(e),
            )),
        _ => false,
    }
}

/// Replace the body of an entry by one that is not longer. The editor must be
/// one of the input that the entry was parsed from. A refusal leaves the
/// editor as it was.
pub fn replace_entry_body(editor: &mut BlobEditor, entry: &Entry, new_body: &[u8]) -> (r: Result<
    (),
    ReplaceError,
>)
    requires
        entry.class is SoftFuseChain || resizable(*entry),
    ensures
        final(editor)@.ordered(),
        body_replaced(old(editor)@, final(editor)@, *entry, new_body@, r),
        r is Err ==> final(editor)@ == old(editor)@,
{
    proof {
        use_type_invariant(&*editor);
    }
    if let EntryClass::SoftFuseChain = entry.class {
        return Err(ReplaceError::SoftFuseChainEntry);
    }
    let original_len: usize = entry.body.len();
    if new_body.len() > original_len {
        return Err(
            ReplaceError::BodyTooLarge { available: original_len, requested: new_body.len() },
        );
    }
    let ghost before = editor@;
    let mut draft = editor.clone();
    if new_body.len() != original_len {
        match rewrite_size_field(&mut draft, entry, new_body.len() as u32) {
            Ok(_) => {},
            Err(e) => {
                return Err(e);
            },
        }
    }
    let ghost middle = draft@;
    match draft.patch(entry.body.offset(), copy_of(new_body)) {
        Ok(u) => {
            *editor = draft;
            Ok(u)
        },
        Err(e) => {
            assert(middle == draft@);
            Err(ReplaceError::Patch(e))
        },
    }
}

fn rewrite_size_field(editor: &mut BlobEditor, entry: &Entry, new_size: u32) -> (r: Result<
    (),
    ReplaceError,
>)
    requires
        resizable(*entry),
    ensures
        final(editor)@.ordered(),
        match r {
            Ok(u) => patched(
                old(editor)@,
                final(editor)@,
                size_field(*entry),
                le32_bytes(new_size),
                Ok(u),
            ),
            Err(ReplaceError::Patch(e)) => patched(
                old(editor)@,
                final(editor)@,
                size_field(*entry),
                le32_bytes(new_size),
                Err(e),
            ),
            _ => false,
        },
{
    let record = entry.record.source();
    proof {
        use_type_invariant(record);
    }
    let offset = FlashOffset(record.offset().0 + ENTRY_RECORD_SIZE_OFFSET);
    match editor.patch(offset, write_le32(new_size)) {
        Ok(u) => Ok(u),
        Err(e) => Err(ReplaceError::Patch(e)),
    }
}

/// What follows from a request to replace the body that a record of a
/// directory of mode `mode` points to.
pub open spec fn record_replaced(
    before: Edits,
    after: Edits,
    record: EntryRecord,
    mode: AddressMode,
    ctx: ResolveContext,
    body: Seq<u8>,
    r: Result<(), ReplaceError>,
) -> bool {
    if body_of(record, mode, ctx, before.original) is None {
        r == Err::<(), ReplaceError>(
            ReplaceError::Parse(body_error(record, mode, ctx, before.original)),
        ) && after == before
    } else {
        exists|entry: Entry|
            #![trigger body_replaced(before, after, entry, body, r)]
            entry.resolves(record, mode, ctx, before.original) && body_replaced(
                before,
                after,
                entry,
                body,
                r,
            )
    }
}

/// Replace the body of entry `entry_index` of a PSP directory.
pub fn replace_psp_entry_body(
    editor: &mut BlobEditor,
    parent: &PspDirectory,
    entry_index: usize,
    rom_size: RomSize,
    rom_origin: FlashOffset,
    new_body: &[u8],
) -> (r: Result<(), ReplaceError>)
    requires
        entry_index < parent.entries@.len() ==> parent.entries@[entry_index as int].source@.bytes.len()
            >= 8,
    ensures
        final(editor)@.ordered(),
        if entry_index >= parent.entries@.len() {
            r == Err::<(), ReplaceError>(
                ReplaceError::Parse(
                    ParseError::EntryIndexOutOfRange {
                        offset: FlashOffset(parent.source@.offset as u64),
                        index: entry_index,
                        count: parent.entries@.len() as usize,
                    },
                ),
            ) && final(editor)@ == old(editor)@
        } else {
            record_replaced(
                old(editor)@,
                final(editor)@,
                EntryRecord::Psp(parent.entries@[entry_index as int]),
                directory_mode(parent.header.additional_info),
                entry_context(parent.source@.offset, rom_size, rom_origin),
                new_body@,
                r,
            )
        },
        r is Err ==> final(editor)@ == old(editor)@,
{
    proof {
        use_type_invariant(&*editor);
    }
    match Entry::parse_psp(editor.original(), parent, entry_index, rom_size, rom_origin) {
        Ok(entry) => replace_entry_body(editor, &entry, new_body),
        Err(e) => Err(ReplaceError::Parse(e)),
    }
}

/// Replace the body of entry `entry_index` of a BIOS directory.
pub fn replace_bios_entry_body(
    editor: &mut BlobEditor,
    parent: &BiosDirectory,
    entry_index: usize,
    rom_size: RomSize,
    rom_origin: FlashOffset,
    new_body: &[u8],
) -> (r: Result<(), ReplaceError>)
    requires
        entry_index < parent.entries@.len() ==> parent.entries@[entry_index as int].source@.bytes.len()
            >= 8,
    ensures
        final(editor)@.ordered(),
        if entry_index >= parent.entries@.len() {
            r == Err::<(), ReplaceError>(
                ReplaceError::Parse(
                    ParseError::EntryIndexOutOfRange {
                        offset: FlashOffset(parent.source@.offset as u64),
                        index: entry_index,
                        count: parent.entries@.len() as usize,
                    },
                ),
            ) && final(editor)@ == old(editor)@
        } else {
            record_replaced(
                old(editor)@,
                final(editor)@,
                EntryRecord::Bios(parent.entries@[entry_index as int]),
                directory_mode(parent.header.additional_info),
                entry_context(parent.source@.offset, rom_size, rom_origin),
                new_body@,
                r,
            )
        },
        r is Err ==> final(editor)@ == old(editor)@,
{
    proof {
        use_type_invariant(&*editor);
    }
    match Entry::parse_bios(editor.original(), parent, entry_index, rom_size, rom_origin) {
        Ok(entry) => replace_entry_body(editor, &entry, new_body),
        Err(e) => Err(ReplaceError::Parse(e)),
    }
}

/// Whether replacing the body of an entry by `len` bytes may change the byte
/// at input offset `at`: it lies in the new body, or in the size field when
/// the size changes.
pub open spec fn may_change(entry: Entry, len: nat, at: int) -> bool {
    ||| entry.body@.offset <= at < entry.body@.offset + len
    ||| len != entry.body@.bytes.len() && size_field(entry) <= at < size_field(entry) + 4
}

/// Replacing a body puts the new body where the old one stood and, when it is
/// shorter, its length in the size field. Every other byte, and so every other
/// entry and all padding, stays as it was.
pub proof fn lemma_replacing_is_local(
    before: Edits,
    after: Edits,
    entry: Entry,
    body: Seq<u8>,
    r: Result<(), ReplaceError>,
    old_image: Seq<u8>,
    new_image: Seq<u8>,
)
    requires
        body_replaced(before, after, entry, body, r),
        r is Ok,
        resizable(entry),
        before.renders(old_image),
        after.renders(new_image),
    ensures
        new_image.len() == old_image.len(),
        forall|i: int|
            0 <= i < new_image.len() && !may_change(entry, body.len(), before.original.offset + i)
                ==> #[trigger] new_image[i] == old_image[i],
        body.len() > 0 ==> before.original.covers(entry.body@.offset, body.len() as int),
        body.len() > 0 ==> new_image.subrange(
            entry.body@.offset - before.original.offset,
            entry.body@.offset - before.original.offset + body.len(),
        ) == body,
        body.len() != entry.body@.bytes.len() ==> before.original.covers(size_field(entry), 4),
        body.len() != entry.body@.bytes.len() ==> le32(
            new_image,
            size_field(entry) - before.original.offset,
        ) == body.len(),
{
    if body.len() == entry.body@.bytes.len() {
        if body.len() == 0 {
            crate::writer::lemma_one_image(before, old_image, new_image);
        } else {
            let base = before.original.offset;
            let body_patch = Patch { at: entry.body@.offset, bytes: body };
            lemma_patch_is_local(before, after, body_patch, old_image, new_image);
            assert(new_image.subrange(
                entry.body@.offset - base,
                entry.body@.offset - base + body.len(),
            ) =~= body);
        }
    } else {
        let size = le32_bytes(body.len() as u32);
        let middle = choose|middle: Edits|
            #![trigger patched(before, middle, size_field(entry), size, Ok(()))]
            patched(before, middle, size_field(entry), size, Ok(())) && patched(
                middle,
                after,
                entry.body@.offset,
                body,
                Ok(()),
            );
        lemma_resizing_is_local(
            before,
            middle,
            after,
            size_field(entry),
            entry.body@.offset,
            body,
            old_image,
            new_image,
        );
    }
}

proof fn lemma_resizing_is_local(
    before: Edits,
    middle: Edits,
    after: Edits,
    size_at: int,
    body_at: int,
    body: Seq<u8>,
    old_image: Seq<u8>,
    new_image: Seq<u8>,
)
    requires
        body.len() <= u32::MAX,
        patched(before, middle, size_at, le32_bytes(body.len() as u32), Ok(())),
        patched(middle, after, body_at, body, Ok(())),
        before.renders(old_image),
        after.renders(new_image),
    ensures
        new_image.len() == old_image.len(),
        forall|i: int|
            0 <= i < new_image.len() && !(size_at <= before.original.offset + i < size_at + 4) && !(
            body_at <= before.original.offset + i < body_at + body.len())
                ==> #[trigger] new_image[i] == old_image[i],
        body.len() > 0 ==> before.original.covers(body_at, body.len() as int),
        body.len() > 0 ==> new_image.subrange(
            body_at - before.original.offset,
            body_at - before.original.offset + body.len(),
        ) == body,
        before.original.covers(size_at, 4),
        le32(new_image, size_at - before.original.offset) == body.len(),
{
    let base = before.original.offset;
    let size = le32_bytes(body.len() as u32);
    let body_patch = Patch { at: body_at, bytes: body };
    let size_patch = Patch { at: size_at, bytes: size };
    assert(before.extended(middle, size_patch));
    let middle_image = rendered(middle);
    lemma_rendered(middle);
    lemma_patch_is_local(before, middle, size_patch, old_image, middle_image);
    lemma_le32_round_trip(body.len() as u32);
    let at = size_at - base;
    assert(forall|j: int| 0 <= j < 4 ==> middle_image[at + j] == size[j]);
    if body.len() == 0 {
        crate::writer::lemma_one_image(middle, middle_image, new_image);
    } else {
        lemma_patch_is_local(middle, after, body_patch, middle_image, new_image);
        assert(new_image.subrange(body_at - base, body_at - base + body.len()) =~= body);
        let k = choose|k: int|
            0 <= k <= before.patches.len() && middle.patches == #[trigger] before.patches.insert(
                k,
                size_patch,
            ) && middle.ordered();
        assert(middle.patches[k] == size_patch);
        assert(!middle.obstructed(body_patch.at, body_patch.end()));
        assert(!(middle.patches[k].at < body_patch.end() && body_patch.at
            < middle.patches[k].end()));
        assert forall|j: int| 0 <= j < 4 implies new_image[at + j] == size[j] by {
            assert(!body_patch.covers(base + at + j));
        }
    }
    assert(new_image[at] == size[0]);
    assert(new_image[at + 1] == size[1]);
    assert(new_image[at + 2] == size[2]);
    assert(new_image[at + 3] == size[3]);
}

/// The image of an input and its patches.
spec fn rendered(edits: Edits) -> Seq<u8> {
    Seq::new(
        edits.original.bytes.len(),
        |i: int|
            {
                let at = edits.original.offset + i;
                if edits.touches(at) {
                    let k = choose|k: int|
                        0 <= k < edits.patches.len() && (#[trigger] edits.patches[k]).covers(at);
                    edits.patches[k].bytes[at - edits.patches[k].at]
                } else {
                    edits.original.bytes[i]
                }
            },
    )
}

proof fn lemma_rendered(edits: Edits)
    requires
        edits.ordered(),
    ensures
        edits.renders(rendered(edits)),
{
    let image = rendered(edits);
    assert forall|k: int, j: int|
        0 <= k < edits.patches.len() && 0 <= j < edits.patches[k].bytes.len() implies image[
    edits.patches[k].at - edits.original.offset + j] == (#[trigger] edits.patches[k].bytes[j]) by {
        let at = edits.patches[k].at + j;
        assert(edits.patches[k].covers(at));
        assert(edits.touches(at));
        let m = choose|m: int|
            0 <= m < edits.patches.len() && (#[trigger] edits.patches[m]).covers(at);
        assert(m == k);
        assert(edits.patches[k].bytes.len() > 0);
    }
}

/// Whether the body and the record of an entry have no byte in common.
pub open spec fn apart(entry: Entry) -> bool {
    entry.body@.end() <= entry.record.window().offset || entry.record.window().end()
        <= entry.body@.offset
}

/// Whether `record` is what the window `w` shows, of the family of `like`.
pub open spec fn reads_as(record: EntryRecord, like: EntryRecord, w: Window) -> bool {
    match (record, like) {
        (EntryRecord::Psp(p), EntryRecord::Psp(_)) => p.decodes(w),
        (EntryRecord::Bios(b), EntryRecord::Bios(_)) => b.decodes(w),
        _ => false,
    }
}

proof fn lemma_record_reads_back(
    input: Window,
    image: Seq<u8>,
    entry: Entry,
    record: EntryRecord,
    len: int,
)
    requires
        image.len() == input.bytes.len(),
        input.covers(
            entry.record.window().offset,
            entry.record.window().bytes.len() as int,
        ),
        reads_as(
            entry.record,
            entry.record,
            input.at(entry.record.window().offset, entry.record.window().bytes.len() as int),
        ),
        entry.record.window().bytes.len() >= 16,
        reads_as(
            record,
            entry.record,
            (Window { bytes: image, offset: input.offset }).at(
                entry.record.window().offset,
                entry.record.window().bytes.len() as int,
            ),
        ),
        forall|j: int|
            0 <= j < entry.record.window().bytes.len() && !(4 <= j < 8) ==> #[trigger] image[
            entry.record.window().offset - input.offset + j] == input.bytes[
            entry.record.window().offset - input.offset + j],
        len == entry.record.body_size() ==> forall|j: int|
            4 <= j < 8 ==> #[trigger] image[entry.record.window().offset - input.offset + j]
                == input.bytes[entry.record.window().offset - input.offset + j],
        len != entry.record.body_size() ==> le32(image, size_field(entry) - input.offset) == len,
    ensures
        record.kind() == entry.record.kind(),
        record.pointer() == entry.record.pointer(),
        record.own_mode() == entry.record.own_mode(),
        record.body_size() == len,
{
    let rec = entry.record.window();
    let n = rec.bytes.len() as int;
    let start = rec.offset - input.offset;
    let old_bytes = input.at(rec.offset, n).bytes;
    let new_bytes = (Window { bytes: image, offset: input.offset }).at(rec.offset, n).bytes;
    assert(forall|j: int| 0 <= j < n ==> #[trigger] new_bytes[j] == image[start + j]);
    assert(forall|j: int| 0 <= j < n ==> #[trigger] old_bytes[j] == input.bytes[start + j]);
    assert(new_bytes[0] == old_bytes[0]);
    assert(le32(new_bytes, 8) == le32(old_bytes, 8));
    assert(le32(new_bytes, 12) == le32(old_bytes, 12));
    if len == entry.record.body_size() {
        assert(le32(new_bytes, 4) == le32(old_bytes, 4));
    } else {
        assert(le32(new_bytes, 4) == le32(image, start + 4));
    }
}

/// A body that was put into an unedited input is read back: the record, parsed
/// anew from the new image, points to the new body. An entry whose body shares
/// bytes with its own record is left out.
pub proof fn lemma_replaced_body_reads_back(
    input: Window,
    after: Edits,
    entry: Entry,
    mode: AddressMode,
    ctx: ResolveContext,
    body: Seq<u8>,
    r: Result<(), ReplaceError>,
    image: Seq<u8>,
    record: EntryRecord,
)
    requires
        entry.resolves(entry.record, mode, ctx, input),
        input.covers(
            entry.record.window().offset,
            entry.record.window().bytes.len() as int,
        ),
        reads_as(
            entry.record,
            entry.record,
            input.at(entry.record.window().offset, entry.record.window().bytes.len() as int),
        ),
        entry.record.window().bytes.len() == (if entry.record is Psp {
            16int
        } else {
            24int
        }),
        apart(entry),
        body_replaced(
            (Edits { original: input, patches: Seq::empty() }),
            after,
            entry,
            body,
            r,
        ),
        r is Ok,
        after.renders(image),
        reads_as(
            record,
            entry.record,
            (Window { bytes: image, offset: input.offset }).at(
                entry.record.window().offset,
                entry.record.window().bytes.len() as int,
            ),
        ),
    ensures
        record.body_size() == body.len(),
        body_of(record, mode, ctx, Window { bytes: image, offset: input.offset }) == Some(
            Window { bytes: body, offset: entry.body@.offset },
        ),
{
    let before = Edits { original: input, patches: Seq::empty() };
    let rec = entry.record.window();
    let new_input = Window { bytes: image, offset: input.offset };
    let n = rec.bytes.len() as int;
    let start = rec.offset - input.offset;
    assert(before.renders(input.bytes));
    assert(!entry.record.kind().soft_fuse());
    assert(entry.body@.bytes.len() == entry.record.body_size());
    lemma_replacing_is_local(before, after, entry, body, r, input.bytes, image);
    assert forall|j: int| 0 <= j < n && !(4 <= j < 8) implies #[trigger] image[start + j]
        == input.bytes[start + j] by {}
    lemma_record_reads_back(input, image, entry, record, body.len() as int);
    let at = entry.body@.offset;
    assert(new_input.at(at, body.len() as int).bytes =~= body);
}

/// Whether two windows have no byte in common.
pub open spec fn disjoint(a: Window, b: Window) -> bool {
    a.end() <= b.offset || b.end() <= a.offset
}

/// The bytes of an image that stands where an input stood.
pub open spec fn in_place_of(input: Window, image: Seq<u8>) -> Window {
    Window { bytes: image, offset: input.offset }
}

proof fn lemma_directory_bytes(
    input: Window,
    image: Seq<u8>,
    dir: Directory,
    index: int,
    entry: Entry,
    body: Seq<u8>,
)
    requires
        dir.decodes(input, dir.window().offset),
        0 <= index < entry_count(dir),
        entry.record.same_as(record_in(dir, index)),
        disjoint(entry.body@, dir.window()),
        body.len() <= entry.body@.bytes.len(),
        image.len() == input.bytes.len(),
        forall|i: int|
            0 <= i < image.len() && !may_change(entry, body.len(), input.offset + i)
                ==> #[trigger] image[i] == input.bytes[i],
    ensures
        forall|at: int|
            dir.window().offset <= at < dir.window().end() && !(size_field(entry) <= at
                < size_field(entry) + 4) ==> #[trigger] image[at - input.offset]
                == input.bytes[at - input.offset],
        directory_of_family_at(in_place_of(input, image), dir.window().offset, dir.shape()),
        tag_at(in_place_of(input, image), dir.window().offset) == tag_at(
            input,
            dir.window().offset,
        ),
        count_at(in_place_of(input, image), dir.window().offset) == entry_count(dir),
{
    let at = dir.window().offset;
    let new_input = in_place_of(input, image);
    let old_head = input.at(at, 16).bytes;
    let new_head = new_input.at(at, 16).bytes;
    assert(dir.decodes(input, at));
    assert(size_field(entry) >= at + 0x10);
    assert forall|k: int|
        at <= k < dir.window().end() && !(size_field(entry) <= k < size_field(entry)
            + 4) implies #[trigger] image[k - input.offset] == input.bytes[k - input.offset] by {
        assert(!may_change(entry, body.len(), input.offset + (k - input.offset)));
    }
    assert forall|j: int| 0 <= j < 16 implies #[trigger] new_head[j] == old_head[j] by {
        assert(image[at + j - input.offset] == input.bytes[at + j - input.offset]);
    }
    assert(new_head =~= old_head);
}

/// The length of a record of a directory.
spec fn record_len(dir: Directory) -> int {
    if dir is Psp {
        0x10
    } else {
        0x18
    }
}

proof fn lemma_record_place(input: Window, dir: Directory, i: int)
    requires
        dir.decodes(input, dir.window().offset),
        0 <= i < entry_count(dir),
    ensures
        ({
            let at = dir.window().offset + 0x10 + record_len(dir) * i;
            &&& record_in(dir, i).window() == input.at(at, record_len(dir))
            &&& record_in(dir, i).window().bytes.len() == record_len(dir)
            &&& record_in(dir, i).window().offset == at
            &&& input.covers(at, record_len(dir))
            &&& at + record_len(dir) <= dir.window().end()
            &&& reads_as(
                record_in(dir, i),
                record_in(dir, i),
                input.at(at, record_len(dir)),
            )
            &&& (record_in(dir, i) is Psp) == (dir is Psp)
        }),
{
}

proof fn lemma_same_head(input: Window, image: Seq<u8>, dir: Directory, again: Directory)
    requires
        dir.decodes(input, dir.window().offset),
        entry_count(dir) > 0,
        again.decodes(in_place_of(input, image), dir.window().offset),
        image.len() == input.bytes.len(),
        forall|j: int|
            0 <= j < 16 ==> #[trigger] image[dir.window().offset + j - input.offset]
                == input.bytes[dir.window().offset + j - input.offset],
    ensures
        again.shape() == dir.shape(),
        again.window().offset == dir.window().offset,
        entry_count(again) == entry_count(dir),
        mode_in(again) == mode_in(dir),
{
    let at = dir.window().offset;
    let new_head = in_place_of(input, image).at(at, 16).bytes;
    let old_head = input.at(at, 16).bytes;
    assert forall|j: int| 0 <= j < 16 implies #[trigger] new_head[j] == old_head[j] by {
        assert(image[at + j - input.offset] == input.bytes[at + j - input.offset]);
    }
    assert(new_head =~= old_head);
}

proof fn lemma_other_record(
    input: Window,
    image: Seq<u8>,
    dir: Directory,
    again: Directory,
    index: int,
    entry: Entry,
    j: int,
)
    requires
        dir.decodes(input, dir.window().offset),
        again.decodes(in_place_of(input, image), dir.window().offset),
        again.shape() == dir.shape(),
        again.window().offset == dir.window().offset,
        entry_count(again) == entry_count(dir),
        0 <= index < entry_count(dir),
        0 <= j < entry_count(dir),
        j != index,
        image.len() == input.bytes.len(),
        entry.record.same_as(record_in(dir, index)),
        forall|at: int|
            dir.window().offset <= at < dir.window().end() && !(size_field(entry) <= at
                < size_field(entry) + 4) ==> #[trigger] image[at - input.offset]
                == input.bytes[at - input.offset],
    ensures
        record_in(again, j).window() == record_in(dir, j).window(),
{
    lemma_record_place(input, dir, j);
    lemma_record_place(input, dir, index);
    lemma_record_place(in_place_of(input, image), again, j);
    let n = record_len(dir);
    let start = dir.window().offset + 0x10 + n * j;
    let old_bytes = input.at(start, n).bytes;
    let new_bytes = in_place_of(input, image).at(start, n).bytes;
    assert(j < index ==> n * j + n <= n * index) by (nonlinear_arith)
        requires
            n > 0,
    ;
    assert(index < j ==> n * index + n <= n * j) by (nonlinear_arith)
        requires
            n > 0,
    ;
    assert forall|k: int| 0 <= k < n implies #[trigger] new_bytes[k] == old_bytes[k] by {
        assert(image[start + k - input.offset] == input.bytes[start + k - input.offset]);
    }
    assert(new_bytes =~= old_bytes);
}

proof fn lemma_bytes_after_replacement(
    input: Window,
    dir: Directory,
    index: int,
    rom_size: RomSize,
    rom_origin: FlashOffset,
    entry: Entry,
    body: Seq<u8>,
    after: Edits,
    r: Result<(), ReplaceError>,
    image: Seq<u8>,
)
    requires
        dir.decodes(input, dir.window().offset),
        0 <= index < entry_count(dir),
        parsed_as(dir, index, input, rom_size, rom_origin, Ok(entry)),
        disjoint(entry.body@, dir.window()),
        body_replaced(
            (Edits { original: input, patches: Seq::empty() }),
            after,
            entry,
            body,
            r,
        ),
        r is Ok,
        after.renders(image),
    ensures
        image.len() == input.bytes.len(),
        entry.record.same_as(record_in(dir, index)),
        size_field(entry) >= dir.window().offset + 16,
        forall|at: int|
            dir.window().offset <= at < dir.window().end() && !(size_field(entry) <= at
                < size_field(entry) + 4) ==> #[trigger] image[at - input.offset]
                == input.bytes[at - input.offset],
        directory_of_family_at(in_place_of(input, image), dir.window().offset, dir.shape()),
{
    let before = Edits { original: input, patches: Seq::empty() };
    lemma_record_place(input, dir, index);
    assert(before.renders(input.bytes));
    assert(!(entry.class is SoftFuseChain));
    lemma_replacing_is_local(before, after, entry, body, r, input.bytes, image);
    lemma_directory_bytes(input, image, dir, index, entry, body);
}

proof fn lemma_record_setting(
    input: Window,
    dir: Directory,
    index: int,
    rom_size: RomSize,
    rom_origin: FlashOffset,
    entry: Entry,
    image: Seq<u8>,
    again: Directory,
)
    requires
        dir.decodes(input, dir.window().offset),
        0 <= index < entry_count(dir),
        parsed_as(dir, index, input, rom_size, rom_origin, Ok(entry)),
        disjoint(entry.body@, dir.window()),
        again.decodes(in_place_of(input, image), dir.window().offset),
        again.shape() == dir.shape(),
        again.window().offset == dir.window().offset,
        entry_count(again) == entry_count(dir),
    ensures
        entry.resolves(entry.record, mode_in(dir), context_in(dir, rom_size, rom_origin), input),
        input.covers(
            entry.record.window().offset,
            entry.record.window().bytes.len() as int,
        ),
        reads_as(
            entry.record,
            entry.record,
            input.at(entry.record.window().offset, entry.record.window().bytes.len() as int),
        ),
        entry.record.window().bytes.len() == (if entry.record is Psp {
            16int
        } else {
            24int
        }),
        apart(entry),
        reads_as(
            record_in(again, index),
            entry.record,
            in_place_of(input, image).at(
                entry.record.window().offset,
                entry.record.window().bytes.len() as int,
            ),
        ),
        context_in(again, rom_size, rom_origin) == context_in(dir, rom_size, rom_origin),
{
    lemma_record_place(input, dir, index);
    lemma_record_place(in_place_of(input, image), again, index);
}

proof fn lemma_record_again(
    input: Window,
    dir: Directory,
    index: int,
    rom_size: RomSize,
    rom_origin: FlashOffset,
    entry: Entry,
    body: Seq<u8>,
    after: Edits,
    r: Result<(), ReplaceError>,
    image: Seq<u8>,
    again: Directory,
)
    requires
        dir.decodes(input, dir.window().offset),
        0 <= index < entry_count(dir),
        parsed_as(dir, index, input, rom_size, rom_origin, Ok(entry)),
        disjoint(entry.body@, dir.window()),
        body_replaced(
            (Edits { original: input, patches: Seq::empty() }),
            after,
            entry,
            body,
            r,
        ),
        r is Ok,
        after.renders(image),
        again.decodes(in_place_of(input, image), dir.window().offset),
        again.shape() == dir.shape(),
        again.window().offset == dir.window().offset,
        entry_count(again) == entry_count(dir),
        mode_in(again) == mode_in(dir),
    ensures
        body_of(
            record_in(again, index),
            mode_in(again),
            context_in(again, rom_size, rom_origin),
            in_place_of(input, image),
        ) == Some(Window { bytes: body, offset: entry.body@.offset }),
{
    lemma_record_setting(input, dir, index, rom_size, rom_origin, entry, image, again);
    lemma_replaced_body_reads_back(
        input,
        after,
        entry,
        mode_in(dir),
        context_in(dir, rom_size, rom_origin),
        body,
        r,
        image,
        record_in(again, index),
    );
}

/// A directory of an unedited input in which the body of an entry was replaced
/// is read back: a directory parsed anew from the new image has as many
/// entries, the one that was replaced has the new body, and the records of the
/// others show the same bytes. An entry whose body shares bytes with the
/// directory is left out.
pub proof fn lemma_replaced_directory_reads_back(
    input: Window,
    dir: Directory,
    index: int,
    rom_size: RomSize,
    rom_origin: FlashOffset,
    entry: Entry,
    body: Seq<u8>,
    after: Edits,
    r: Result<(), ReplaceError>,
    image: Seq<u8>,
    again: Directory,
)
    requires
        dir.decodes(input, dir.window().offset),
        0 <= index < entry_count(dir),
        parsed_as(dir, index, input, rom_size, rom_origin, Ok(entry)),
        disjoint(entry.body@, dir.window()),
        body_replaced(
            (Edits { original: input, patches: Seq::empty() }),
            after,
            entry,
            body,
            r,
        ),
        r is Ok,
        after.renders(image),
    ensures
        directory_at(in_place_of(input, image), dir.window().offset),
        again.decodes(in_place_of(input, image), dir.window().offset) ==> {
            &&& again.shape() == dir.shape()
            &&& entry_count(again) == entry_count(dir)
            &&& body_of(
                record_in(again, index),
                mode_in(again),
                context_in(again, rom_size, rom_origin),
                in_place_of(input, image),
            ) == Some(Window { bytes: body, offset: entry.body@.offset })
            &&& forall|j: int|
                0 <= j < entry_count(dir) && j != index ==> (#[trigger] record_in(
                    again,
                    j,
                )).window() == record_in(dir, j).window()
        },
{
    lemma_bytes_after_replacement(
        input,
        dir,
        index,
        rom_size,
        rom_origin,
        entry,
        body,
        after,
        r,
        image,
    );
    if again.decodes(in_place_of(input, image), dir.window().offset) {
        lemma_same_head(input, image, dir, again);
        lemma_record_again(
            input,
            dir,
            index,
            rom_size,
            rom_origin,
            entry,
            body,
            after,
            r,
            image,
            again,
        );
        assert forall|j: int| 0 <= j < entry_count(dir) && j != index implies (
        #[trigger] record_in(again, j)).window() == record_in(dir, j).window() by {
            lemma_other_record(input, image, dir, again, index, entry, j);
        }
    }
}

} // verus!
