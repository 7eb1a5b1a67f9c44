use psptool::address::FlashOffset;
use psptool::source::SourceBytes;
use std::ops::Range;

fn sample() -> SourceBytes {
    SourceBytes::from_blob(vec![0u8, 1, 2, 3, 4, 5, 6, 7, 8, 9, 10, 11, 12, 13, 14, 15])
}

#[test]
fn from_blob_covers_input() {
    let s = sample();
    assert_eq!(s.offset(), FlashOffset(0));
    assert_eq!(s.len(), 16);
    assert!(!s.is_empty());
    assert_eq!(s.as_bytes(), (0u8..16).collect::<Vec<_>>());
    assert_eq!(s.flash_range(), 0..16);
}

#[test]
fn with_offset_root() {
    let s = SourceBytes::with_offset(vec![0xAAu8; 4], FlashOffset(0xA7000));
    assert_eq!(s.offset(), FlashOffset(0xA7000));
    assert_eq!(s.len(), 4);
    assert_eq!(s.flash_range(), 0xA7000..0xA7004);
    assert_eq!(s.as_bytes(), &[0xAA, 0xAA, 0xAA, 0xAA]);
}

#[test]
fn subslice_relative() {
    let s = sample();
    let sub = s.subslice(4..10).unwrap();
    assert_eq!(sub.offset(), FlashOffset(4));
    assert_eq!(sub.len(), 6);
    assert_eq!(sub.as_bytes(), &[4, 5, 6, 7, 8, 9]);
}

#[test]
fn subslice_propagates_root_offset() {
    let root = SourceBytes::with_offset(
        vec![0u8, 1, 2, 3, 4, 5, 6, 7, 8, 9, 10, 11, 12, 13, 14, 15],
        FlashOffset(0xA7000),
    );
    let sub = root.subslice(4..10).unwrap();
    assert_eq!(sub.offset(), FlashOffset(0xA7004));
    assert_eq!(sub.flash_range(), 0xA7004..0xA700A);
    assert_eq!(sub.as_bytes(), &[4, 5, 6, 7, 8, 9]);
}

#[test]
fn subslice_out_of_bounds() {
    let s = sample();
    assert!(s.subslice(0..17).is_none());
    let inverted: Range<usize> = Range { start: 10, end: 5 };
    assert!(s.subslice(inverted).is_none()); // start > end
    assert!(s.subslice(20..30).is_none());
}

#[test]
fn nested_subslice_offset_arithmetic() {
    let root = SourceBytes::with_offset((0u8..16).collect::<Vec<_>>(), FlashOffset(0x100));
    let outer = root.subslice(2..14).unwrap();
    assert_eq!(outer.offset(), FlashOffset(0x102));
    let inner = outer.subslice(3..7).unwrap();
    assert_eq!(inner.offset(), FlashOffset(0x105));
    assert_eq!(inner.len(), 4);
    assert_eq!(inner.as_bytes(), &[5, 6, 7, 8]);
}

#[test]
fn subslice_at_absolute_range() {
    let root = SourceBytes::with_offset((0u8..16).collect::<Vec<_>>(), FlashOffset(0x100));
    let sub = root.subslice_at(0x104..0x10A).unwrap();
    assert_eq!(sub.offset(), FlashOffset(0x104));
    assert_eq!(sub.as_bytes(), &[4, 5, 6, 7, 8, 9]);
}

#[test]
fn subslice_at_out_of_bounds() {
    let root = SourceBytes::with_offset((0u8..16).collect::<Vec<_>>(), FlashOffset(0x100));
    assert!(root.subslice_at(0x0FF..0x101).is_none()); // before
    assert!(root.subslice_at(0x110..0x120).is_none()); // after
    let inverted: Range<u64> = Range {
        start: 0x108,
        end: 0x104,
    };
    assert!(root.subslice_at(inverted).is_none()); // inverted
}

#[test]
fn slice_helper() {
    let s = sample();
    let chunk = s.slice(2, 4).unwrap();
    assert_eq!(chunk.as_bytes(), &[2, 3, 4, 5]);
    assert_eq!(chunk.offset(), FlashOffset(2));

    // Past end
    assert!(s.slice(14, 4).is_none());
}

#[test]
fn clone_is_cheap_and_preserves_view() {
    // We can't directly assert refcount semantics in a unit test, but we
    // can at least confirm that cloning yields an identical view.
    let s = sample();
    let t = s.clone();
    assert_eq!(s, t);
    assert_eq!(s.as_bytes(), t.as_bytes());
}

#[test]
fn empty_subslice_allowed() {
    let s = sample();
    let empty = s.subslice(4..4).unwrap();
    assert!(empty.is_empty());
    assert_eq!(empty.len(), 0);
    assert_eq!(empty.offset(), FlashOffset(4));
    assert_eq!(empty.as_bytes(), b"");
}

#[test]
fn equality_compares_offset_and_bytes() {
    let a = SourceBytes::with_offset(vec![1u8, 2, 3], FlashOffset(0x10));
    let b = SourceBytes::with_offset(vec![1u8, 2, 3], FlashOffset(0x10));
    let c = SourceBytes::with_offset(vec![1u8, 2, 3], FlashOffset(0x20));
    let d = SourceBytes::with_offset(vec![9u8, 9, 9], FlashOffset(0x10));

    assert_eq!(a, b); // same offset, same bytes, different blob
    assert_ne!(a, c); // different offset
    assert_ne!(a, d); // different bytes
}

#[test]
fn debug_format_includes_offset_and_len() {
    let s = SourceBytes::with_offset(vec![0u8; 32], FlashOffset(0xA7000));
    let dbg = s.debug_text();
    assert!(dbg.contains("SourceBytes"));
    assert!(dbg.contains("0x000a7000"), "{dbg}");
    assert!(dbg.contains("32"), "{dbg}");
}

#[test]
fn bytes_accessor_returns_owned_handle_to_window() {
    // bytes() returns a refcounted handle to the *window* this SourceBytes
    // covers (parents and children share the same allocation, but
    // `bytes()` reflects only the slice).
    let root = SourceBytes::from_blob((0u8..16).collect::<Vec<_>>());
    let sub = root.subslice(4..8).unwrap();
    assert_eq!(sub.bytes().len(), 4);
    assert_eq!(&sub.bytes()[..], &[4u8, 5, 6, 7]);

    // Cloning the handle is cheap and yields the same content.
    let owned = sub.bytes().clone();
    assert_eq!(&owned[..], sub.as_bytes());
}

#[test]
fn part_of_a_part_is_a_part() {
    let root = SourceBytes::with_offset((0u8..32).collect::<Vec<_>>(), FlashOffset(0x40));
    let twice = root.subslice(4..20).unwrap().subslice(3..9).unwrap();
    let once = root.subslice(7..13).unwrap();
    assert_eq!(twice, once);
    assert!(twice.same(&once));
    assert_eq!(root.subslice_at(0x47..0x4D).unwrap(), once);
}

#[test]
fn slice_whose_end_overflows_is_refused() {
    assert!(sample().slice(8, usize::MAX).is_none());
}
