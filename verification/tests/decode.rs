use otlayout::parser::{
    i16_bound, LazyArray16, LazyArray32, Offset, Offset16, Offset32, Stream, F2DOT14, U24,
};
use otlayout::parser::FromData;
use otlayout::{GlyphId, Tag};

fn push16(v: &mut Vec<u8>, x: u16) {
    v.extend_from_slice(&x.to_be_bytes());
}

fn push32(v: &mut Vec<u8>, x: u32) {
    v.extend_from_slice(&x.to_be_bytes());
}

#[test]
fn primitive_reads_are_big_endian() {
    let data = [0x12u8, 0x34, 0x56, 0x78];
    assert_eq!(u8::parse(&data[..1]), Some(0x12));
    assert_eq!(i8::parse(&[0xFFu8][..]), Some(-1));
    assert_eq!(u16::parse(&data[..2]), Some(0x1234));
    assert_eq!(i16::parse(&[0xFFu8, 0xFE][..]), Some(-2));
    assert_eq!(u32::parse(&data[..]), Some(0x12345678));
    assert_eq!(i32::parse(&[0xFFu8, 0xFF, 0xFF, 0xFF][..]), Some(-1));
    assert_eq!(U24::parse(&data[..3]), Some(U24(0x123456)));
    assert_eq!(F2DOT14::parse(&[0x40u8, 0x00][..]), Some(F2DOT14(0x4000)));
}

#[test]
fn parse_rejects_wrong_window_width() {
    let data = [1u8, 2, 3];
    assert_eq!(u16::parse(&data[..]), None);
    assert_eq!(u32::parse(&data[..]), None);
    assert_eq!(u8::parse(&data[..]), None);
}

#[test]
fn tag_from_bytes_packs_big_endian() {
    let t = Tag::from_bytes(b"latn");
    assert_eq!(t.0, 0x6C61746E);
}

#[test]
fn lazy_array16_get_len_last() {
    let bytes = [0u8, 5, 0, 10, 0, 15];
    let a = LazyArray16::<GlyphId>::new(&bytes[..]);
    assert_eq!(a.len(), 3);
    assert!(!a.is_empty());
    assert_eq!(a.get(0), Some(GlyphId(5)));
    assert_eq!(a.get(2), Some(GlyphId(15)));
    assert_eq!(a.get(3), None);
    assert_eq!(a.last(), Some(GlyphId(15)));
    // A trailing partial stride is dropped, never an error.
    let b = LazyArray16::<GlyphId>::new(&bytes[..5]);
    assert_eq!(b.len(), 2);
    assert_eq!(b.get(1), Some(GlyphId(10)));
}

#[test]
fn lazy_array16_slice() {
    let bytes = [0u8, 5, 0, 10, 0, 15];
    let a = LazyArray16::<GlyphId>::new(&bytes[..]);
    let s = a.slice(1, 3).unwrap();
    assert_eq!(s.len(), 2);
    assert_eq!(s.get(0), Some(GlyphId(10)));
    assert!(a.slice(2, 1).is_none());
    assert!(a.slice(0, 4).is_none());
}

#[test]
fn binary_search_empty_is_absent() {
    let a = LazyArray16::<GlyphId>::new(&[]);
    assert!(a.binary_search(&GlyphId(0)).is_none());
    let b = LazyArray32::<GlyphId>::new(&[]);
    assert!(b.binary_search(&GlyphId(0)).is_none());
}

#[test]
fn binary_search_single_element() {
    let bytes = [0u8, 42];
    let a = LazyArray16::<GlyphId>::new(&bytes[..]);
    assert_eq!(a.binary_search(&GlyphId(42)), Some((0, GlyphId(42))));
    assert!(a.binary_search(&GlyphId(41)).is_none());
    assert!(a.binary_search(&GlyphId(43)).is_none());
}

#[test]
fn binary_search_sorted_array() {
    let mut v = Vec::new();
    for g in [2u16, 4, 8, 16, 32, 64] {
        push16(&mut v, g);
    }
    let a = LazyArray16::<GlyphId>::new(&v[..]);
    for (i, g) in [2u16, 4, 8, 16, 32, 64].iter().enumerate() {
        assert_eq!(a.binary_search(&GlyphId(*g)), Some((i as u16, GlyphId(*g))));
    }
    assert!(a.binary_search(&GlyphId(3)).is_none());
    assert!(a.binary_search(&GlyphId(0)).is_none());
    assert!(a.binary_search(&GlyphId(65)).is_none());
    let b = LazyArray32::<GlyphId>::new(&v[..]);
    assert_eq!(b.binary_search(&GlyphId(16)), Some((3, GlyphId(16))));
    assert!(b.binary_search(&GlyphId(5)).is_none());
}

#[test]
fn lazy_array_iter_matches_get() {
    let bytes = [0u8, 5, 0, 10, 0, 15];
    let a = LazyArray16::<GlyphId>::new(&bytes[..]);
    let mut it = a.iter();
    assert_eq!(it.next(), Some(GlyphId(5)));
    assert_eq!(it.next(), Some(GlyphId(10)));
    assert_eq!(it.next(), Some(GlyphId(15)));
    assert_eq!(it.next(), None);
    assert_eq!(a.iter().nth(2), Some(GlyphId(15)));
    let b = LazyArray32::<GlyphId>::new(&bytes[..]);
    let mut it32 = b.iter();
    assert_eq!(it32.count(), 3);
    assert_eq!(it32.next(), Some(GlyphId(5)));
    assert_eq!(it32.nth(2), Some(GlyphId(15)));
}

#[test]
fn stream_sequential_reads() {
    let mut v = Vec::new();
    push32(&mut v, 0xDEADBEEF);
    push16(&mut v, 7);
    let mut s = Stream::new(&v[..]);
    assert!(!s.at_end());
    assert_eq!(s.read::<u32>(), Some(0xDEADBEEF));
    assert_eq!(s.offset(), 4);
    assert_eq!(s.read::<u16>(), Some(7));
    assert!(s.at_end());
    assert_eq!(s.read::<u16>(), None);
}

#[test]
fn stream_new_at_and_tail() {
    let v = [1u8, 2, 3, 4];
    assert!(Stream::new_at(&v[..], 5).is_none());
    let s = Stream::new_at(&v[..], 2).unwrap();
    assert_eq!(s.tail(), Some(&v[2..]));
    let mut s2 = Stream::new(&v[..]);
    s2.jump_to_end();
    assert!(s2.at_end());
    assert_eq!(s2.tail(), Some(&v[4..]));
}

#[test]
fn stream_advance_checked_fails_closed() {
    let v = [1u8, 2, 3];
    let mut s = Stream::new(&v[..]);
    assert_eq!(s.advance_checked(2), Some(()));
    assert_eq!(s.offset(), 2);
    assert_eq!(s.advance_checked(2), None);
    assert_eq!(s.offset(), 2);
}

#[test]
fn stream_read_at_is_positional() {
    let v = [0u8, 0, 0x12, 0x34];
    assert_eq!(Stream::read_at::<u16>(&v[..], 2), Some(0x1234));
    assert_eq!(Stream::read_at::<u16>(&v[..], 3), None);
}

#[test]
fn stream_read_bytes_and_arrays() {
    let mut v = Vec::new();
    push16(&mut v, 10);
    push16(&mut v, 20);
    let mut s = Stream::new(&v[..]);
    let a = s.read_array16::<GlyphId>(2).unwrap();
    assert_eq!(a.get(0), Some(GlyphId(10)));
    assert_eq!(a.get(1), Some(GlyphId(20)));
    let mut s2 = Stream::new(&v[..]);
    assert!(s2.read_array16::<GlyphId>(3).is_none());
    assert_eq!(s2.offset(), 0);
    let mut s3 = Stream::new(&v[..]);
    let b = s3.read_array32::<GlyphId>(1).unwrap();
    assert_eq!(b.get(0), Some(GlyphId(10)));
    assert_eq!(b.len(), 1);
}

#[test]
fn null_offsets_decode_to_absent() {
    // A zero offset means "no value", not byte 0, whatever follows.
    let zero16 = [0u8, 0];
    assert_eq!(<Option<Offset16>>::parse(&zero16[..]), Some(None));
    let zero32 = [0u8, 0, 0, 0];
    assert_eq!(<Option<Offset32>>::parse(&zero32[..]), Some(None));
    let nz16 = [0u8, 9];
    assert_eq!(<Option<Offset16>>::parse(&nz16[..]), Some(Some(Offset16(9))));
    let nz32 = [0u8, 0, 0, 9];
    assert_eq!(<Option<Offset32>>::parse(&nz32[..]), Some(Some(Offset32(9))));
}

#[test]
fn offsets_resolve_and_skip_nulls() {
    // Base buffer with an offset array at its start: offsets 6, 0, 8.
    let mut v = Vec::new();
    push16(&mut v, 6);
    push16(&mut v, 0);
    push16(&mut v, 8);
    v.extend_from_slice(&[0xAA, 0xBB, 0xCC]);
    let base: &[u8] = &v[..];
    let mut s = Stream::new(base);
    let offsets = s.read_offsets16(3, base).unwrap();
    assert_eq!(offsets.len(), 3);
    assert_eq!(offsets.slice(0), Some(&base[6..]));
    assert_eq!(offsets.slice(2), Some(&base[8..]));
    let mut it = offsets.iter();
    assert_eq!(it.next(), Some(&base[6..]));
    assert_eq!(it.next(), Some(&base[8..]));
    assert_eq!(it.next(), None);
}

#[test]
fn offset_is_null_and_to_usize() {
    assert!(Offset16(0).is_null());
    assert!(!Offset16(3).is_null());
    assert_eq!(Offset16(3).to_usize(), 3);
    assert!(Offset32(0).is_null());
    assert_eq!(Offset32(70000).to_usize(), 70000);
}

#[test]
fn i16_bound_clamps() {
    assert_eq!(i16_bound(-5, 0, 5), 0);
    assert_eq!(i16_bound(-5, -9, 5), -5);
    assert_eq!(i16_bound(-5, 9, 5), 5);
    // When the bounds cross, the lower bound wins.
    assert_eq!(i16_bound(5, 0, -5), 5);
}

#[test]
fn stream_skip_advances_without_decoding() {
    let mut v = Vec::new();
    push16(&mut v, 0xFFFF);
    push16(&mut v, 7);
    let mut s = Stream::new(&v[..]);
    s.skip::<u16>();
    assert_eq!(s.offset(), 2);
    assert_eq!(s.read::<u16>(), Some(7));
}

#[test]
fn f2dot14_negative_values() {
    assert_eq!(F2DOT14::parse(&[0xC0u8, 0x00][..]), Some(F2DOT14(-16384)));
    assert_eq!(F2DOT14::parse(&[0xFFu8, 0xFF][..]), Some(F2DOT14(-1)));
}

#[test]
fn lazy_array32_len_and_get() {
    let bytes = [0u8, 1, 0, 2, 0, 3, 0];
    let a = LazyArray32::<GlyphId>::new(&bytes[..]);
    assert_eq!(a.len(), 3);
    assert_eq!(a.get(0), Some(GlyphId(1)));
    assert_eq!(a.get(2), Some(GlyphId(3)));
    assert_eq!(a.get(3), None);
}

#[test]
fn decoding_is_idempotent() {
    let mut v = Vec::new();
    for g in [2u16, 4, 8] {
        push16(&mut v, g);
    }
    let a = LazyArray16::<GlyphId>::new(&v[..]);
    assert_eq!(a.get(1), a.get(1));
    assert_eq!(a.binary_search(&GlyphId(4)), a.binary_search(&GlyphId(4)));
    let mut s1 = Stream::new(&v[..]);
    let mut s2 = Stream::new(&v[..]);
    assert_eq!(s1.read::<u16>(), s2.read::<u16>());
}
