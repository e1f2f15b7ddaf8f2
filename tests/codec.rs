use paged::heap::{Entry, Offset};
use paged::reader::Error;
use paged::utils::Inline;
use paged::{Decode, DecodeFromHeap, Encode, EncodeOnHeap, EncodeSized, Heap, HeapSection, Section};

fn flat<T: Encode<()>>(v: &T) -> Vec<u8> {
    let mut out = Vec::new();
    let n = v.encode(&(), &mut out);
    assert_eq!(n as usize, out.len());
    out
}

#[test]
fn integers_round_trip() {
    let bytes = flat(&0xDEADBEEFu32);
    assert_eq!(bytes, vec![0xDE, 0xAD, 0xBE, 0xEF]);
    let (v, next) = <u32 as Decode<()>>::decode(&bytes, 0, &()).unwrap();
    assert_eq!(v, 0xDEADBEEF);
    assert_eq!(next, 4);
}

#[test]
fn integer_widths_are_big_endian() {
    assert_eq!(flat(&0x12u8), vec![0x12]);
    assert_eq!(flat(&0x1234u16), vec![0x12, 0x34]);
    assert_eq!(flat(&0x0102030405060708u64), vec![1, 2, 3, 4, 5, 6, 7, 8]);
    assert_eq!(flat(&1u128).len(), 16);
    assert_eq!(flat(&-2i32), vec![0xFF, 0xFF, 0xFF, 0xFE]);
    assert_eq!(flat(&-1i8), vec![0xFF]);
    assert_eq!(<u64 as EncodeSized>::encoded_size(), 8);
    assert_eq!(<i128 as EncodeSized>::encoded_size(), 16);
}

#[test]
fn signed_integers_round_trip() {
    for v in [i64::MIN, -1, 0, 1, i64::MAX] {
        let bytes = flat(&v);
        assert_eq!(<i64 as Decode<()>>::decode(&bytes, 0, &()).unwrap(), (v, 8));
    }
    let bytes = flat(&i16::MIN);
    assert_eq!(bytes, vec![0x80, 0x00]);
    assert_eq!(<i16 as Decode<()>>::decode(&bytes, 0, &()).unwrap(), (i16::MIN, 2));
}

#[test]
fn truncated_integer_is_unexpected_eof() {
    let bytes = vec![1u8, 2, 3];
    assert_eq!(<u32 as Decode<()>>::decode(&bytes, 0, &()), Err(Error::UnexpectedEof));
    assert_eq!(<u8 as Decode<()>>::decode(&bytes, 3, &()), Err(Error::UnexpectedEof));
}

#[test]
fn decode_reads_at_the_position() {
    let bytes = vec![9u8, 0, 0, 0, 5, 7];
    assert_eq!(<u32 as Decode<()>>::decode(&bytes, 1, &()).unwrap(), (5, 5));
}

#[test]
fn option_padding() {
    assert_eq!(<Option<u64> as EncodeSized>::encoded_size(), 9);
    assert_eq!(flat(&None::<u64>), vec![0, 0, 0, 0, 0, 0, 0, 0, 0]);
    assert_eq!(flat(&Some(1u64)), vec![1, 0, 0, 0, 0, 0, 0, 0, 1]);
}

#[test]
fn option_round_trip_and_errors() {
    let none = flat(&None::<u16>);
    assert_eq!(<Option<u16> as Decode<()>>::decode(&none, 0, &()).unwrap(), (None, 3));
    let some = flat(&Some(0xABCDu16));
    assert_eq!(<Option<u16> as Decode<()>>::decode(&some, 0, &()).unwrap(), (Some(0xABCD), 3));
    let bad = vec![2u8, 0, 0];
    assert_eq!(<Option<u16> as Decode<()>>::decode(&bad, 0, &()), Err(Error::InvalidData));
    let short = vec![0u8, 0];
    assert_eq!(<Option<u16> as Decode<()>>::decode(&short, 0, &()), Err(Error::UnexpectedEof));
    let empty: Vec<u8> = Vec::new();
    assert_eq!(<Option<u16> as Decode<()>>::decode(&empty, 0, &()), Err(Error::UnexpectedEof));
}

#[test]
fn pair_concatenates() {
    let bytes = flat(&(1u8, 0x0203u16));
    assert_eq!(bytes, vec![1, 2, 3]);
    assert_eq!(<(u8, u16) as EncodeSized>::encoded_size(), 3);
    assert_eq!(<(u8, u16) as Decode<()>>::decode(&bytes, 0, &()).unwrap(), ((1, 0x0203), 3));
}

#[test]
fn sum_type_discriminant_padding() {
    // Cause = Stated(u32) | Entailed(u32): one discriminant byte, then the
    // widest variant's four bytes.
    let size = 1 + paged::utils::max(<u32 as EncodeSized>::encoded_size(), <u32 as EncodeSized>::encoded_size());
    assert_eq!(size, 5);
    let mut stated = Vec::new();
    0u8.encode(&(), &mut stated);
    7u32.encode(&(), &mut stated);
    assert_eq!(stated, vec![0, 0, 0, 0, 7]);
    let mut entailed = Vec::new();
    1u8.encode(&(), &mut entailed);
    7u32.encode(&(), &mut entailed);
    assert_eq!(entailed, vec![1, 0, 0, 0, 7]);
}

#[test]
fn string_on_heap() {
    let mut heap = Heap::new();
    let mut page = Vec::new();
    let n = String::from("hi").encode_on_heap(&(), &mut heap, &mut page);
    assert_eq!(n, 8);
    assert_eq!(page, vec![0, 0, 0, 0, 0, 0, 0, 2]);
    assert_eq!(heap.as_bytes(), &[0x68, 0x69]);
    let (s, next) = <String as DecodeFromHeap<()>>::decode_from_heap(&page, 0, &(), heap.as_bytes()).unwrap();
    assert_eq!(s, "hi");
    assert_eq!(next, 8);
}

#[test]
fn second_string_points_past_the_first() {
    let mut heap = Heap::new();
    let mut page = Vec::new();
    (String::from("ab"), String::from("cde")).encode_on_heap(&(), &mut heap, &mut page);
    assert_eq!(page, vec![0, 0, 0, 0, 0, 0, 0, 2, 0, 0, 0, 2, 0, 0, 0, 3]);
    assert_eq!(heap.as_bytes(), b"abcde");
    let (v, next) =
        <(String, String) as DecodeFromHeap<()>>::decode_from_heap(&page, 0, &(), heap.as_bytes()).unwrap();
    assert_eq!(v, (String::from("ab"), String::from("cde")));
    assert_eq!(next, 16);
}

#[test]
fn encode_string_on_heap_writes_a_stub() {
    let mut heap = Heap::new();
    heap.insert(&(), &7u8);
    let mut page = Vec::new();
    let n = paged::encode_string_on_heap(&mut heap, &mut page, "é");
    assert_eq!(n, 8);
    assert_eq!(page, vec![0, 0, 0, 1, 0, 0, 0, 2]);
    assert_eq!(heap.as_bytes(), &[7, 0xC3, 0xA9]);
}

#[test]
fn string_with_invalid_utf8_is_invalid_data() {
    let page = vec![0u8, 0, 0, 0, 0, 0, 0, 2];
    let heap = vec![0xFFu8, 0xFE];
    assert_eq!(
        <String as DecodeFromHeap<()>>::decode_from_heap(&page, 0, &(), &heap),
        Err(Error::InvalidData)
    );
}

#[test]
fn stub_outside_the_heap_is_invalid_data() {
    let page = vec![0u8, 0, 0, 1, 0, 0, 0, 4];
    let heap = b"abcd".to_vec();
    assert_eq!(
        <String as DecodeFromHeap<()>>::decode_from_heap(&page, 0, &(), &heap),
        Err(Error::InvalidData)
    );
    let page = vec![0u8, 0, 0, 9, 0, 0, 0, 0];
    assert_eq!(
        <Vec<u8> as DecodeFromHeap<()>>::decode_from_heap(&page, 0, &(), &heap),
        Err(Error::InvalidData)
    );
}

#[test]
fn vec_on_heap_round_trip() {
    let mut heap = Heap::new();
    heap.insert(&(), "xy");
    let mut page = Vec::new();
    let v: Vec<u16> = vec![1, 0x0203, 0xFFFF];
    v.encode_on_heap(&(), &mut heap, &mut page);
    assert_eq!(page, vec![0, 0, 0, 2, 0, 0, 0, 3]);
    assert_eq!(heap.as_bytes(), &[b'x', b'y', 0, 1, 2, 3, 0xFF, 0xFF]);
    let mut bytes = heap.as_bytes().to_vec();
    bytes.extend_from_slice(&[0, 0, 0]);
    let (w, next) = <Vec<u16> as DecodeFromHeap<()>>::decode_from_heap(&page, 0, &(), &bytes).unwrap();
    assert_eq!(w, v);
    assert_eq!(next, 8);
}

#[test]
fn vec_past_the_heap_end_is_unexpected_eof() {
    let page = vec![0u8, 0, 0, 0, 0, 0, 0, 3];
    let heap = vec![0u8, 1, 0, 2, 0];
    assert_eq!(
        <Vec<u16> as DecodeFromHeap<()>>::decode_from_heap(&page, 0, &(), &heap),
        Err(Error::UnexpectedEof)
    );
}

#[test]
fn empty_vec_on_heap() {
    let mut heap = Heap::new();
    let mut page = Vec::new();
    Vec::<u32>::new().encode_on_heap(&(), &mut heap, &mut page);
    assert_eq!(page, vec![0; 8]);
    assert_eq!(heap.len(), 0);
    let (w, _) = <Vec<u32> as DecodeFromHeap<()>>::decode_from_heap(&page, 0, &(), heap.as_bytes()).unwrap();
    assert!(w.is_empty());
}

#[test]
fn inline_vec_round_trip() {
    let v = Inline(vec![5u16, 6]);
    let bytes = flat(&v);
    assert_eq!(bytes, vec![0, 0, 0, 2, 0, 5, 0, 6]);
    let (w, next) = <Inline<Vec<u16>> as Decode<()>>::decode(&bytes, 0, &()).unwrap();
    assert_eq!(w, v);
    assert_eq!(next, 8);
    let short = vec![0u8, 0, 0, 2, 0, 5];
    assert_eq!(<Inline<Vec<u16>> as Decode<()>>::decode(&short, 0, &()), Err(Error::UnexpectedEof));
}

#[test]
fn descriptors_take_eight_bytes() {
    let h = HeapSection { page_offset: 3, page_count: 2 };
    let bytes = flat(&h);
    assert_eq!(bytes, vec![0, 0, 0, 3, 0, 0, 0, 2]);
    assert_eq!(<HeapSection as Decode<()>>::decode(&bytes, 0, &()).unwrap(), (h, 8));
    let s = Section::<u32>::new(1, 300);
    let bytes = flat(&s);
    assert_eq!(bytes, vec![0, 0, 0, 1, 0, 0, 1, 44]);
    let (t, _) = <Section<u32> as Decode<()>>::decode(&bytes, 0, &()).unwrap();
    assert_eq!((t.page_offset(), t.entry_count()), (1, 300));
    let e = Offset(4).sized(9);
    assert_eq!(flat(&e), vec![0, 0, 0, 4, 0, 0, 0, 9]);
    let (f, _) = <Entry as Decode<()>>::decode(&flat(&e), 0, &()).unwrap();
    assert_eq!(f, e);
    assert_eq!(f.offset.unwrap(), 4);
}
