use std::cmp::Ordering;

use paged::reader::page::Page;
use paged::reader::{binary_search_pages, Bisection};
use paged::utils::{max, CeilingDiv};
use paged::reader::Error;
use paged::{EncodeOnHeap, Encoder, Heap, Section};

#[test]
fn section_paging() {
    let section = Section::<(u64, u32)>::new(0, 12);
    assert_eq!(section.page_count(64), 3);
    assert_eq!(section.page_size(64, 0), 5);
    assert_eq!(section.page_size(64, 1), 5);
    assert_eq!(section.page_size(64, 2), 2);
    assert_eq!(section.page_of_entry(64, 11), (2, 1));
    assert_eq!(section.offset_of_page(64, 2), 128);
}

#[test]
fn empty_section_has_no_page() {
    let section = Section::<u32>::new(4, 0);
    assert_eq!(section.page_count(4096), 0);
    assert_eq!(Section::<u32>::new(4, 1024).page_count(4096), 1);
    assert_eq!(Section::<u32>::new(4, 1025).page_count(4096), 2);
    assert_eq!(Section::<u32>::new(4, 1).offset_of_page(4096, 1), 5 * 4096);
}

#[test]
fn ceiling_division_and_max() {
    assert_eq!(7u32.ceiling_div(2), 4);
    assert_eq!(8u32.ceiling_div(2), 4);
    assert_eq!(0u32.ceiling_div(5), 0);
    assert_eq!(u32::MAX.ceiling_div(2), 0x8000_0000);
    assert_eq!(max(3, 9), 9);
    assert_eq!(max(9, 3), 9);
}

#[test]
fn heap_pages_and_padding() {
    let mut heap = Heap::new();
    assert_eq!(heap.page_count(4), 0);
    assert_eq!(heap.padding(4), 0);
    let offset = heap.insert(&(), "hello");
    assert_eq!(offset.unwrap(), 0);
    assert_eq!(heap.len(), 5);
    assert_eq!(heap.page_count(4), 2);
    assert_eq!(heap.padding(4), 3);
    let second = heap.insert(&(), &1u32);
    assert_eq!(second.unwrap(), 5);
    assert_eq!(heap.padding(3), 0);
}

#[test]
fn writer_lays_out_pages() {
    let mut encoder = Encoder::new(64);
    let mut heap = Heap::new();
    let items: Vec<(u64, u32)> = (0..12u32).map(|i| (i as u64, i)).collect();
    let section = encoder.section_from_iter(&mut heap, &items);
    assert_eq!(section.page_offset(), 0);
    assert_eq!(section.entry_count(), 12);
    let names = vec![String::from("a"), String::from("bcd")];
    let strings = encoder.section_from_iter(&mut heap, &names);
    assert_eq!(strings.page_offset(), 3);
    assert_eq!(strings.entry_count(), 2);
    let heap_section = encoder.add_heap(heap);
    assert_eq!(heap_section.page_offset, 4);
    assert_eq!(heap_section.page_count, 1);
    let bytes = encoder.end();
    assert_eq!(bytes.len(), 5 * 64);
    // record 1 follows record 0; record 5 opens the second page.
    assert_eq!(&bytes[12..24], &[0, 0, 0, 0, 0, 0, 0, 1, 0, 0, 0, 1]);
    assert_eq!(&bytes[60..64], &[0, 0, 0, 0]);
    assert_eq!(&bytes[64..76], &[0, 0, 0, 0, 0, 0, 0, 5, 0, 0, 0, 5]);
    assert_eq!(&bytes[3 * 64..3 * 64 + 16], &[0, 0, 0, 0, 0, 0, 0, 1, 0, 0, 0, 1, 0, 0, 0, 3]);
    assert_eq!(&bytes[4 * 64..4 * 64 + 4], b"abcd");
    assert!(bytes[4 * 64 + 4..].iter().all(|b| *b == 0));
}

#[test]
fn section_encoder_pushes_one_record_at_a_time() {
    let mut encoder = Encoder::new(8);
    let mut heap = Heap::new();
    let mut section = encoder.begin_section::<(u16, u8)>();
    section.push(&mut encoder, &mut heap, &(), &(1, 2));
    assert_eq!(section.page_count(), 1);
    section.push(&mut encoder, &mut heap, &(), &(3, 4));
    section.push(&mut encoder, &mut heap, &(), &(5, 6));
    assert_eq!(section.page_count(), 2);
    let s = section.end(&mut encoder);
    assert_eq!(s.entry_count(), 3);
    assert_eq!(s.page_count(8), 2);
    let bytes = encoder.end();
    assert_eq!(bytes, vec![0, 1, 2, 0, 3, 4, 0, 0, 0, 5, 6, 0, 0, 0, 0, 0]);
}

fn page_of(values: &[u32]) -> Page<u32> {
    let mut page = Page::new();
    for v in values {
        page.push(*v);
    }
    page
}

#[test]
fn page_binary_search() {
    let page = page_of(&[1, 3, 5, 7]);
    let by = |t: &u32, k: &u32| t.cmp(k);
    assert_eq!(page.binary_search_by_key(&5, by), Ok(2));
    assert_eq!(page.binary_search_by_key(&1, by), Ok(0));
    assert_eq!(page.binary_search_by_key(&7, by), Ok(3));
    assert_eq!(page.binary_search_by_key(&0, by), Err(Ordering::Greater));
    assert_eq!(page.binary_search_by_key(&9, by), Err(Ordering::Less));
    assert_eq!(page.binary_search_by_key(&4, by), Err(Ordering::Equal));
    assert_eq!(page_of(&[]).binary_search_by_key(&4, by), Err(Ordering::Equal));
}

#[test]
fn page_decodes_records_against_a_heap() {
    let mut heap = Heap::new();
    let mut bytes = Vec::new();
    for (id, name) in [(1u32, "a"), (2, "bc")] {
        (id, String::from(name)).encode_on_heap(&(), &mut heap, &mut bytes);
    }
    let mut page: Page<(u32, String)> = Page::new();
    assert_eq!(page.decode_entries(&bytes, 2, &(), heap.as_bytes()), Ok(()));
    assert_eq!(page.len(), 2);
    assert_eq!(page.get(1), Some(&(2, String::from("bc"))));
    let mut short: Page<(u32, String)> = Page::new();
    assert_eq!(short.decode_entries(&bytes[..20], 2, &(), heap.as_bytes()), Err(Error::UnexpectedEof));
}

#[test]
fn page_access() {
    let mut page = page_of(&[4, 8]);
    assert_eq!(page.get(1), Some(&8));
    assert_eq!(page.get(2), None);
    assert_eq!(page.iter(), &[4, 8]);
    assert_eq!(paged::reader::page::GetEntryBinder::new(1).bind(&page), &8);
    assert_eq!(paged::reader::page::IterBinder::new().bind(&page), &[4, 8]);
    page.clear();
    assert_eq!(page.len(), 0);
}

#[test]
fn section_binary_search() {
    let pages = vec![page_of(&[1, 3]), page_of(&[5, 7]), page_of(&[9])];
    let by = |t: &u32, k: &u32| t.cmp(k);
    assert_eq!(binary_search_pages(&pages, &7, by), Some((1, 1)));
    assert_eq!(binary_search_pages(&pages, &1, by), Some((0, 0)));
    assert_eq!(binary_search_pages(&pages, &9, by), Some((2, 0)));
    assert_eq!(binary_search_pages(&pages, &4, by), None);
    assert_eq!(binary_search_pages(&pages, &0, by), None);
    assert_eq!(binary_search_pages(&pages, &10, by), None);
    let none: Vec<Page<u32>> = Vec::new();
    assert_eq!(binary_search_pages(&none, &1, by), None);
}

#[test]
fn bisection_steps() {
    let mut b = Bisection::new(5);
    assert_eq!(b.next_page(), Some(2));
    b.update(2, Ordering::Less);
    assert_eq!(b, Bisection { min: 3, max: 5 });
    assert_eq!(b.next_page(), Some(4));
    b.update(4, Ordering::Greater);
    assert_eq!(b.next_page(), Some(3));
    b.update(3, Ordering::Equal);
    assert_eq!(b.next_page(), None);
}
