//! A binary container format for very large lists of fixed-size records,
//! laid out in equally long pages so that any record is found by arithmetic,
//! with heap sections for the variable-length parts of records.
//!
//! Each codec is stated by spec functions over bytes, and the executable
//! encoders and decoders are proved against them.
use vstd::prelude::*;

pub mod bytes;
pub mod codec;
mod decode;
mod encode;
pub mod heap;
mod integer;
mod option;
mod pair;
mod variable;
pub mod reader;
pub mod section;
pub mod utils;

pub use codec::{FlatCodec, HeapCodec};
pub use decode::{Decode, DecodeFromHeap};
pub use encode::{Encode, EncodeOnHeap, EncodeSized};
pub use heap::{Heap, HeapSection};
pub use section::Section;
pub use variable::encode_string_on_heap;

use crate::bytes::zeros;
use crate::heap::{lemma_padded_len, padding_of};
use crate::utils::ceil_div;

verus! {

/// Writes sections and heaps as pages of `page_len` bytes. The output holds
/// the bytes that go from the first page of the file on.
pub struct Encoder {
    output: Vec<u8>,
    page_len: u32,
    page_count: u32,
}

impl Encoder {
    /// The bytes written so far.
    pub closed spec fn spec_output(&self) -> Seq<u8> {
        self.output@
    }

    pub closed spec fn spec_page_len(&self) -> nat {
        self.page_len as nat
    }

    /// The number of pages begun so far.
    pub closed spec fn spec_page_count(&self) -> nat {
        self.page_count as nat
    }

    /// No section is open: the output is exactly the pages begun.
    pub open spec fn aligned(&self) -> bool {
        &&& self.spec_page_len() > 0
        &&& self.spec_output().len() == self.spec_page_count() * self.spec_page_len()
        &&& self.spec_output().len() <= u32::MAX
    }

    pub fn new(page_len: u32) -> (r: Encoder)
        requires
            page_len > 0,
        ensures
            r.aligned(),
            r.spec_output() == Seq::<u8>::empty(),
            r.spec_page_len() == page_len,
            r.spec_page_count() == 0,
    {
        Encoder { output: Vec::new(), page_len, page_count: 0 }
    }

    /// Begins a section of records of type `T` on the next page.
    pub fn begin_section<T: EncodeSized>(&self) -> (r: section::Encoder<T>)
        requires
            self.aligned(),
            section::fits_page(self.spec_page_len(), T::spec_encoded_size()),
        ensures
            r.wf(self),
            r.spec_page_offset() == self.spec_page_count(),
            r.spec_page_len() == self.spec_page_len(),
            r.spec_entry_count() == 0,
    {
        section::Encoder::new(self, self.page_count)
    }

    /// Gives back the bytes written.
    pub fn end(self) -> (r: Vec<u8>)
        ensures
            r@ == self.spec_output(),
    {
        self.output
    }

    /// Writes a section of `items`, with the unit context.
    pub fn section_from_iter<T: HeapCodec<()>>(&mut self, heap: &mut Heap, items: &[T]) -> (r:
        Section<T>)
        requires
            old(self).aligned(),
            section::fits_page(old(self).spec_page_len(), T::spec_encoded_size()),
            section::all_fit_on_heap::<(), T>(items.deep_view(), (), old(heap)@.len()),
            (old(self).spec_page_count() + items@.len() + 1) * old(self).spec_page_len()
                <= u32::MAX,
        ensures
            final(self).aligned(),
            r.page_offset == old(self).spec_page_count(),
            r.entry_count == items@.len(),
            final(self).spec_page_count() == r.page_offset + r.spec_page_count(
                old(self).spec_page_len(),
            ),
            final(self).spec_page_len() == old(self).spec_page_len(),
            final(heap)@ == old(heap)@ + section::pushed_heap_bytes::<(), T>(
                items.deep_view(),
                (),
                old(heap)@.len(),
            ),
            final(self).spec_output() == old(self).spec_output() + section::pushed_bytes::<(), T>(
                items.deep_view(),
                (),
                old(heap)@.len(),
                old(self).spec_page_len(),
                0,
            ) + zeros(
                padding_of(
                    section::layout_len(
                        old(self).spec_page_len(),
                        T::spec_encoded_size(),
                        items@.len(),
                    ) as int,
                    old(self).spec_page_len() as int,
                ) as nat,
            ),
    {
        self.section_from_iter_with(heap, &(), items)
    }

    /// Writes a section of `items`, encoded under `context`.
    pub fn section_from_iter_with<C, T: HeapCodec<C>>(
        &mut self,
        heap: &mut Heap,
        context: &C,
        items: &[T],
    ) -> (r: Section<T>)
        requires
            old(self).aligned(),
            section::fits_page(old(self).spec_page_len(), T::spec_encoded_size()),
            section::all_fit_on_heap::<C, T>(items.deep_view(), *context, old(heap)@.len()),
            (old(self).spec_page_count() + items@.len() + 1) * old(self).spec_page_len()
                <= u32::MAX,
        ensures
            final(self).aligned(),
            r.page_offset == old(self).spec_page_count(),
            r.entry_count == items@.len(),
            final(self).spec_page_count() == r.page_offset + r.spec_page_count(
                old(self).spec_page_len(),
            ),
            final(self).spec_page_len() == old(self).spec_page_len(),
            final(heap)@ == old(heap)@ + section::pushed_heap_bytes::<C, T>(
                items.deep_view(),
                *context,
                old(heap)@.len(),
            ),
            final(self).spec_output() == old(self).spec_output() + section::pushed_bytes::<C, T>(
                items.deep_view(),
                *context,
                old(heap)@.len(),
                old(self).spec_page_len(),
                0,
            ) + zeros(
                padding_of(
                    section::layout_len(
                        old(self).spec_page_len(),
                        T::spec_encoded_size(),
                        items@.len(),
                    ) as int,
                    old(self).spec_page_len() as int,
                ) as nat,
            ),
    {
        let mut encoder: section::Encoder<T> = self.begin_section();
        let ghost start = self.spec_page_count();
        let ghost all = items.deep_view();
        let ghost out0 = self.spec_output();
        let ghost heap0 = heap@;
        let mut i: usize = 0;
        assert(all.skip(0) =~= all);
        assert(out0 + Seq::<u8>::empty() =~= out0);
        assert(heap0 + Seq::<u8>::empty() =~= heap0);
        while i < items.len()
            invariant
                encoder.spec_page_len() == self.spec_page_len(),
                out0 + section::pushed_bytes::<C, T>(
                    all,
                    *context,
                    heap0.len(),
                    self.spec_page_len(),
                    0,
                ) == self.spec_output() + section::pushed_bytes::<C, T>(
                    all.skip(i as int),
                    *context,
                    heap@.len(),
                    self.spec_page_len(),
                    i as nat,
                ),
                heap0 + section::pushed_heap_bytes::<C, T>(all, *context, heap0.len()) == heap@
                    + section::pushed_heap_bytes::<C, T>(all.skip(i as int), *context, heap@.len()),
                i <= items@.len(),
                all == items.deep_view(),
                encoder.wf(self),
                encoder.spec_page_offset() == start,
                encoder.spec_entry_count() == i,
                self.spec_page_len() == old(self).spec_page_len(),
                section::fits_page(self.spec_page_len(), T::spec_encoded_size()),
                section::all_fit_on_heap::<C, T>(all.skip(i as int), *context, heap@.len()),
                (start + items@.len() + 1) * self.spec_page_len() <= u32::MAX,
            decreases items@.len() - i,
        {
            proof {
                encoder.lemma_pages_begun_bound(self, items@.len() as nat);
                assert(all.skip(i as int)[0] == items[i as int].deep_view());
                assert(all.skip(i as int).drop_first() =~= all.skip(i + 1));
            }
            let ghost out_before = self.spec_output();
            let ghost heap_before = heap@;
            encoder.push(self, heap, context, &items[i]);
            proof {
                let v = all.skip(i as int)[0];
                let rest = all.skip(i + 1);
                let (page, added) = T::spec_encode_on_heap(v, *context, heap_before.len());
                let pad = zeros(
                    section::push_padding(self.spec_page_len(), T::spec_encoded_size(), i as nat),
                );
                let tail = section::pushed_bytes::<C, T>(
                    rest,
                    *context,
                    heap@.len(),
                    self.spec_page_len(),
                    (i + 1) as nat,
                );
                assert(out_before + (page + pad + tail) =~= out_before + page + pad + tail);
                let htail = section::pushed_heap_bytes::<C, T>(rest, *context, heap@.len());
                assert(heap_before + (added + htail) =~= heap_before + added + htail);
            }
            i = i + 1;
        }
        proof {
            assert(all.skip(i as int) =~= Seq::<T::V>::empty());
            assert(self.spec_output() + Seq::<u8>::empty() =~= self.spec_output());
            assert(heap@ + Seq::<u8>::empty() =~= heap@);
        }
        encoder.end(self)
    }

    /// Writes `heap` on the next pages, zero-padded to whole pages, and
    /// returns where it went.
    pub fn add_heap(&mut self, heap: Heap) -> (r: HeapSection)
        requires
            old(self).aligned(),
            heap@.len() <= u32::MAX,
            (old(self).spec_page_count() + ceil_div(heap@.len(), old(self).spec_page_len()))
                * old(self).spec_page_len() <= u32::MAX,
        ensures
            final(self).aligned(),
            final(self).spec_output() == old(self).spec_output() + heap@ + zeros(
                padding_of(heap@.len() as int, old(self).spec_page_len() as int) as nat,
            ),
            r.page_offset == old(self).spec_page_count(),
            r.page_count == ceil_div(heap@.len(), old(self).spec_page_len()),
            final(self).spec_page_count() == r.page_offset + r.page_count,
            final(self).spec_page_len() == old(self).spec_page_len(),
    {
        let page_offset = self.page_count;
        let page_count = heap.page_count(self.page_len);
        let padding = heap.padding(self.page_len);
        proof {
            lemma_padded_len(heap@.len(), self.page_len as nat);
            let p = self.page_len as nat;
            let c = self.page_count as nat;
            let k = page_count as nat;
            assert(c * p + k * p == (c + k) * p) by (nonlinear_arith);
            assert(c + k <= (c + k) * p) by (nonlinear_arith)
                requires
                    p > 0,
            ;
        }
        let bytes = heap.as_bytes();
        variable::push_bytes(&mut self.output, bytes);
        option::pad(&mut self.output, padding);
        self.page_count = self.page_count + page_count;
        HeapSection { page_offset, page_count }
    }
}

} // verus!
