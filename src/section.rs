use vstd::prelude::*;

use core::marker::PhantomData;

use crate::codec::{FlatCodec, HeapCodec};
use crate::decode::{Decode, DecodeFromHeap};
use crate::encode::{clamp_u32, Encode, EncodeOnHeap, EncodeSized};
use crate::heap::Heap;
use crate::bytes::zeros;
use crate::heap::{lemma_padding, padding_of};
use crate::option::pad;
use crate::reader::Error;
use vstd::arithmetic::div_mod::lemma_fundamental_div_mod_converse;
use crate::utils::{ceil_div, lemma_ceil_div_bound, CeilingDiv};

verus! {

/// A list of records of type `T` in a file: its first page, counted from the
/// first page of the file, and its number of records.
pub struct Section<T> {
    pub page_offset: u32,
    pub entry_count: u32,
    pub t: PhantomData<T>,
}

impl<T> Clone for Section<T> {
    fn clone(&self) -> (r: Self)
        ensures
            r == *self,
    {
        Section { page_offset: self.page_offset, entry_count: self.entry_count, t: PhantomData }
    }
}

impl<T> Copy for Section<T> {

}

impl<T> DeepView for Section<T> {
    type V = Section<T>;

    open spec fn deep_view(&self) -> Section<T> {
        *self
    }
}

/// The number of records of size `size` that a page of `page_len` bytes holds.
pub open spec fn entries_per_page(page_len: nat, size: nat) -> nat {
    page_len / size
}

/// A record size that a page of `page_len` bytes can hold.
pub open spec fn fits_page(page_len: nat, size: nat) -> bool {
    0 < size <= page_len
}

/// The pages of a section hold all its records and no page more than
/// needed: an empty section takes no page.
pub proof fn section_page_count_bounds<T: EncodeSized>(section: Section<T>, page_len: nat)
    requires
        fits_page(page_len, T::spec_encoded_size()),
    ensures
        section.spec_page_count(page_len) * entries_per_page(page_len, T::spec_encoded_size())
            >= section.entry_count,
        section.entry_count > 0 ==> (section.spec_page_count(page_len) - 1) * entries_per_page(
            page_len,
            T::spec_encoded_size(),
        ) < section.entry_count,
        section.entry_count == 0 ==> section.spec_page_count(page_len) == 0,
{
    let s = T::spec_encoded_size();
    assert(page_len / s >= 1) by (nonlinear_arith)
        requires
            0 < s <= page_len,
    ;
    lemma_page_count_bounds(section.entry_count as nat, entries_per_page(page_len, s));
}

/// Every record lies in some page, and the last page is not empty.
pub proof fn lemma_page_count_bounds(entry_count: nat, per_page: nat)
    requires
        per_page > 0,
    ensures
        ceil_div(entry_count, per_page) * per_page >= entry_count,
        entry_count > 0 ==> (ceil_div(entry_count, per_page) - 1) * per_page < entry_count,
        entry_count == 0 ==> ceil_div(entry_count, per_page) == 0,
{
    let q = entry_count / per_page;
    let r = entry_count % per_page;
    assert(entry_count == q * per_page + r && 0 <= r < per_page) by (nonlinear_arith)
        requires
            q == entry_count / per_page,
            r == entry_count % per_page,
            per_page > 0,
    ;
    if r == 0 {
        if entry_count > 0 {
            assert((q - 1) * per_page < entry_count) by (nonlinear_arith)
                requires
                    entry_count == q * per_page,
                    per_page > 0,
            ;
        } else {
            assert(q == 0) by (nonlinear_arith)
                requires
                    0 == q * per_page,
                    per_page > 0,
            ;
        }
    } else {
        assert((q + 1) * per_page >= entry_count) by (nonlinear_arith)
            requires
                entry_count == q * per_page + r,
                r < per_page,
        ;
        assert(q * per_page < entry_count);
    }
}

impl<T> Section<T> {
    pub fn new(page_offset: u32, entry_count: u32) -> (r: Section<T>)
        ensures
            r.page_offset == page_offset,
            r.entry_count == entry_count,
    {
        Section { page_offset, entry_count, t: PhantomData }
    }

    pub fn page_offset(&self) -> (r: u32)
        ensures
            r == self.page_offset,
    {
        self.page_offset
    }

    pub fn entry_count(&self) -> (r: u32)
        ensures
            r == self.entry_count,
    {
        self.entry_count
    }

    /// The byte offset of page `i` of the section, counted from the first
    /// page of the file.
    pub fn offset_of_page(&self, page_len: u32, i: u32) -> (r: u32)
        requires
            page_len > 0,
            (self.page_offset + i) * page_len <= u32::MAX,
        ensures
            r == (self.page_offset + i) * page_len,
    {
        proof {
            assert(self.page_offset + i <= (self.page_offset + i) * page_len) by (nonlinear_arith)
                requires
                    page_len > 0,
            ;
        }
        (self.page_offset + i) * page_len
    }
}

impl<T: EncodeSized> Section<T> {
    /// The number of pages that the section takes.
    pub open spec fn spec_page_count(&self, page_len: nat) -> nat {
        ceil_div(
            self.entry_count as nat,
            entries_per_page(page_len, T::spec_encoded_size()),
        )
    }

    /// The number of records on page `i` of the section.
    pub open spec fn spec_page_size(&self, page_len: nat, i: nat) -> int {
        let per_page = entries_per_page(page_len, T::spec_encoded_size());
        let rest = self.entry_count - i * per_page;
        if per_page < rest {
            per_page as int
        } else {
            rest
        }
    }

    pub fn page_count(&self, page_len: u32) -> (r: u32)
        requires
            fits_page(page_len as nat, T::spec_encoded_size()),
        ensures
            r == self.spec_page_count(page_len as nat),
    {
        let size = T::encoded_size();
        let per_page = page_len / size;
        proof {
            assert(per_page >= 1) by (nonlinear_arith)
                requires
                    0 < size <= page_len,
                    per_page == page_len / size,
            ;
            lemma_ceil_div_bound(self.entry_count as nat, per_page as nat);
        }
        self.entry_count.ceiling_div(per_page)
    }

    pub fn page_size(&self, page_len: u32, i: u32) -> (r: u32)
        requires
            fits_page(page_len as nat, T::spec_encoded_size()),
            i * entries_per_page(page_len as nat, T::spec_encoded_size()) <= self.entry_count,
        ensures
            r == self.spec_page_size(page_len as nat, i as nat),
    {
        let size = T::encoded_size();
        let per_page = page_len / size;
        proof {
            assert(per_page == entries_per_page(page_len as nat, T::spec_encoded_size()));
            assert(per_page * i == i * per_page) by (nonlinear_arith);
        }
        let past_entry_count = per_page * i;
        let rest_entry_count = self.entry_count - past_entry_count;
        if per_page < rest_entry_count {
            per_page
        } else {
            rest_entry_count
        }
    }

    /// The page that holds record `i`, and its place on that page.
    pub fn page_of_entry(&self, page_len: u32, i: u32) -> (r: (u32, u32))
        requires
            fits_page(page_len as nat, T::spec_encoded_size()),
        ensures
            r.0 == (i as nat) / entries_per_page(page_len as nat, T::spec_encoded_size()),
            r.1 == (i as nat) % entries_per_page(page_len as nat, T::spec_encoded_size()),
    {
        let size = T::encoded_size();
        let per_page = page_len / size;
        proof {
            assert(per_page >= 1) by (nonlinear_arith)
                requires
                    0 < size <= page_len,
                    per_page == page_len / size,
            ;
        }
        (i / per_page, i % per_page)
    }
}

impl<T> EncodeSized for Section<T> {
    open spec fn spec_encoded_size() -> nat {
        8
    }

    fn encoded_size() -> (r: u32) {
        8
    }
}

impl<C, T> Encode<C> for Section<T> {
    open spec fn spec_encode(v: Section<T>, context: C) -> Seq<u8> {
        <(u32, u32) as Encode<C>>::spec_encode((v.page_offset, v.entry_count), context)
    }

    fn encode(&self, context: &C, output: &mut Vec<u8>) -> (r: u32) {
        proof {
            <(u32, u32) as FlatCodec<C>>::lemma_encoded_size(
                (self.page_offset, self.entry_count),
                *context,
            );
        }
        (self.page_offset, self.entry_count).encode(context, output)
    }
}

impl<C, T> EncodeOnHeap<C> for Section<T> {
    open spec fn spec_fits_on_heap(v: Section<T>, context: C, heap_len: nat) -> bool {
        true
    }

    open spec fn spec_encode_on_heap(v: Section<T>, context: C, heap_len: nat) -> (
        Seq<u8>,
        Seq<u8>,
    ) {
        (<Section<T> as Encode<C>>::spec_encode(v, context), Seq::empty())
    }

    fn encode_on_heap(&self, context: &C, heap: &mut Heap, output: &mut Vec<u8>) -> (r: u32) {
        assert(heap@ + Seq::<u8>::empty() =~= heap@);
        self.encode(context, output)
    }
}

impl<C, T> Decode<C> for Section<T> {
    open spec fn spec_decode(bytes: Seq<u8>, context: C) -> Result<(Section<T>, nat), Error> {
        match <(u32, u32) as Decode<C>>::spec_decode(bytes, context) {
            Ok(((o, c), n)) => Ok((Section { page_offset: o, entry_count: c, t: PhantomData }, n)),
            Err(e) => Err(e),
        }
    }

    fn decode(input: &[u8], pos: usize, context: &C) -> (r: Result<(Section<T>, usize), Error>) {
        match <(u32, u32) as Decode<C>>::decode(input, pos, context) {
            Ok(((o, c), next)) => Ok((Section { page_offset: o, entry_count: c, t: PhantomData }, next)),
            Err(e) => Err(e),
        }
    }
}

impl<C, T> DecodeFromHeap<C> for Section<T> {
    open spec fn spec_decode_from_heap(bytes: Seq<u8>, context: C, heap: Seq<u8>) -> Result<
        (Section<T>, nat),
        Error,
    > {
        <Section<T> as Decode<C>>::spec_decode(bytes, context)
    }

    fn decode_from_heap(input: &[u8], pos: usize, context: &C, heap: &[u8]) -> (r: Result<
        (Section<T>, usize),
        Error,
    >) {
        <Section<T> as Decode<C>>::decode(input, pos, context)
    }
}

impl<C, T> FlatCodec<C> for Section<T> {
    proof fn lemma_encoded_size(v: Section<T>, context: C) {
        <(u32, u32) as FlatCodec<C>>::lemma_encoded_size((v.page_offset, v.entry_count), context);
    }

    proof fn lemma_round_trip(v: Section<T>, context: C, rest: Seq<u8>) {
        <(u32, u32) as FlatCodec<C>>::lemma_round_trip((v.page_offset, v.entry_count), context, rest);
        assert(v.t == PhantomData::<T>);
    }
}

impl<C, T> HeapCodec<C> for Section<T> {
    proof fn lemma_heap_encoded_size(v: Section<T>, context: C, heap_len: nat) {
        <Section<T> as FlatCodec<C>>::lemma_encoded_size(v, context);
    }

    proof fn lemma_heap_round_trip(
        v: Section<T>,
        context: C,
        heap: Seq<u8>,
        rest: Seq<u8>,
        tail: Seq<u8>,
    ) {
        <Section<T> as FlatCodec<C>>::lemma_round_trip(v, context, rest);
    }
}

/// Whether each of `items`, encoded in turn onto a heap that starts with
/// `heap_len` bytes, fits there.
pub open spec fn all_fit_on_heap<C, T: EncodeOnHeap<C>>(
    items: Seq<T::V>,
    context: C,
    heap_len: nat,
) -> bool
    decreases items.len(),
{
    items.len() > 0 ==> {
        &&& T::spec_fits_on_heap(items[0], context, heap_len)
        &&& all_fit_on_heap::<C, T>(
            items.drop_first(),
            context,
            heap_len + T::spec_encode_on_heap(items[0], context, heap_len).1.len(),
        )
    }
}

/// The bytes that writing `items` adds to the output of a section whose
/// next record is number `entry_count`, onto a heap of `heap_len` bytes:
/// each record's page bytes, then the zeros that close a full page.
pub open spec fn pushed_bytes<C, T: EncodeOnHeap<C>>(
    items: Seq<T::V>,
    context: C,
    heap_len: nat,
    page_len: nat,
    entry_count: nat,
) -> Seq<u8>
    decreases items.len(),
{
    if items.len() == 0 {
        Seq::empty()
    } else {
        let (page, added) = T::spec_encode_on_heap(items[0], context, heap_len);
        page + zeros(push_padding(page_len, T::spec_encoded_size(), entry_count)) + pushed_bytes::<
            C,
            T,
        >(items.drop_first(), context, heap_len + added.len(), page_len, entry_count + 1)
    }
}

/// The bytes that writing `items` adds to a heap of `heap_len` bytes.
pub open spec fn pushed_heap_bytes<C, T: EncodeOnHeap<C>>(
    items: Seq<T::V>,
    context: C,
    heap_len: nat,
) -> Seq<u8>
    decreases items.len(),
{
    if items.len() == 0 {
        Seq::empty()
    } else {
        let added = T::spec_encode_on_heap(items[0], context, heap_len).1;
        added + pushed_heap_bytes::<C, T>(items.drop_first(), context, heap_len + added.len())
    }
}

/// The zero bytes written after record number `entry_count` (counting
/// from zero): the rest of the page where no further record fits there.
pub open spec fn push_padding(page_len: nat, size: nat, entry_count: nat) -> nat {
    let per_page = entries_per_page(page_len, size);
    if entry_count % per_page + 1 == per_page {
        (page_len - per_page * size) as nat
    } else {
        0
    }
}

/// Where `entry_count` records of `size` bytes end in a section of pages of
/// `page_len` bytes: whole pages, then the records of the last page.
pub open spec fn layout_len(page_len: nat, size: nat, entry_count: nat) -> nat {
    let per_page = entries_per_page(page_len, size);
    (entry_count / per_page) * page_len + (entry_count % per_page) * size
}

/// The layout arithmetic of one more record.
proof fn lemma_layout(p: nat, s: nat, ec: nat)
    requires
        fits_page(p, s),
    ensures
        entries_per_page(p, s) >= 1,
        entries_per_page(p, s) * s <= p,
        p - entries_per_page(p, s) * s < s,
        ec == (ec / entries_per_page(p, s)) * entries_per_page(p, s) + ec % entries_per_page(p, s),
        ec % entries_per_page(p, s) < entries_per_page(p, s),
        (ec % entries_per_page(p, s)) * s + s <= p,
        ((ec / entries_per_page(p, s)) * p + (ec % entries_per_page(p, s)) * s) % p == (ec
            % entries_per_page(p, s)) * s,
        ec <= (ec / entries_per_page(p, s)) * p + (ec % entries_per_page(p, s)) * s,
        ec % entries_per_page(p, s) + 1 < entries_per_page(p, s) ==> (ec + 1) / entries_per_page(
            p,
            s,
        ) == ec / entries_per_page(p, s) && (ec + 1) % entries_per_page(p, s) == ec
            % entries_per_page(p, s) + 1,
        ec % entries_per_page(p, s) + 1 == entries_per_page(p, s) ==> (ec + 1) / entries_per_page(
            p,
            s,
        ) == ec / entries_per_page(p, s) + 1 && (ec + 1) % entries_per_page(p, s) == 0,
        ec % entries_per_page(p, s) + 1 < entries_per_page(p, s) ==> padding_of(
            ((ec / entries_per_page(p, s)) * p + (ec % entries_per_page(p, s) + 1) * s) as int,
            p as int,
        ) >= s,
        ec % entries_per_page(p, s) + 1 == entries_per_page(p, s) ==> padding_of(
            ((ec / entries_per_page(p, s)) * p + (ec % entries_per_page(p, s) + 1) * s) as int,
            p as int,
        ) == p - entries_per_page(p, s) * s,
        ec % entries_per_page(p, s) > 0 ==> padding_of(
            ((ec / entries_per_page(p, s)) * p + (ec % entries_per_page(p, s)) * s) as int,
            p as int,
        ) == p - (ec % entries_per_page(p, s)) * s,
        ceil_div(ec, entries_per_page(p, s)) == ec / entries_per_page(p, s) + if ec
            % entries_per_page(p, s) > 0 {
            1nat
        } else {
            0nat
        },
{
    let epp = p / s;
    let full = ec / epp;
    let part = ec % epp;
    assert(epp >= 1 && epp * s <= p && p < epp * s + s) by (nonlinear_arith)
        requires
            0 < s <= p,
            epp == p / s,
    ;
    assert(ec == full * epp + part && part < epp) by (nonlinear_arith)
        requires
            epp >= 1,
            full == ec / epp,
            part == ec % epp,
    ;
    assert(part * s + s <= p) by (nonlinear_arith)
        requires
            part < epp,
            epp * s <= p,
    ;
    assert(ec <= full * p + part * s) by (nonlinear_arith)
        requires
            ec == full * epp + part,
            epp <= p,
            s >= 1,
    ;
    assert(epp <= p) by (nonlinear_arith)
        requires
            epp * s <= p,
            s >= 1,
    ;
    lemma_fundamental_div_mod_converse(
        (full * p + part * s) as int,
        p as int,
        full as int,
        (part * s) as int,
    );
    if part + 1 < epp {
        lemma_fundamental_div_mod_converse((ec + 1) as int, epp as int, full as int, (part + 1) as int);
        assert((part + 1) * s + s <= p) by (nonlinear_arith)
            requires
                part + 2 <= epp,
                epp * s <= p,
        ;
        lemma_fundamental_div_mod_converse(
            (full * p + (part + 1) * s) as int,
            p as int,
            full as int,
            ((part + 1) * s) as int,
        );
        assert((part + 1) * s > 0) by (nonlinear_arith)
            requires
                s > 0,
        ;
        lemma_padding((full * p + (part + 1) * s) as int, p as int);
    } else {
        assert(ec + 1 == (full + 1) * epp + 0) by (nonlinear_arith)
            requires
                ec == full * epp + part,
                part + 1 == epp,
        ;
        lemma_fundamental_div_mod_converse((ec + 1) as int, epp as int, (full + 1) as int, 0);
        if epp * s < p {
            lemma_fundamental_div_mod_converse(
                (full * p + epp * s) as int,
                p as int,
                full as int,
                (epp * s) as int,
            );
        } else {
            assert(full * p + epp * s == (full + 1) * p + 0) by (nonlinear_arith)
                requires
                    epp * s == p,
            ;
            lemma_fundamental_div_mod_converse(
                (full * p + epp * s) as int,
                p as int,
                (full + 1) as int,
                0,
            );
        }
        lemma_padding((full * p + (part + 1) * s) as int, p as int);
    }
    if part > 0 {
        assert(part * s > 0) by (nonlinear_arith)
            requires
                s > 0,
                part > 0,
        ;
        lemma_padding((full * p + part * s) as int, p as int);
        lemma_fundamental_div_mod_converse(ec as int, epp as int, full as int, part as int);
    } else {
        lemma_fundamental_div_mod_converse(ec as int, epp as int, full as int, 0);
    }
}

/// Writes the records of one section, page by page.
pub struct Encoder<T> {
    page_len: u32,
    page_offset: u32,
    len: u32,
    entry_count: u32,
    empty_page: bool,
    t: PhantomData<T>,
}

impl<T: EncodeSized> Encoder<T> {
    /// The first page of the section.
    pub closed spec fn spec_page_offset(&self) -> nat {
        self.page_offset as nat
    }

    /// The number of records written.
    pub closed spec fn spec_entry_count(&self) -> nat {
        self.entry_count as nat
    }

    pub closed spec fn spec_page_len(&self) -> nat {
        self.page_len as nat
    }

    /// The records written so far are laid out page by page.
    pub closed spec fn inv(&self) -> bool {
        let ghost p = self.page_len as nat;
        let ghost s = T::spec_encoded_size();
        let part = (self.entry_count as nat) % entries_per_page(p, s);
        &&& fits_page(p, s)
        &&& self.len == layout_len(p, s, self.entry_count as nat)
        &&& self.empty_page == (part == 0)
    }

    /// The section is the open one of `encoder`, whose output ends with it.
    pub closed spec fn wf(&self, encoder: &crate::Encoder) -> bool {
        let p = self.page_len as nat;
        let part = (self.entry_count as nat) % entries_per_page(p, T::spec_encoded_size());
        let full = (self.entry_count as nat) / entries_per_page(p, T::spec_encoded_size());
        &&& self.inv()
        &&& encoder.page_len == self.page_len
        &&& encoder.output@.len() == self.page_offset * p + self.len
        &&& encoder.page_count == self.page_offset + full + if part > 0 {
            1nat
        } else {
            0nat
        }
        &&& encoder.page_count * p <= u32::MAX
    }

    /// A section of at most `n` records has begun at most `n` pages.
    pub proof fn lemma_pages_begun_bound(&self, encoder: &crate::Encoder, n: nat)
        requires
            self.wf(encoder),
            self.spec_entry_count() <= n,
        ensures
            (encoder.spec_page_count() + 1) * encoder.spec_page_len() <= (self.spec_page_offset()
                + n + 1) * encoder.spec_page_len(),
    {
        let p = self.page_len as nat;
        let s = T::spec_encoded_size();
        let ec = self.entry_count as nat;
        lemma_layout(p, s, ec);
        let epp = entries_per_page(p, s);
        let full = ec / epp;
        let part = ec % epp;
        assert(full <= full * epp) by (nonlinear_arith)
            requires
                epp >= 1,
        ;
        let a = encoder.page_count + 1;
        let b = self.page_offset + n + 1;
        assert(a <= b);
        assert(a * p <= b * p) by (nonlinear_arith)
            requires
                a <= b,
        ;
    }

    pub(crate) fn new(encoder: &crate::Encoder, page_offset: u32) -> (r: Encoder<T>)
        requires
            encoder.aligned(),
            page_offset == encoder.spec_page_count(),
            fits_page(encoder.spec_page_len(), T::spec_encoded_size()),
        ensures
            r.wf(encoder),
            r.spec_page_len() == encoder.spec_page_len(),
            r.spec_page_offset() == page_offset,
            r.spec_entry_count() == 0,
    {
        let r = Encoder {
            page_len: encoder.page_len,
            page_offset,
            len: 0,
            entry_count: 0,
            empty_page: true,
            t: PhantomData,
        };
        proof {
            lemma_layout(encoder.page_len as nat, T::spec_encoded_size(), 0);
        }
        r
    }

    /// The number of pages that the section takes so far.
    pub fn page_count(&self) -> (r: u32)
        requires
            self.inv(),
        ensures
            r == ceil_div(
                self.spec_entry_count(),
                entries_per_page(self.spec_page_len(), T::spec_encoded_size()),
            ),
    {
        let ghost p = self.page_len as nat;
        let ghost s = T::spec_encoded_size();
        proof {
            lemma_layout(p, s, self.entry_count as nat);
            let epp = entries_per_page(p, s);
            let full = (self.entry_count as nat) / epp;
            let part = (self.entry_count as nat) % epp;
            lemma_fundamental_div_mod_converse(self.len as int, p as int, full as int, (part * s) as int);
            lemma_ceil_div_bound(self.len as nat, p);
        }
        self.len.ceiling_div(self.page_len)
    }

    /// The zero bytes that complete the current page.
    fn padding(&self) -> (r: u32)
        requires
            self.page_len > 0,
        ensures
            r == padding_of(self.len as int, self.page_len as int),
    {
        proof {
            lemma_padding(self.len as int, self.page_len as int);
        }
        let shift = self.len % self.page_len;
        if shift == 0 {
            0
        } else {
            self.page_len - shift
        }
    }

    /// Closes the section: completes its last page with zeros and returns
    /// its descriptor.
    pub fn end(self, encoder: &mut crate::Encoder) -> (r: Section<T>)
        requires
            self.wf(old(encoder)),
        ensures
            final(encoder).aligned(),
            final(encoder).spec_page_len() == old(encoder).spec_page_len(),
            r.page_offset == self.spec_page_offset(),
            r.entry_count == self.spec_entry_count(),
            final(encoder).spec_page_count() == r.page_offset + r.spec_page_count(
                self.spec_page_len(),
            ),
            final(encoder).spec_output() == old(encoder).spec_output() + zeros(
                padding_of(
                    layout_len(
                        self.spec_page_len(),
                        T::spec_encoded_size(),
                        self.spec_entry_count(),
                    ) as int,
                    self.spec_page_len() as int,
                ) as nat,
            ),
    {
        let ghost p = self.page_len as nat;
        let ghost s = T::spec_encoded_size();
        proof {
            lemma_layout(p, s, self.entry_count as nat);
            lemma_padding(self.len as int, p as int);
        }
        let padding = self.padding();
        proof {
            let epp = entries_per_page(p, s);
            let full = (self.entry_count as nat) / epp;
            let part = (self.entry_count as nat) % epp;
            if part > 0 {
                assert(self.page_offset * p + full * p + part * s + (p - part * s) == (
                self.page_offset + full + 1) * p) by (nonlinear_arith);
            } else {
                assert(self.page_offset * p + full * p == (self.page_offset + full) * p)
                    by (nonlinear_arith);
            }
        }
        pad(&mut encoder.output, padding);
        Section { page_offset: self.page_offset, entry_count: self.entry_count, t: PhantomData }
    }

    /// Writes one record: its page bytes to the output, its variable-length
    /// parts to `heap`; a page that has no room for another record is
    /// completed with zeros.
    pub fn push<C>(&mut self, encoder: &mut crate::Encoder, heap: &mut Heap, context: &C, value: &T)
        where
            T: HeapCodec<C>,
        requires
            old(self).wf(old(encoder)),
            T::spec_fits_on_heap(value.deep_view(), *context, old(heap)@.len()),
            (old(encoder).spec_page_count() + 1) * old(encoder).spec_page_len() <= u32::MAX,
        ensures
            final(self).wf(final(encoder)),
            final(self).spec_entry_count() == old(self).spec_entry_count() + 1,
            final(self).spec_page_offset() == old(self).spec_page_offset(),
            final(self).spec_page_len() == old(self).spec_page_len(),
            final(encoder).spec_page_len() == old(encoder).spec_page_len(),
            final(heap)@ == old(heap)@ + T::spec_encode_on_heap(
                value.deep_view(),
                *context,
                old(heap)@.len(),
            ).1,
            final(encoder).spec_output() == old(encoder).spec_output() + T::spec_encode_on_heap(
                value.deep_view(),
                *context,
                old(heap)@.len(),
            ).0 + zeros(
                push_padding(
                    old(self).spec_page_len(),
                    T::spec_encoded_size(),
                    old(self).spec_entry_count(),
                ),
            ),
    {
        let ghost p = self.page_len as nat;
        let ghost s = T::spec_encoded_size();
        let ghost ec = self.entry_count as nat;
        let ghost epp = entries_per_page(p, s);
        let ghost full = ec / epp;
        let ghost part = ec % epp;
        let ghost page = T::spec_encode_on_heap(value.deep_view(), *context, old(heap)@.len()).0;
        proof {
            lemma_layout(p, s, ec);
            T::lemma_heap_encoded_size(value.deep_view(), *context, old(heap)@.len());
            assert(part > 0 ==> part * s >= s) by (nonlinear_arith)
                requires
                    s > 0,
            ;
            assert(self.page_offset * p + full * p + part * s + s <= (encoder.page_count + 1) * p)
                by (nonlinear_arith)
                requires
                    encoder.page_count == self.page_offset + full + if part > 0 {
                        1nat
                    } else {
                        0nat
                    },
                    part * s + s <= p,
                    part > 0 ==> part * s >= s,
            ;
        }
        let size = T::encoded_size();
        let n = value.encode_on_heap(context, heap, &mut encoder.output);
        proof {
            assert(encoder.page_count + 1 <= (encoder.page_count + 1) * p) by (nonlinear_arith)
                requires
                    p >= 1,
            ;
        }
        if self.empty_page {
            encoder.page_count = encoder.page_count + 1;
            self.empty_page = false;
        }
        self.len = self.len + n;
        self.entry_count = self.entry_count + 1;
        let padding = self.padding();
        proof {
            assert(size == s);
            assert(n == s);
            assert(self.len == full * p + (part + 1) * s) by (nonlinear_arith)
                requires
                    self.len == full * p + part * s + s,
            ;
        }
        if padding < size {
            proof {
                assert(part + 1 == epp);
                assert(self.page_offset * p + full * p + epp * s + (p - epp * s) == (
                self.page_offset + full + 1) * p) by (nonlinear_arith);
                assert((full + 1) * p == full * p + p) by (nonlinear_arith);
            }
            pad(&mut encoder.output, padding);
            self.len = self.len + padding;
            self.empty_page = true;
        } else {
            proof {
                assert(part + 1 < epp);
                assert(encoder.output@ =~= old(encoder).output@ + page + zeros(0));
            }
        }
    }
}

} // verus!
