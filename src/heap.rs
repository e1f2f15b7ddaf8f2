use vstd::prelude::*;

use crate::codec::{FlatCodec, HeapCodec};
use crate::decode::{Decode, DecodeFromHeap};
use crate::encode::{Encode, EncodeOnHeap, EncodeSized};
use crate::reader::Error;
use crate::utils::{ceil_div, lemma_ceil_div_bound, CeilingDiv};

verus! {

/// A heap under construction: the bytes of variable-length values, in the
/// order they were inserted.
pub struct Heap {
    data: Vec<u8>,
}

impl View for Heap {
    type V = Seq<u8>;

    closed spec fn view(&self) -> Seq<u8> {
        self.data@
    }
}

impl Heap {
    pub fn new() -> (r: Heap)
        ensures
            r@ == Seq::<u8>::empty(),
    {
        Heap { data: Vec::new() }
    }

    /// The number of bytes in the heap.
    pub fn len(&self) -> (r: u32)
        requires
            self@.len() <= u32::MAX,
        ensures
            r == self@.len(),
    {
        self.data.len() as u32
    }

    /// The bytes of the heap.
    pub fn as_bytes(&self) -> (r: &[u8])
        ensures
            r@ == self@,
    {
        self.data.as_slice()
    }

    /// Appends the flat encoding of `value` and returns where it starts.
    pub fn insert<C, V: Encode<C> + ?Sized>(&mut self, context: &C, value: &V) -> (r: Offset)
        requires
            old(self)@.len() + V::spec_encode(value.deep_view(), *context).len() <= u32::MAX,
        ensures
            final(self)@ == old(self)@ + V::spec_encode(value.deep_view(), *context),
            r@ == old(self)@.len(),
    {
        let offset = Offset(self.data.len() as u32);
        value.encode(context, &mut self.data);
        offset
    }

    /// The number of pages that the heap takes in a file.
    pub fn page_count(&self, page_len: u32) -> (r: u32)
        requires
            page_len > 0,
            self@.len() <= u32::MAX,
        ensures
            r == ceil_div(self@.len(), page_len as nat),
    {
        proof {
            lemma_ceil_div_bound(self@.len(), page_len as nat);
        }
        self.len().ceiling_div(page_len)
    }

    /// The number of zero bytes that bring the heap to a whole number of pages.
    pub fn padding(&self, page_len: u32) -> (r: u32)
        requires
            page_len > 0,
            self@.len() <= u32::MAX,
        ensures
            r == padding_of(self@.len() as int, page_len as int),
            r < page_len,
            (self@.len() + r) % (page_len as int) == 0,
    {
        let shift = self.len() % page_len;
        proof {
            lemma_padding(self@.len() as int, page_len as int);
        }
        if shift == 0 {
            0
        } else {
            page_len - shift
        }
    }
}

/// The number of zero bytes that complete the last page of `len` bytes.
pub open spec fn padding_of(len: int, page_len: int) -> int {
    (page_len - len % page_len) % page_len
}

pub proof fn lemma_padding(len: int, page_len: int)
    requires
        page_len > 0,
        len >= 0,
    ensures
        len % page_len == 0 ==> padding_of(len, page_len) == 0,
        len % page_len != 0 ==> padding_of(len, page_len) == page_len - len % page_len,
        0 <= padding_of(len, page_len) < page_len,
        (len + padding_of(len, page_len)) % page_len == 0,
{
    let r = len % page_len;
    if r == 0 {
        assert((page_len - r) % page_len == 0) by (nonlinear_arith)
            requires
                page_len > 0,
                r == 0,
        ;
        assert((len + 0) % page_len == 0);
    } else {
        assert((page_len - r) % page_len == page_len - r) by (nonlinear_arith)
            requires
                0 < r < page_len,
        ;
        assert((len + (page_len - r)) % page_len == 0) by (nonlinear_arith)
            requires
                r == len % page_len,
                0 < r < page_len,
        ;
    }
}

/// A byte position within a heap section.
#[derive(Debug, Clone, Copy, PartialEq, Eq, Structural)]
pub struct Offset(pub u32);

impl View for Offset {
    type V = u32;

    open spec fn view(&self) -> u32 {
        self.0
    }
}

/// A heap padded to whole pages takes exactly its page count of pages.
pub proof fn lemma_padded_len(len: nat, page_len: nat)
    requires
        page_len > 0,
    ensures
        len + padding_of(len as int, page_len as int) == ceil_div(len, page_len) * page_len,
{
    lemma_padding(len as int, page_len as int);
    let q = len / page_len;
    let r = len % page_len;
    assert(len == q * page_len + r) by (nonlinear_arith)
        requires
            q == len / page_len,
            r == len % page_len,
            page_len > 0,
    ;
    if r != 0 {
        assert(q * page_len + r + (page_len - r) == (q + 1) * page_len) by (nonlinear_arith);
    }
}

impl Offset {
    pub fn unwrap(self) -> (r: u32)
        ensures
            r == self@,
    {
        self.0
    }

    /// The stub of `len` units that start at this offset.
    pub fn sized(self, len: u32) -> (r: Entry)
        ensures
            r == (Entry { offset: self, len }),
    {
        Entry { offset: self, len }
    }
}

impl DeepView for Offset {
    type V = Offset;

    open spec fn deep_view(&self) -> Offset {
        *self
    }
}

impl EncodeSized for Offset {
    open spec fn spec_encoded_size() -> nat {
        4
    }

    fn encoded_size() -> (r: u32) {
        4
    }
}

impl<C> Encode<C> for Offset {
    open spec fn spec_encode(v: Offset, context: C) -> Seq<u8> {
        <u32 as Encode<C>>::spec_encode(v.0, context)
    }

    fn encode(&self, context: &C, output: &mut Vec<u8>) -> (r: u32) {
        self.0.encode(context, output)
    }
}

impl<C> Decode<C> for Offset {
    open spec fn spec_decode(bytes: Seq<u8>, context: C) -> Result<(Offset, nat), Error> {
        match <u32 as Decode<C>>::spec_decode(bytes, context) {
            Ok((x, n)) => Ok((Offset(x), n)),
            Err(e) => Err(e),
        }
    }

    fn decode(input: &[u8], pos: usize, context: &C) -> (r: Result<(Offset, usize), Error>) {
        match <u32 as Decode<C>>::decode(input, pos, context) {
            Ok((x, next)) => Ok((Offset(x), next)),
            Err(e) => Err(e),
        }
    }
}

impl<C> FlatCodec<C> for Offset {
    proof fn lemma_encoded_size(v: Offset, context: C) {
        <u32 as FlatCodec<C>>::lemma_encoded_size(v.0, context);
    }

    proof fn lemma_round_trip(v: Offset, context: C, rest: Seq<u8>) {
        <u32 as FlatCodec<C>>::lemma_round_trip(v.0, context, rest);
    }
}

/// A stub on a page: where a variable-length value starts in its heap
/// section, and how long it is (bytes for text, elements for a list).
#[derive(Debug, Clone, Copy, PartialEq, Eq, Structural)]
pub struct Entry {
    pub offset: Offset,
    pub len: u32,
}

impl DeepView for Entry {
    type V = Entry;

    open spec fn deep_view(&self) -> Entry {
        *self
    }
}

impl EncodeSized for Entry {
    open spec fn spec_encoded_size() -> nat {
        8
    }

    fn encoded_size() -> (r: u32) {
        8
    }
}

impl<C> Encode<C> for Entry {
    open spec fn spec_encode(v: Entry, context: C) -> Seq<u8> {
        <(u32, u32) as Encode<C>>::spec_encode((v.offset.0, v.len), context)
    }

    fn encode(&self, context: &C, output: &mut Vec<u8>) -> (r: u32) {
        proof {
            <(u32, u32) as FlatCodec<C>>::lemma_encoded_size((self.offset.0, self.len), *context);
        }
        (self.offset.0, self.len).encode(context, output)
    }
}

impl<C> Decode<C> for Entry {
    open spec fn spec_decode(bytes: Seq<u8>, context: C) -> Result<(Entry, nat), Error> {
        match <(u32, u32) as Decode<C>>::spec_decode(bytes, context) {
            Ok(((o, l), n)) => Ok((Entry { offset: Offset(o), len: l }, n)),
            Err(e) => Err(e),
        }
    }

    fn decode(input: &[u8], pos: usize, context: &C) -> (r: Result<(Entry, usize), Error>) {
        match <(u32, u32) as Decode<C>>::decode(input, pos, context) {
            Ok(((o, l), next)) => Ok((Entry { offset: Offset(o), len: l }, next)),
            Err(e) => Err(e),
        }
    }
}

impl<C> FlatCodec<C> for Entry {
    proof fn lemma_encoded_size(v: Entry, context: C) {
        <(u32, u32) as FlatCodec<C>>::lemma_encoded_size((v.offset.0, v.len), context);
    }

    proof fn lemma_round_trip(v: Entry, context: C, rest: Seq<u8>) {
        <(u32, u32) as FlatCodec<C>>::lemma_round_trip((v.offset.0, v.len), context, rest);
    }
}

/// A heap as written in a file: its first page, counted from the first
/// page of the file, and its number of pages.
#[derive(Debug, Clone, Copy, PartialEq, Eq, Structural)]
pub struct HeapSection {
    pub page_offset: u32,
    pub page_count: u32,
}

impl DeepView for HeapSection {
    type V = HeapSection;

    open spec fn deep_view(&self) -> HeapSection {
        *self
    }
}

impl EncodeSized for HeapSection {
    open spec fn spec_encoded_size() -> nat {
        8
    }

    fn encoded_size() -> (r: u32) {
        8
    }
}

impl<C> Encode<C> for HeapSection {
    open spec fn spec_encode(v: HeapSection, context: C) -> Seq<u8> {
        <(u32, u32) as Encode<C>>::spec_encode((v.page_offset, v.page_count), context)
    }

    fn encode(&self, context: &C, output: &mut Vec<u8>) -> (r: u32) {
        proof {
            <(u32, u32) as FlatCodec<C>>::lemma_encoded_size(
                (self.page_offset, self.page_count),
                *context,
            );
        }
        (self.page_offset, self.page_count).encode(context, output)
    }
}

impl<C> EncodeOnHeap<C> for HeapSection {
    open spec fn spec_fits_on_heap(v: HeapSection, context: C, heap_len: nat) -> bool {
        true
    }

    open spec fn spec_encode_on_heap(v: HeapSection, context: C, heap_len: nat) -> (
        Seq<u8>,
        Seq<u8>,
    ) {
        (<HeapSection as Encode<C>>::spec_encode(v, context), Seq::empty())
    }

    fn encode_on_heap(&self, context: &C, heap: &mut Heap, output: &mut Vec<u8>) -> (r: u32) {
        assert(heap@ + Seq::<u8>::empty() =~= heap@);
        self.encode(context, output)
    }
}

impl<C> Decode<C> for HeapSection {
    open spec fn spec_decode(bytes: Seq<u8>, context: C) -> Result<(HeapSection, nat), Error> {
        match <(u32, u32) as Decode<C>>::spec_decode(bytes, context) {
            Ok(((o, c), n)) => Ok((HeapSection { page_offset: o, page_count: c }, n)),
            Err(e) => Err(e),
        }
    }

    fn decode(input: &[u8], pos: usize, context: &C) -> (r: Result<(HeapSection, usize), Error>) {
        match <(u32, u32) as Decode<C>>::decode(input, pos, context) {
            Ok(((o, c), next)) => Ok((HeapSection { page_offset: o, page_count: c }, next)),
            Err(e) => Err(e),
        }
    }
}

impl<C> DecodeFromHeap<C> for HeapSection {
    open spec fn spec_decode_from_heap(bytes: Seq<u8>, context: C, heap: Seq<u8>) -> Result<
        (HeapSection, nat),
        Error,
    > {
        <HeapSection as Decode<C>>::spec_decode(bytes, context)
    }

    fn decode_from_heap(input: &[u8], pos: usize, context: &C, heap: &[u8]) -> (r: Result<
        (HeapSection, usize),
        Error,
    >) {
        <HeapSection as Decode<C>>::decode(input, pos, context)
    }
}

impl<C> FlatCodec<C> for HeapSection {
    proof fn lemma_encoded_size(v: HeapSection, context: C) {
        <(u32, u32) as FlatCodec<C>>::lemma_encoded_size((v.page_offset, v.page_count), context);
    }

    proof fn lemma_round_trip(v: HeapSection, context: C, rest: Seq<u8>) {
        <(u32, u32) as FlatCodec<C>>::lemma_round_trip(
            (v.page_offset, v.page_count),
            context,
            rest,
        );
    }
}

impl<C> HeapCodec<C> for HeapSection {
    proof fn lemma_heap_encoded_size(v: HeapSection, context: C, heap_len: nat) {
        <HeapSection as FlatCodec<C>>::lemma_encoded_size(v, context);
    }

    proof fn lemma_heap_round_trip(
        v: HeapSection,
        context: C,
        heap: Seq<u8>,
        rest: Seq<u8>,
        tail: Seq<u8>,
    ) {
        <HeapSection as FlatCodec<C>>::lemma_round_trip(v, context, rest);
    }
}

} // verus!
