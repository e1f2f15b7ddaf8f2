use vstd::prelude::*;

use crate::codec::{FlatCodec, HeapCodec};
use crate::decode::{Decode, DecodeFromHeap};
use crate::encode::{saturating_sum, Encode, EncodeOnHeap, EncodeSized};
use crate::heap::Heap;
use crate::reader::Error;

verus! {

impl<T1: EncodeSized, T2: EncodeSized> EncodeSized for (T1, T2) {
    open spec fn spec_encoded_size() -> nat {
        T1::spec_encoded_size() + T2::spec_encoded_size()
    }

    fn encoded_size() -> (r: u32) {
        saturating_sum(T1::encoded_size(), T2::encoded_size())
    }
}

impl<C, T1: Encode<C>, T2: Encode<C>> Encode<C> for (T1, T2) {
    open spec fn spec_encode(v: (T1::V, T2::V), context: C) -> Seq<u8> {
        T1::spec_encode(v.0, context) + T2::spec_encode(v.1, context)
    }

    fn encode(&self, context: &C, output: &mut Vec<u8>) -> (r: u32) {
        let a = self.0.encode(context, output);
        let b = self.1.encode(context, output);
        assert(output@ =~= old(output)@ + Self::spec_encode(self.deep_view(), *context));
        a + b
    }
}

impl<C, T1: EncodeOnHeap<C>, T2: EncodeOnHeap<C>> EncodeOnHeap<C> for (T1, T2) {
    open spec fn spec_fits_on_heap(v: (T1::V, T2::V), context: C, heap_len: nat) -> bool {
        &&& T1::spec_fits_on_heap(v.0, context, heap_len)
        &&& T2::spec_fits_on_heap(
            v.1,
            context,
            heap_len + T1::spec_encode_on_heap(v.0, context, heap_len).1.len(),
        )
    }

    open spec fn spec_encode_on_heap(v: (T1::V, T2::V), context: C, heap_len: nat) -> (
        Seq<u8>,
        Seq<u8>,
    ) {
        let (page1, added1) = T1::spec_encode_on_heap(v.0, context, heap_len);
        let (page2, added2) = T2::spec_encode_on_heap(v.1, context, heap_len + added1.len());
        (page1 + page2, added1 + added2)
    }

    fn encode_on_heap(&self, context: &C, heap: &mut Heap, output: &mut Vec<u8>) -> (r: u32) {
        let a = self.0.encode_on_heap(context, heap, output);
        let b = self.1.encode_on_heap(context, heap, output);
        let ghost e = Self::spec_encode_on_heap(self.deep_view(), *context, old(heap)@.len());
        assert(output@ =~= old(output)@ + e.0);
        assert(heap@ =~= old(heap)@ + e.1);
        a + b
    }
}

impl<C, T1: Decode<C>, T2: Decode<C>> Decode<C> for (T1, T2) {
    open spec fn spec_decode(bytes: Seq<u8>, context: C) -> Result<((T1::V, T2::V), nat), Error> {
        match T1::spec_decode(bytes, context) {
            Err(e) => Err(e),
            Ok((t1, n1)) => match T2::spec_decode(bytes.skip(n1 as int), context) {
                Err(e) => Err(e),
                Ok((t2, n2)) => Ok(((t1, t2), n1 + n2)),
            },
        }
    }

    fn decode(input: &[u8], pos: usize, context: &C) -> (r: Result<((T1, T2), usize), Error>) {
        let (t1, mid) = match T1::decode(input, pos, context) {
            Ok(x) => x,
            Err(e) => return Err(e),
        };
        assert(input@.skip(pos as int).skip(mid - pos) =~= input@.skip(mid as int));
        let (t2, next) = match T2::decode(input, mid, context) {
            Ok(x) => x,
            Err(e) => return Err(e),
        };
        Ok(((t1, t2), next))
    }
}

impl<C, T1: DecodeFromHeap<C>, T2: DecodeFromHeap<C>> DecodeFromHeap<C> for (T1, T2) {
    open spec fn spec_decode_from_heap(bytes: Seq<u8>, context: C, heap: Seq<u8>) -> Result<
        ((T1::V, T2::V), nat),
        Error,
    > {
        match T1::spec_decode_from_heap(bytes, context, heap) {
            Err(e) => Err(e),
            Ok((t1, n1)) => match T2::spec_decode_from_heap(bytes.skip(n1 as int), context, heap) {
                Err(e) => Err(e),
                Ok((t2, n2)) => Ok(((t1, t2), n1 + n2)),
            },
        }
    }

    fn decode_from_heap(input: &[u8], pos: usize, context: &C, heap: &[u8]) -> (r: Result<
        ((T1, T2), usize),
        Error,
    >) {
        let (t1, mid) = match T1::decode_from_heap(input, pos, context, heap) {
            Ok(x) => x,
            Err(e) => return Err(e),
        };
        assert(input@.skip(pos as int).skip(mid - pos) =~= input@.skip(mid as int));
        let (t2, next) = match T2::decode_from_heap(input, mid, context, heap) {
            Ok(x) => x,
            Err(e) => return Err(e),
        };
        Ok(((t1, t2), next))
    }
}

impl<C, T1: FlatCodec<C>, T2: FlatCodec<C>> FlatCodec<C> for (T1, T2) {
    proof fn lemma_encoded_size(v: (T1::V, T2::V), context: C) {
        T1::lemma_encoded_size(v.0, context);
        T2::lemma_encoded_size(v.1, context);
    }

    proof fn lemma_round_trip(v: (T1::V, T2::V), context: C, rest: Seq<u8>) {
        let e1 = T1::spec_encode(v.0, context);
        let e2 = T2::spec_encode(v.1, context);
        T1::lemma_encoded_size(v.0, context);
        assert(e1 + e2 + rest =~= e1 + (e2 + rest));
        T1::lemma_round_trip(v.0, context, e2 + rest);
        assert((e1 + (e2 + rest)).skip(e1.len() as int) =~= e2 + rest);
        T2::lemma_round_trip(v.1, context, rest);
    }
}

impl<C, T1: HeapCodec<C>, T2: HeapCodec<C>> HeapCodec<C> for (T1, T2) {
    proof fn lemma_heap_encoded_size(v: (T1::V, T2::V), context: C, heap_len: nat) {
        let (page1, added1) = T1::spec_encode_on_heap(v.0, context, heap_len);
        T1::lemma_heap_encoded_size(v.0, context, heap_len);
        T2::lemma_heap_encoded_size(v.1, context, heap_len + added1.len());
    }

    proof fn lemma_heap_round_trip(
        v: (T1::V, T2::V),
        context: C,
        heap: Seq<u8>,
        rest: Seq<u8>,
        tail: Seq<u8>,
    ) {
        let (page1, added1) = T1::spec_encode_on_heap(v.0, context, heap.len());
        let heap2 = heap + added1;
        let (page2, added2) = T2::spec_encode_on_heap(v.1, context, heap2.len());
        T1::lemma_heap_encoded_size(v.0, context, heap.len());
        let full = heap + (added1 + added2) + tail;
        assert(full =~= heap + added1 + (added2 + tail));
        assert(full =~= heap2 + added2 + tail);
        assert(page1 + page2 + rest =~= page1 + (page2 + rest));
        T1::lemma_heap_round_trip(v.0, context, heap, page2 + rest, added2 + tail);
        assert((page1 + (page2 + rest)).skip(page1.len() as int) =~= page2 + rest);
        T2::lemma_heap_round_trip(v.1, context, heap2, rest, tail);
    }
}

} // verus!
