use vstd::prelude::*;

use crate::bytes::zeros;
use crate::codec::{FlatCodec, HeapCodec};
use crate::decode::{Decode, DecodeFromHeap};
use crate::encode::{clamp_u32, saturating_sum, Encode, EncodeOnHeap, EncodeSized};
use crate::heap::Heap;
use crate::reader::Error;

verus! {

/// Appends `len` zero bytes.
pub(crate) fn pad(output: &mut Vec<u8>, len: u32) -> (r: u32)
    ensures
        final(output)@ == old(output)@ + zeros(len as nat),
        r == len,
{
    let mut i: u32 = 0;
    while i < len
        invariant
            i <= len,
            output@ == old(output)@ + zeros(i as nat),
        decreases len - i,
    {
        output.push(0u8);
        i = i + 1;
        assert(output@ =~= old(output)@ + zeros(i as nat));
    }
    assert(output@ =~= old(output)@ + zeros(len as nat));
    len
}

/// Skips the `len` bytes at `pos`: the position past them, or `None` where
/// the input ends first.
pub(crate) fn skip(input: &[u8], pos: usize, len: u32) -> (r: Option<usize>)
    requires
        pos <= input@.len(),
    ensures
        r == if input@.len() - pos < len {
            None::<usize>
        } else {
            Some((pos + len) as usize)
        },
{
    if input.len() - pos < len as usize {
        None
    } else {
        Some(pos + len as usize)
    }
}

impl<T: EncodeSized> EncodeSized for Option<T> {
    open spec fn spec_encoded_size() -> nat {
        1 + T::spec_encoded_size()
    }

    fn encoded_size() -> (r: u32) {
        saturating_sum(1, T::encoded_size())
    }
}

/// The page bytes of an option: a discriminant byte, then either the
/// value's bytes or as many zeros as the value would take.
pub open spec fn option_bytes(discriminant: u8, payload: Seq<u8>) -> Seq<u8> {
    seq![discriminant] + payload
}

impl<C, T: EncodeSized + Encode<C>> Encode<C> for Option<T> {
    open spec fn spec_encode(v: Option<T::V>, context: C) -> Seq<u8> {
        match v {
            None => option_bytes(0, zeros(T::spec_encoded_size())),
            Some(t) => option_bytes(1, T::spec_encode(t, context)),
        }
    }

    fn encode(&self, context: &C, output: &mut Vec<u8>) -> (r: u32) {
        match self {
            None => {
                output.push(0u8);
                let n = pad(output, T::encoded_size());
                assert(output@ =~= old(output)@ + option_bytes(0, zeros(T::spec_encoded_size())));
                1 + n
            },
            Some(t) => {
                output.push(1u8);
                let n = t.encode(context, output);
                assert(output@ =~= old(output)@ + option_bytes(1, T::spec_encode(t.deep_view(), *context)));
                1 + n
            },
        }
    }
}

impl<C, T: EncodeOnHeap<C>> EncodeOnHeap<C> for Option<T> {
    open spec fn spec_fits_on_heap(v: Option<T::V>, context: C, heap_len: nat) -> bool {
        match v {
            None => true,
            Some(t) => T::spec_fits_on_heap(t, context, heap_len),
        }
    }

    open spec fn spec_encode_on_heap(v: Option<T::V>, context: C, heap_len: nat) -> (
        Seq<u8>,
        Seq<u8>,
    ) {
        match v {
            None => (option_bytes(0, zeros(T::spec_encoded_size())), Seq::empty()),
            Some(t) => {
                let (page, added) = T::spec_encode_on_heap(t, context, heap_len);
                (option_bytes(1, page), added)
            },
        }
    }

    fn encode_on_heap(&self, context: &C, heap: &mut Heap, output: &mut Vec<u8>) -> (r: u32) {
        match self {
            None => {
                output.push(0u8);
                let n = pad(output, T::encoded_size());
                assert(output@ =~= old(output)@ + option_bytes(0, zeros(T::spec_encoded_size())));
                assert(heap@ =~= old(heap)@ + Seq::<u8>::empty());
                1 + n
            },
            Some(t) => {
                output.push(1u8);
                let n = t.encode_on_heap(context, heap, output);
                let ghost page = T::spec_encode_on_heap(t.deep_view(), *context, old(heap)@.len()).0;
                assert(output@ =~= old(output)@ + option_bytes(1, page));
                1 + n
            },
        }
    }
}

impl<C, T: EncodeSized + Decode<C>> Decode<C> for Option<T> {
    open spec fn spec_decode(bytes: Seq<u8>, context: C) -> Result<(Option<T::V>, nat), Error> {
        if bytes.len() == 0 {
            Err(Error::UnexpectedEof)
        } else if bytes[0] == 0 {
            if bytes.len() - 1 < clamp_u32(T::spec_encoded_size()) {
                Err(Error::UnexpectedEof)
            } else {
                Ok((None, (1 + clamp_u32(T::spec_encoded_size())) as nat))
            }
        } else if bytes[0] == 1 {
            match T::spec_decode(bytes.skip(1), context) {
                Ok((t, n)) => Ok((Some(t), n + 1)),
                Err(e) => Err(e),
            }
        } else {
            Err(Error::InvalidData)
        }
    }

    fn decode(input: &[u8], pos: usize, context: &C) -> (r: Result<(Option<T>, usize), Error>) {
        if pos == input.len() {
            return Err(Error::UnexpectedEof);
        }
        let discriminant = input[pos];
        assert(input@.skip(pos as int)[0] == discriminant);
        assert(input@.skip(pos as int).skip(1) =~= input@.skip(pos + 1));
        if discriminant == 0 {
            match skip(input, pos + 1, T::encoded_size()) {
                Some(next) => Ok((None, next)),
                None => Err(Error::UnexpectedEof),
            }
        } else if discriminant == 1 {
            match T::decode(input, pos + 1, context) {
                Ok((t, next)) => Ok((Some(t), next)),
                Err(e) => Err(e),
            }
        } else {
            Err(Error::InvalidData)
        }
    }
}

impl<C, T: EncodeSized + DecodeFromHeap<C>> DecodeFromHeap<C> for Option<T> {
    open spec fn spec_decode_from_heap(bytes: Seq<u8>, context: C, heap: Seq<u8>) -> Result<
        (Option<T::V>, nat),
        Error,
    > {
        if bytes.len() == 0 {
            Err(Error::UnexpectedEof)
        } else if bytes[0] == 0 {
            if bytes.len() - 1 < clamp_u32(T::spec_encoded_size()) {
                Err(Error::UnexpectedEof)
            } else {
                Ok((None, (1 + clamp_u32(T::spec_encoded_size())) as nat))
            }
        } else if bytes[0] == 1 {
            match T::spec_decode_from_heap(bytes.skip(1), context, heap) {
                Ok((t, n)) => Ok((Some(t), n + 1)),
                Err(e) => Err(e),
            }
        } else {
            Err(Error::InvalidData)
        }
    }

    fn decode_from_heap(input: &[u8], pos: usize, context: &C, heap: &[u8]) -> (r: Result<
        (Option<T>, usize),
        Error,
    >) {
        if pos == input.len() {
            return Err(Error::UnexpectedEof);
        }
        let discriminant = input[pos];
        assert(input@.skip(pos as int)[0] == discriminant);
        assert(input@.skip(pos as int).skip(1) =~= input@.skip(pos + 1));
        if discriminant == 0 {
            match skip(input, pos + 1, T::encoded_size()) {
                Some(next) => Ok((None, next)),
                None => Err(Error::UnexpectedEof),
            }
        } else if discriminant == 1 {
            match T::decode_from_heap(input, pos + 1, context, heap) {
                Ok((t, next)) => Ok((Some(t), next)),
                Err(e) => Err(e),
            }
        } else {
            Err(Error::InvalidData)
        }
    }
}

impl<C, T: FlatCodec<C>> FlatCodec<C> for Option<T> {
    proof fn lemma_encoded_size(v: Option<T::V>, context: C) {
        if let Some(t) = v {
            T::lemma_encoded_size(t, context);
        }
    }

    proof fn lemma_round_trip(v: Option<T::V>, context: C, rest: Seq<u8>) {
        let bytes = Self::spec_encode(v, context) + rest;
        match v {
            None => {
                assert(bytes[0] == 0);
            },
            Some(t) => {
                assert(bytes[0] == 1);
                assert(bytes.skip(1) =~= T::spec_encode(t, context) + rest);
                T::lemma_round_trip(t, context, rest);
            },
        }
    }
}

impl<C, T: HeapCodec<C>> HeapCodec<C> for Option<T> {
    proof fn lemma_heap_encoded_size(v: Option<T::V>, context: C, heap_len: nat) {
        if let Some(t) = v {
            T::lemma_heap_encoded_size(t, context, heap_len);
        }
    }

    proof fn lemma_heap_round_trip(
        v: Option<T::V>,
        context: C,
        heap: Seq<u8>,
        rest: Seq<u8>,
        tail: Seq<u8>,
    ) {
        let (page, added) = Self::spec_encode_on_heap(v, context, heap.len());
        let bytes = page + rest;
        match v {
            None => {
                assert(bytes[0] == 0);
            },
            Some(t) => {
                let (tpage, tadded) = T::spec_encode_on_heap(t, context, heap.len());
                assert(bytes[0] == 1);
                assert(bytes.skip(1) =~= tpage + rest);
                T::lemma_heap_round_trip(t, context, heap, rest, tail);
            },
        }
    }
}

} // verus!
