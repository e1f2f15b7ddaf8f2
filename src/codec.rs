use vstd::prelude::*;

use crate::decode::{Decode, DecodeFromHeap};
use crate::encode::{Encode, EncodeOnHeap, EncodeSized};
use crate::reader::Error;

verus! {

/// A fixed-size type with a flat codec, and the laws that tie the two
/// directions together.
pub trait FlatCodec<C>: EncodeSized + Encode<C> + Decode<C> {
    /// Every flat encoding takes exactly the static size.
    proof fn lemma_encoded_size(v: Self::V, context: C)
        ensures
            Self::spec_encode(v, context).len() == Self::spec_encoded_size(),
    ;

    /// Decoding what was encoded, whatever follows it, gives the value back
    /// and consumes exactly its encoding.
    proof fn lemma_round_trip(v: Self::V, context: C, rest: Seq<u8>)
        requires
            Self::spec_encoded_size() <= u32::MAX,
        ensures
            Self::spec_decode(Self::spec_encode(v, context) + rest, context) == Ok::<
                (Self::V, nat),
                crate::reader::Error,
            >((v, Self::spec_encoded_size())),
    ;
}

/// A fixed-size type with a heap codec, and the laws that tie the two
/// directions together.
pub trait HeapCodec<C>: EncodeOnHeap<C> + DecodeFromHeap<C> {
    /// Every on-page encoding takes exactly the static size.
    proof fn lemma_heap_encoded_size(v: Self::V, context: C, heap_len: nat)
        ensures
            Self::spec_encode_on_heap(v, context, heap_len).0.len() == Self::spec_encoded_size(),
    ;

    /// Decoding the page bytes against a heap section that starts with the
    /// heap as it was after the encoding gives the value back.
    proof fn lemma_heap_round_trip(
        v: Self::V,
        context: C,
        heap: Seq<u8>,
        rest: Seq<u8>,
        tail: Seq<u8>,
    )
        requires
            Self::spec_encoded_size() <= u32::MAX,
            Self::spec_fits_on_heap(v, context, heap.len()),
        ensures
            Self::spec_decode_from_heap(
                Self::spec_encode_on_heap(v, context, heap.len()).0 + rest,
                context,
                heap + Self::spec_encode_on_heap(v, context, heap.len()).1 + tail,
            ) == Ok::<(Self::V, nat), crate::reader::Error>((v, Self::spec_encoded_size())),
    ;
}

/// Every flat encoding of a value of a fixed-size type takes exactly the
/// static size of the type.
pub proof fn flat_encoding_has_static_size<C, T: FlatCodec<C>>(v: T::V, context: C)
    ensures
        T::spec_encode(v, context).len() == T::spec_encoded_size(),
{
    T::lemma_encoded_size(v, context);
}

/// Every on-page encoding of a value takes exactly the static size of its
/// type, whatever goes to the heap.
pub proof fn heap_encoding_has_static_size<C, T: HeapCodec<C>>(v: T::V, context: C, heap_len: nat)
    ensures
        T::spec_encode_on_heap(v, context, heap_len).0.len() == T::spec_encoded_size(),
{
    T::lemma_heap_encoded_size(v, context, heap_len);
}

/// Flat-decoding the flat encoding of a value gives the value back.
pub proof fn flat_round_trip<C, T: FlatCodec<C>>(v: T::V, context: C)
    requires
        T::spec_encoded_size() <= u32::MAX,
    ensures
        T::spec_decode(T::spec_encode(v, context), context) == Ok::<(T::V, nat), Error>(
            (v, T::spec_encoded_size()),
        ),
{
    T::lemma_round_trip(v, context, Seq::empty());
    assert(T::spec_encode(v, context) + Seq::<u8>::empty() =~= T::spec_encode(v, context));
}

/// Encoding a value onto an empty heap, then decoding its page bytes
/// against the heap so built, gives the value back.
pub proof fn heap_round_trip<C, T: HeapCodec<C>>(v: T::V, context: C)
    requires
        T::spec_encoded_size() <= u32::MAX,
        T::spec_fits_on_heap(v, context, 0),
    ensures
        T::spec_decode_from_heap(
            T::spec_encode_on_heap(v, context, 0).0,
            context,
            T::spec_encode_on_heap(v, context, 0).1,
        ) == Ok::<(T::V, nat), Error>((v, T::spec_encoded_size())),
{
    let (page, added) = T::spec_encode_on_heap(v, context, 0);
    let empty = Seq::<u8>::empty();
    T::lemma_heap_round_trip(v, context, empty, empty, empty);
    assert(page + empty =~= page);
    assert(empty + added + empty =~= added);
}

} // verus!
