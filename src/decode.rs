use vstd::prelude::*;

use crate::reader::Error;

verus! {

/// Flat decoding: the value is read whole from the input, with no heap.
pub trait Decode<C>: Sized + DeepView {
    /// The value at the front of `bytes` and the number of bytes it takes,
    /// or why there is none.
    spec fn spec_decode(bytes: Seq<u8>, context: C) -> Result<(Self::V, nat), Error>;

    /// Decodes the value at `pos`; on success also returns the position
    /// just past it.
    fn decode(input: &[u8], pos: usize, context: &C) -> (r: Result<(Self, usize), Error>)
        requires
            pos <= input@.len(),
        ensures
            match r {
                Ok((v, next)) => pos <= next <= input@.len() && Self::spec_decode(
                    input@.skip(pos as int),
                    *context,
                ) == Ok::<(Self::V, nat), Error>((v.deep_view(), (next - pos) as nat)),
                Err(e) => Self::spec_decode(input@.skip(pos as int), *context) == Err::<
                    (Self::V, nat),
                    Error,
                >(e),
            },
    ;
}

/// Decoding from a page whose stubs point into a heap section.
pub trait DecodeFromHeap<C>: Sized + DeepView {
    /// The value at the front of `bytes`, with its stubs read from `heap`
    /// (the bytes of the heap section), and the number of page bytes it
    /// takes, or why there is none.
    spec fn spec_decode_from_heap(bytes: Seq<u8>, context: C, heap: Seq<u8>) -> Result<
        (Self::V, nat),
        Error,
    >;

    /// Decodes the value at `pos`, following its stubs into `heap`; on
    /// success also returns the position just past it.
    fn decode_from_heap(input: &[u8], pos: usize, context: &C, heap: &[u8]) -> (r: Result<
        (Self, usize),
        Error,
    >)
        requires
            pos <= input@.len(),
        ensures
            match r {
                Ok((v, next)) => pos <= next <= input@.len() && Self::spec_decode_from_heap(
                    input@.skip(pos as int),
                    *context,
                    heap@,
                ) == Ok::<(Self::V, nat), Error>((v.deep_view(), (next - pos) as nat)),
                Err(e) => Self::spec_decode_from_heap(input@.skip(pos as int), *context, heap@)
                    == Err::<(Self::V, nat), Error>(e),
            },
    ;
}

} // verus!
