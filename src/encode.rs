use vstd::prelude::*;

use crate::heap::Heap;

verus! {

/// `n`, or `u32::MAX` where `n` is larger.
pub open spec fn clamp_u32(n: nat) -> u32 {
    if n <= u32::MAX {
        n as u32
    } else {
        u32::MAX
    }
}

/// A type whose values all take the same number of bytes on a page.
pub trait EncodeSized {
    /// The number of bytes that every value of the type takes on a page.
    spec fn spec_encoded_size() -> nat;

    /// The static size, saturated at `u32::MAX` (a type larger than that
    /// fits on no page).
    fn encoded_size() -> (r: u32)
        ensures
            r == clamp_u32(Self::spec_encoded_size()),
    ;
}

/// `a + b`, saturated at `u32::MAX`.
pub fn saturating_sum(a: u32, b: u32) -> (r: u32)
    ensures
        r == clamp_u32((a + b) as nat),
{
    if a > u32::MAX - b {
        u32::MAX
    } else {
        a + b
    }
}

/// Flat encoding: the value is written whole, with no heap.
pub trait Encode<C>: DeepView {
    /// The bytes that encode `v` under `context`.
    spec fn spec_encode(v: Self::V, context: C) -> Seq<u8>;

    /// Appends the encoding of `self` to `output` and returns its length.
    fn encode(&self, context: &C, output: &mut Vec<u8>) -> (r: u32)
        requires
            Self::spec_encode(self.deep_view(), *context).len() <= u32::MAX,
        ensures
            final(output)@ == old(output)@ + Self::spec_encode(self.deep_view(), *context),
            r == Self::spec_encode(self.deep_view(), *context).len(),
    ;
}

/// Encoding on a page with a heap: variable-length parts of the value go to
/// the heap, and the page holds `(offset, length)` stubs in their place.
pub trait EncodeOnHeap<C>: EncodeSized + DeepView {
    /// The bytes that go on the page and the bytes appended to the heap, when
    /// `v` is encoded under `context` onto a heap that holds `heap_len` bytes.
    spec fn spec_encode_on_heap(v: Self::V, context: C, heap_len: nat) -> (Seq<u8>, Seq<u8>);

    /// Whether every offset and length that encoding `v` onto a heap of
    /// `heap_len` bytes writes fits in a `u32`.
    spec fn spec_fits_on_heap(v: Self::V, context: C, heap_len: nat) -> bool;

    /// Appends the page bytes of `self` to `output` and its heap bytes to
    /// `heap`, and returns the number of page bytes.
    fn encode_on_heap(&self, context: &C, heap: &mut Heap, output: &mut Vec<u8>) -> (r: u32)
        requires
            Self::spec_fits_on_heap(self.deep_view(), *context, old(heap)@.len()),
            Self::spec_encode_on_heap(self.deep_view(), *context, old(heap)@.len()).0.len()
                <= u32::MAX,
        ensures
            final(output)@ == old(output)@ + Self::spec_encode_on_heap(
                self.deep_view(),
                *context,
                old(heap)@.len(),
            ).0,
            final(heap)@ == old(heap)@ + Self::spec_encode_on_heap(
                self.deep_view(),
                *context,
                old(heap)@.len(),
            ).1,
            r == Self::spec_encode_on_heap(self.deep_view(), *context, old(heap)@.len()).0.len(),
    ;
}

} // verus!
