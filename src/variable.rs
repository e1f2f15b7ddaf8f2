use vstd::prelude::*;
use vstd::utf8::{decode_utf8, encode_utf8, encode_utf8_decode_utf8, encode_utf8_valid_utf8, valid_utf8};

use crate::codec::{FlatCodec, HeapCodec};
use crate::decode::{Decode, DecodeFromHeap};
use crate::encode::{Encode, EncodeOnHeap, EncodeSized};
use crate::heap::{Entry, Heap, Offset};
use crate::reader::Error;

verus! {

/// The flat encodings of the values of `s`, one after the other.
pub open spec fn encode_seq<C, T: Encode<C>>(s: Seq<T::V>, context: C) -> Seq<u8>
    decreases s.len(),
{
    if s.len() == 0 {
        Seq::empty()
    } else {
        T::spec_encode(s[0], context) + encode_seq::<C, T>(s.drop_first(), context)
    }
}

/// `n` values decoded one after the other from the front of `bytes`, with
/// the number of bytes they take, or the first error met.
pub open spec fn decode_seq<C, T: Decode<C>>(bytes: Seq<u8>, context: C, n: nat) -> Result<
    (Seq<T::V>, nat),
    Error,
>
    decreases n,
{
    if n == 0 {
        Ok((Seq::empty(), 0))
    } else {
        match T::spec_decode(bytes, context) {
            Err(e) => Err(e),
            Ok((v, k)) => match decode_seq::<C, T>(bytes.skip(k as int), context, (n - 1) as nat) {
                Err(e) => Err(e),
                Ok((vs, m)) => Ok((seq![v] + vs, k + m)),
            },
        }
    }
}

/// `r` with `prefix` put before its values and `k` added to its length.
pub open spec fn prepend<V>(prefix: Seq<V>, k: nat, r: Result<(Seq<V>, nat), Error>) -> Result<
    (Seq<V>, nat),
    Error,
> {
    match r {
        Err(e) => Err(e),
        Ok((vs, m)) => Ok((prefix + vs, k + m)),
    }
}

pub proof fn lemma_encode_seq_push<C, T: Encode<C>>(s: Seq<T::V>, v: T::V, context: C)
    ensures
        encode_seq::<C, T>(s.push(v), context) == encode_seq::<C, T>(s, context) + T::spec_encode(
            v,
            context,
        ),
    decreases s.len(),
{
    if s.len() == 0 {
        assert(s.push(v).drop_first() =~= Seq::<T::V>::empty());
        assert(s.push(v)[0] == v);
        assert(encode_seq::<C, T>(Seq::<T::V>::empty(), context) =~= Seq::<u8>::empty());
        assert(encode_seq::<C, T>(s, context) =~= Seq::<u8>::empty());
        assert(encode_seq::<C, T>(s.push(v), context) =~= T::spec_encode(v, context));
    } else {
        lemma_encode_seq_push::<C, T>(s.drop_first(), v, context);
        assert(s.push(v).drop_first() =~= s.drop_first().push(v));
        assert(encode_seq::<C, T>(s.push(v), context) =~= encode_seq::<C, T>(s, context)
            + T::spec_encode(v, context));
    }
}

/// Decoding the encodings of a sequence of fixed-size values gives them back.
pub proof fn lemma_seq_round_trip<C, T: FlatCodec<C>>(s: Seq<T::V>, context: C, rest: Seq<u8>)
    requires
        s.len() > 0 ==> T::spec_encoded_size() <= u32::MAX,
    ensures
        decode_seq::<C, T>(encode_seq::<C, T>(s, context) + rest, context, s.len()) == Ok::<
            (Seq<T::V>, nat),
            Error,
        >((s, encode_seq::<C, T>(s, context).len())),
    decreases s.len(),
{
    if s.len() == 0 {
        assert(s =~= Seq::<T::V>::empty());
    } else {
        let e0 = T::spec_encode(s[0], context);
        let erest = encode_seq::<C, T>(s.drop_first(), context);
        T::lemma_encoded_size(s[0], context);
        assert(e0 + erest + rest =~= e0 + (erest + rest));
        T::lemma_round_trip(s[0], context, erest + rest);
        assert((e0 + (erest + rest)).skip(e0.len() as int) =~= erest + rest);
        lemma_seq_round_trip::<C, T>(s.drop_first(), context, rest);
        assert(seq![s[0]] + s.drop_first() =~= s);
    }
}

/// The encodings of a prefix, and of the element after it, fit in the
/// encoding of the whole sequence.
proof fn lemma_encode_seq_prefix_len<C, T: Encode<C>>(s: Seq<T::V>, i: int, context: C)
    requires
        0 <= i <= s.len(),
    ensures
        encode_seq::<C, T>(s.take(i), context).len() <= encode_seq::<C, T>(s, context).len(),
        i < s.len() ==> encode_seq::<C, T>(s.take(i), context).len() + T::spec_encode(
            s[i],
            context,
        ).len() <= encode_seq::<C, T>(s, context).len(),
    decreases s.len() - i,
{
    if i < s.len() {
        lemma_encode_seq_prefix_len::<C, T>(s, i + 1, context);
        assert(s.take(i + 1) =~= s.take(i).push(s[i]));
        lemma_encode_seq_push::<C, T>(s.take(i), s[i], context);
    } else {
        assert(s.take(i) =~= s);
    }
}

impl<C> Encode<C> for str {
    open spec fn spec_encode(v: Seq<char>, context: C) -> Seq<u8> {
        encode_utf8(v)
    }

    fn encode(&self, context: &C, output: &mut Vec<u8>) -> (r: u32) {
        let bytes = self.as_bytes();
        push_bytes(output, bytes);
        self.len() as u32
    }
}

/// Appends `bytes` to `output`.
pub(crate) fn push_bytes(output: &mut Vec<u8>, bytes: &[u8])
    ensures
        final(output)@ == old(output)@ + bytes@,
{
    let mut i: usize = 0;
    while i < bytes.len()
        invariant
            i <= bytes@.len(),
            output@ == old(output)@ + bytes@.take(i as int),
        decreases bytes@.len() - i,
    {
        output.push(bytes[i]);
        i = i + 1;
        assert(output@ =~= old(output)@ + bytes@.take(i as int));
    }
    assert(bytes@.take(i as int) =~= bytes@);
}

impl<C, T: Encode<C>> Encode<C> for [T] {
    open spec fn spec_encode(v: Seq<T::V>, context: C) -> Seq<u8> {
        encode_seq::<C, T>(v, context)
    }

    fn encode(&self, context: &C, output: &mut Vec<u8>) -> (r: u32) {
        let ghost s = self.deep_view();
        let mut len: u32 = 0;
        let mut i: usize = 0;
        while i < self.len()
            invariant
                i <= self@.len(),
                s == self.deep_view(),
                s.len() == self@.len(),
                encode_seq::<C, T>(s, *context).len() <= u32::MAX,
                output@ == old(output)@ + encode_seq::<C, T>(s.take(i as int), *context),
                len == encode_seq::<C, T>(s.take(i as int), *context).len(),
            decreases self@.len() - i,
        {
            proof {
                lemma_encode_seq_prefix_len::<C, T>(s, i as int, *context);
                lemma_encode_seq_push::<C, T>(s.take(i as int), s[i as int], *context);
                assert(s.take(i + 1) =~= s.take(i as int).push(s[i as int]));
            }
            let n = self[i].encode(context, output);
            len = len + n;
            i = i + 1;
        }
        assert(s.take(i as int) =~= s);
        len
    }
}

/// The page bytes of a stub.
pub open spec fn stub_bytes<C>(offset: nat, len: nat, context: C) -> Seq<u8> {
    <Entry as Encode<C>>::spec_encode(Entry { offset: Offset(offset as u32), len: len as u32 }, context)
}

/// Appends the UTF-8 bytes of `str` to `heap` and writes the stub that
/// points to them to `output`; returns the number of page bytes.
pub fn encode_string_on_heap(heap: &mut Heap, output: &mut Vec<u8>, str: &str) -> (r: u32)
    requires
        old(heap)@.len() + encode_utf8(str@).len() <= u32::MAX,
    ensures
        final(heap)@ == old(heap)@ + encode_utf8(str@),
        final(output)@ == old(output)@ + stub_bytes(old(heap)@.len(), encode_utf8(str@).len(), ()),
        r == 8,
{
    let entry = heap.insert(&(), str).sized(str.len() as u32);
    proof {
        <Entry as FlatCodec<()>>::lemma_encoded_size(entry, ());
    }
    entry.encode(&(), output)
}

impl EncodeSized for String {
    open spec fn spec_encoded_size() -> nat {
        8
    }

    fn encoded_size() -> (r: u32) {
        8
    }
}

impl<C> EncodeOnHeap<C> for String {
    open spec fn spec_fits_on_heap(v: Seq<char>, context: C, heap_len: nat) -> bool {
        heap_len + encode_utf8(v).len() <= u32::MAX
    }

    open spec fn spec_encode_on_heap(v: Seq<char>, context: C, heap_len: nat) -> (
        Seq<u8>,
        Seq<u8>,
    ) {
        (stub_bytes(heap_len, encode_utf8(v).len(), context), encode_utf8(v))
    }

    fn encode_on_heap(&self, context: &C, heap: &mut Heap, output: &mut Vec<u8>) -> (r: u32) {
        let entry = heap.insert(context, self.as_str()).sized(self.as_str().len() as u32);
        proof {
            <Entry as FlatCodec<C>>::lemma_encoded_size(entry, *context);
        }
        entry.encode(context, output)
    }
}

/// Relies on `String::from_utf8`: it accepts exactly the valid UTF-8 byte
/// sequences, and the text it returns is what they spell.
#[verifier::external_body]
fn string_from_utf8(bytes: Vec<u8>) -> (r: Option<String>)
    ensures
        match r {
            Some(s) => valid_utf8(bytes@) && s@ == decode_utf8(bytes@),
            None => !valid_utf8(bytes@),
        },
{
    String::from_utf8(bytes).ok()
}

/// Copies the `len` bytes of `heap` that start at `start`.
fn copy_range(heap: &[u8], start: usize, len: usize) -> (r: Vec<u8>)
    requires
        start + len <= heap@.len(),
    ensures
        r@ == heap@.subrange(start as int, start + len),
{
    let heap_len = heap.len();
    let mut out: Vec<u8> = Vec::new();
    let mut i: usize = 0;
    while i < len
        invariant
            i <= len,
            heap_len == heap@.len(),
            start + len <= heap@.len(),
            out@ == heap@.subrange(start as int, start + i),
        decreases len - i,
    {
        out.push(heap[start + i]);
        i = i + 1;
        assert(out@ =~= heap@.subrange(start as int, start + i));
    }
    out
}

impl<C> DecodeFromHeap<C> for String {
    open spec fn spec_decode_from_heap(bytes: Seq<u8>, context: C, heap: Seq<u8>) -> Result<
        (Seq<char>, nat),
        Error,
    > {
        match <Entry as Decode<C>>::spec_decode(bytes, context) {
            Err(e) => Err(e),
            Ok((entry, n)) => {
                let start = entry.offset.0 as int;
                let end = start + entry.len;
                if end > heap.len() {
                    Err(Error::InvalidData)
                } else if valid_utf8(heap.subrange(start, end)) {
                    Ok((decode_utf8(heap.subrange(start, end)), n))
                } else {
                    Err(Error::InvalidData)
                }
            },
        }
    }

    fn decode_from_heap(input: &[u8], pos: usize, context: &C, heap: &[u8]) -> (r: Result<
        (String, usize),
        Error,
    >) {
        let (entry, next) = match <Entry as Decode<C>>::decode(input, pos, context) {
            Ok(x) => x,
            Err(e) => return Err(e),
        };
        let start = entry.offset.0 as usize;
        let len = entry.len as usize;
        if start > heap.len() || len > heap.len() - start {
            return Err(Error::InvalidData);
        }
        let bytes = copy_range(heap, start, len);
        match string_from_utf8(bytes) {
            Some(s) => Ok((s, next)),
            None => Err(Error::InvalidData),
        }
    }
}

impl<C> HeapCodec<C> for String {
    proof fn lemma_heap_encoded_size(v: Seq<char>, context: C, heap_len: nat) {
        let e = Entry { offset: Offset(heap_len as u32), len: encode_utf8(v).len() as u32 };
        <Entry as FlatCodec<C>>::lemma_encoded_size(e, context);
    }

    proof fn lemma_heap_round_trip(
        v: Seq<char>,
        context: C,
        heap: Seq<u8>,
        rest: Seq<u8>,
        tail: Seq<u8>,
    ) {
        let bytes = encode_utf8(v);
        let e = Entry { offset: Offset(heap.len() as u32), len: bytes.len() as u32 };
        <Entry as FlatCodec<C>>::lemma_round_trip(e, context, rest);
        let full = heap + bytes + tail;
        assert(full.subrange(heap.len() as int, (heap.len() + bytes.len()) as int) =~= bytes);
        encode_utf8_valid_utf8(v);
        encode_utf8_decode_utf8(v);
    }
}

impl<T> EncodeSized for Vec<T> {
    open spec fn spec_encoded_size() -> nat {
        8
    }

    fn encoded_size() -> (r: u32) {
        8
    }
}

impl<C, T: Encode<C>> EncodeOnHeap<C> for Vec<T> {
    open spec fn spec_fits_on_heap(v: Seq<T::V>, context: C, heap_len: nat) -> bool {
        &&& heap_len + encode_seq::<C, T>(v, context).len() <= u32::MAX
        &&& v.len() <= u32::MAX
    }

    open spec fn spec_encode_on_heap(v: Seq<T::V>, context: C, heap_len: nat) -> (
        Seq<u8>,
        Seq<u8>,
    ) {
        (stub_bytes(heap_len, v.len(), context), encode_seq::<C, T>(v, context))
    }

    fn encode_on_heap(&self, context: &C, heap: &mut Heap, output: &mut Vec<u8>) -> (r: u32) {
        let slice = self.as_slice();
        assert(slice.deep_view() =~= self.deep_view());
        let entry = heap.insert(context, slice).sized(self.len() as u32);
        proof {
            <Entry as FlatCodec<C>>::lemma_encoded_size(entry, *context);
        }
        entry.encode(context, output)
    }
}

impl<C, T: Decode<C>> DecodeFromHeap<C> for Vec<T> {
    open spec fn spec_decode_from_heap(bytes: Seq<u8>, context: C, heap: Seq<u8>) -> Result<
        (Seq<T::V>, nat),
        Error,
    > {
        match <Entry as Decode<C>>::spec_decode(bytes, context) {
            Err(e) => Err(e),
            Ok((entry, n)) => {
                let start = entry.offset.0 as int;
                if start > heap.len() {
                    Err(Error::InvalidData)
                } else {
                    match decode_seq::<C, T>(heap.skip(start), context, entry.len as nat) {
                        Err(e) => Err(e),
                        Ok((vs, m)) => Ok((vs, n)),
                    }
                }
            },
        }
    }

    fn decode_from_heap(input: &[u8], pos: usize, context: &C, heap: &[u8]) -> (r: Result<
        (Vec<T>, usize),
        Error,
    >) {
        let (entry, next) = match <Entry as Decode<C>>::decode(input, pos, context) {
            Ok(x) => x,
            Err(e) => return Err(e),
        };
        let start = entry.offset.0 as usize;
        if start > heap.len() {
            return Err(Error::InvalidData);
        }
        let n = entry.len;
        let mut result: Vec<T> = Vec::new();
        let mut p = start;
        let mut i: u32 = 0;
        while i < n
            invariant
                i <= n,
                n == entry.len,
                start == entry.offset.0,
                pos <= next <= input@.len(),
                <Entry as Decode<C>>::spec_decode(input@.skip(pos as int), *context) == Ok::<
                    (Entry, nat),
                    Error,
                >((entry, (next - pos) as nat)),
                start <= p <= heap@.len(),
                result@.len() == i,
                decode_seq::<C, T>(heap@.skip(start as int), *context, n as nat) == prepend(
                    result.deep_view(),
                    (p - start) as nat,
                    decode_seq::<C, T>(heap@.skip(p as int), *context, (n - i) as nat),
                ),
            decreases n - i,
        {
            match T::decode(heap, p, context) {
                Ok((v, after)) => {
                    let ghost old_view = result.deep_view();
                    proof {
                        assert(heap@.skip(p as int).skip(after - p) =~= heap@.skip(after as int));
                    }
                    result.push(v);
                    proof {
                        assert(result.deep_view() =~= old_view + seq![v.deep_view()]);
                        assert(old_view + seq![v.deep_view()] + Seq::<T::V>::empty() =~= result.deep_view());
                        let rest = decode_seq::<C, T>(heap@.skip(after as int), *context, (n - i - 1) as nat);
                        match rest {
                            Ok((vs, m)) => {
                                assert(old_view + (seq![v.deep_view()] + vs) =~= result.deep_view() + vs);
                            },
                            Err(e) => {},
                        }
                    }
                    p = after;
                    i = i + 1;
                },
                Err(e) => {
                    assert(decode_seq::<C, T>(heap@.skip(p as int), *context, (n - i) as nat)
                        == Err::<(Seq<T::V>, nat), Error>(e));
                    assert(decode_seq::<C, T>(heap@.skip(start as int), *context, n as nat)
                        == Err::<(Seq<T::V>, nat), Error>(e));
                    assert(Self::spec_decode_from_heap(input@.skip(pos as int), *context, heap@)
                        == Err::<(Seq<T::V>, nat), Error>(e));
                    return Err(e);
                },
            }
        }
        proof {
            assert(result.deep_view() + Seq::<T::V>::empty() =~= result.deep_view());
        }
        Ok((result, next))
    }
}

impl<C, T: FlatCodec<C>> HeapCodec<C> for Vec<T> {
    proof fn lemma_heap_encoded_size(v: Seq<T::V>, context: C, heap_len: nat) {
        let e = Entry { offset: Offset(heap_len as u32), len: v.len() as u32 };
        <Entry as FlatCodec<C>>::lemma_encoded_size(e, context);
    }

    proof fn lemma_heap_round_trip(
        v: Seq<T::V>,
        context: C,
        heap: Seq<u8>,
        rest: Seq<u8>,
        tail: Seq<u8>,
    ) {
        let bytes = encode_seq::<C, T>(v, context);
        let e = Entry { offset: Offset(heap.len() as u32), len: v.len() as u32 };
        <Entry as FlatCodec<C>>::lemma_round_trip(e, context, rest);
        let full = heap + bytes + tail;
        assert(full.skip(heap.len() as int) =~= bytes + tail);
        if v.len() > 0 {
            T::lemma_encoded_size(v[0], context);
            assert(bytes.len() >= T::spec_encode(v[0], context).len());
        }
        lemma_seq_round_trip::<C, T>(v, context, tail);
    }
}

} // verus!
