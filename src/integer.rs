use vstd::prelude::*;

use crate::bytes::{be_bytes, be_value, lemma_be_bytes_len, lemma_be_round_trip, pow256, read_be, write_be};
use crate::codec::{FlatCodec, HeapCodec};
use crate::decode::{Decode, DecodeFromHeap};
use crate::encode::{Encode, EncodeOnHeap, EncodeSized};
use crate::heap::Heap;
use crate::reader::Error;

verus! {

impl EncodeSized for u8 {
    open spec fn spec_encoded_size() -> nat {
        1
    }

    fn encoded_size() -> (r: u32) {
        1
    }
}

impl<C> Encode<C> for u8 {
    open spec fn spec_encode(v: u8, context: C) -> Seq<u8> {
        be_bytes(v as nat, 1)
    }

    fn encode(&self, context: &C, output: &mut Vec<u8>) -> (r: u32) {
        write_be(*self as u128, 1, output);
        proof {
            lemma_be_bytes_len(*self as nat, 1);
        }
        1
    }
}

impl<C> EncodeOnHeap<C> for u8 {
    open spec fn spec_fits_on_heap(v: u8, context: C, heap_len: nat) -> bool {
        true
    }

    open spec fn spec_encode_on_heap(v: u8, context: C, heap_len: nat) -> (Seq<u8>, Seq<u8>) {
        (be_bytes(v as nat, 1), Seq::empty())
    }

    fn encode_on_heap(&self, context: &C, heap: &mut Heap, output: &mut Vec<u8>) -> (r: u32) {
        assert(heap@ + Seq::<u8>::empty() =~= heap@);
        self.encode(context, output)
    }
}

impl<C> Decode<C> for u8 {
    open spec fn spec_decode(bytes: Seq<u8>, context: C) -> Result<(u8, nat), Error> {
        if bytes.len() < 1 {
            Err(Error::UnexpectedEof)
        } else {
            Ok((be_value(bytes.take(1)) as u8, 1))
        }
    }

    fn decode(input: &[u8], pos: usize, context: &C) -> (r: Result<(u8, usize), Error>) {
        if input.len() - pos < 1 {
            Err(Error::UnexpectedEof)
        } else {
            let n = read_be(input, pos, 1);
            assert(input@.subrange(pos as int, pos + 1) =~= input@.skip(pos as int).take(1));
            Ok((n as u8, pos + 1))
        }
    }
}

impl<C> DecodeFromHeap<C> for u8 {
    open spec fn spec_decode_from_heap(bytes: Seq<u8>, context: C, heap: Seq<u8>) -> Result<
        (u8, nat),
        Error,
    > {
        <u8 as Decode<C>>::spec_decode(bytes, context)
    }

    fn decode_from_heap(input: &[u8], pos: usize, context: &C, heap: &[u8]) -> (r: Result<
        (u8, usize),
        Error,
    >) {
        <u8 as Decode<C>>::decode(input, pos, context)
    }
}

impl<C> FlatCodec<C> for u8 {
    proof fn lemma_encoded_size(v: u8, context: C) {
        lemma_be_bytes_len(v as nat, 1);
    }

    proof fn lemma_round_trip(v: u8, context: C, rest: Seq<u8>) {
        let e = be_bytes(v as nat, 1);
        lemma_be_bytes_len(v as nat, 1);
        assert((e + rest).take(1) =~= e);
        assert(pow256(1) == 0x100) by {
            reveal_with_fuel(pow256, 2);
        }
        lemma_be_round_trip(v as nat, 1);
    }
}

impl<C> HeapCodec<C> for u8 {
    proof fn lemma_heap_encoded_size(v: u8, context: C, heap_len: nat) {
        lemma_be_bytes_len(v as nat, 1);
    }

    proof fn lemma_heap_round_trip(
        v: u8,
        context: C,
        heap: Seq<u8>,
        rest: Seq<u8>,
        tail: Seq<u8>,
    ) {
        <u8 as FlatCodec<C>>::lemma_round_trip(v, context, rest);
    }
}

impl EncodeSized for u16 {
    open spec fn spec_encoded_size() -> nat {
        2
    }

    fn encoded_size() -> (r: u32) {
        2
    }
}

impl<C> Encode<C> for u16 {
    open spec fn spec_encode(v: u16, context: C) -> Seq<u8> {
        be_bytes(v as nat, 2)
    }

    fn encode(&self, context: &C, output: &mut Vec<u8>) -> (r: u32) {
        write_be(*self as u128, 2, output);
        proof {
            lemma_be_bytes_len(*self as nat, 2);
        }
        2
    }
}

impl<C> EncodeOnHeap<C> for u16 {
    open spec fn spec_fits_on_heap(v: u16, context: C, heap_len: nat) -> bool {
        true
    }

    open spec fn spec_encode_on_heap(v: u16, context: C, heap_len: nat) -> (Seq<u8>, Seq<u8>) {
        (be_bytes(v as nat, 2), Seq::empty())
    }

    fn encode_on_heap(&self, context: &C, heap: &mut Heap, output: &mut Vec<u8>) -> (r: u32) {
        assert(heap@ + Seq::<u8>::empty() =~= heap@);
        self.encode(context, output)
    }
}

impl<C> Decode<C> for u16 {
    open spec fn spec_decode(bytes: Seq<u8>, context: C) -> Result<(u16, nat), Error> {
        if bytes.len() < 2 {
            Err(Error::UnexpectedEof)
        } else {
            Ok((be_value(bytes.take(2)) as u16, 2))
        }
    }

    fn decode(input: &[u8], pos: usize, context: &C) -> (r: Result<(u16, usize), Error>) {
        if input.len() - pos < 2 {
            Err(Error::UnexpectedEof)
        } else {
            let n = read_be(input, pos, 2);
            assert(input@.subrange(pos as int, pos + 2) =~= input@.skip(pos as int).take(2));
            Ok((n as u16, pos + 2))
        }
    }
}

impl<C> DecodeFromHeap<C> for u16 {
    open spec fn spec_decode_from_heap(bytes: Seq<u8>, context: C, heap: Seq<u8>) -> Result<
        (u16, nat),
        Error,
    > {
        <u16 as Decode<C>>::spec_decode(bytes, context)
    }

    fn decode_from_heap(input: &[u8], pos: usize, context: &C, heap: &[u8]) -> (r: Result<
        (u16, usize),
        Error,
    >) {
        <u16 as Decode<C>>::decode(input, pos, context)
    }
}

impl<C> FlatCodec<C> for u16 {
    proof fn lemma_encoded_size(v: u16, context: C) {
        lemma_be_bytes_len(v as nat, 2);
    }

    proof fn lemma_round_trip(v: u16, context: C, rest: Seq<u8>) {
        let e = be_bytes(v as nat, 2);
        lemma_be_bytes_len(v as nat, 2);
        assert((e + rest).take(2) =~= e);
        assert(pow256(2) == 0x1_0000) by {
            reveal_with_fuel(pow256, 3);
        }
        lemma_be_round_trip(v as nat, 2);
    }
}

impl<C> HeapCodec<C> for u16 {
    proof fn lemma_heap_encoded_size(v: u16, context: C, heap_len: nat) {
        lemma_be_bytes_len(v as nat, 2);
    }

    proof fn lemma_heap_round_trip(
        v: u16,
        context: C,
        heap: Seq<u8>,
        rest: Seq<u8>,
        tail: Seq<u8>,
    ) {
        <u16 as FlatCodec<C>>::lemma_round_trip(v, context, rest);
    }
}

impl EncodeSized for u32 {
    open spec fn spec_encoded_size() -> nat {
        4
    }

    fn encoded_size() -> (r: u32) {
        4
    }
}

impl<C> Encode<C> for u32 {
    open spec fn spec_encode(v: u32, context: C) -> Seq<u8> {
        be_bytes(v as nat, 4)
    }

    fn encode(&self, context: &C, output: &mut Vec<u8>) -> (r: u32) {
        write_be(*self as u128, 4, output);
        proof {
            lemma_be_bytes_len(*self as nat, 4);
        }
        4
    }
}

impl<C> EncodeOnHeap<C> for u32 {
    open spec fn spec_fits_on_heap(v: u32, context: C, heap_len: nat) -> bool {
        true
    }

    open spec fn spec_encode_on_heap(v: u32, context: C, heap_len: nat) -> (Seq<u8>, Seq<u8>) {
        (be_bytes(v as nat, 4), Seq::empty())
    }

    fn encode_on_heap(&self, context: &C, heap: &mut Heap, output: &mut Vec<u8>) -> (r: u32) {
        assert(heap@ + Seq::<u8>::empty() =~= heap@);
        self.encode(context, output)
    }
}

impl<C> Decode<C> for u32 {
    open spec fn spec_decode(bytes: Seq<u8>, context: C) -> Result<(u32, nat), Error> {
        if bytes.len() < 4 {
            Err(Error::UnexpectedEof)
        } else {
            Ok((be_value(bytes.take(4)) as u32, 4))
        }
    }

    fn decode(input: &[u8], pos: usize, context: &C) -> (r: Result<(u32, usize), Error>) {
        if input.len() - pos < 4 {
            Err(Error::UnexpectedEof)
        } else {
            let n = read_be(input, pos, 4);
            assert(input@.subrange(pos as int, pos + 4) =~= input@.skip(pos as int).take(4));
            Ok((n as u32, pos + 4))
        }
    }
}

impl<C> DecodeFromHeap<C> for u32 {
    open spec fn spec_decode_from_heap(bytes: Seq<u8>, context: C, heap: Seq<u8>) -> Result<
        (u32, nat),
        Error,
    > {
        <u32 as Decode<C>>::spec_decode(bytes, context)
    }

    fn decode_from_heap(input: &[u8], pos: usize, context: &C, heap: &[u8]) -> (r: Result<
        (u32, usize),
        Error,
    >) {
        <u32 as Decode<C>>::decode(input, pos, context)
    }
}

impl<C> FlatCodec<C> for u32 {
    proof fn lemma_encoded_size(v: u32, context: C) {
        lemma_be_bytes_len(v as nat, 4);
    }

    proof fn lemma_round_trip(v: u32, context: C, rest: Seq<u8>) {
        let e = be_bytes(v as nat, 4);
        lemma_be_bytes_len(v as nat, 4);
        assert((e + rest).take(4) =~= e);
        assert(pow256(4) == 0x1_0000_0000) by {
            reveal_with_fuel(pow256, 5);
        }
        lemma_be_round_trip(v as nat, 4);
    }
}

impl<C> HeapCodec<C> for u32 {
    proof fn lemma_heap_encoded_size(v: u32, context: C, heap_len: nat) {
        lemma_be_bytes_len(v as nat, 4);
    }

    proof fn lemma_heap_round_trip(
        v: u32,
        context: C,
        heap: Seq<u8>,
        rest: Seq<u8>,
        tail: Seq<u8>,
    ) {
        <u32 as FlatCodec<C>>::lemma_round_trip(v, context, rest);
    }
}

impl EncodeSized for u64 {
    open spec fn spec_encoded_size() -> nat {
        8
    }

    fn encoded_size() -> (r: u32) {
        8
    }
}

impl<C> Encode<C> for u64 {
    open spec fn spec_encode(v: u64, context: C) -> Seq<u8> {
        be_bytes(v as nat, 8)
    }

    fn encode(&self, context: &C, output: &mut Vec<u8>) -> (r: u32) {
        write_be(*self as u128, 8, output);
        proof {
            lemma_be_bytes_len(*self as nat, 8);
        }
        8
    }
}

impl<C> EncodeOnHeap<C> for u64 {
    open spec fn spec_fits_on_heap(v: u64, context: C, heap_len: nat) -> bool {
        true
    }

    open spec fn spec_encode_on_heap(v: u64, context: C, heap_len: nat) -> (Seq<u8>, Seq<u8>) {
        (be_bytes(v as nat, 8), Seq::empty())
    }

    fn encode_on_heap(&self, context: &C, heap: &mut Heap, output: &mut Vec<u8>) -> (r: u32) {
        assert(heap@ + Seq::<u8>::empty() =~= heap@);
        self.encode(context, output)
    }
}

impl<C> Decode<C> for u64 {
    open spec fn spec_decode(bytes: Seq<u8>, context: C) -> Result<(u64, nat), Error> {
        if bytes.len() < 8 {
            Err(Error::UnexpectedEof)
        } else {
            Ok((be_value(bytes.take(8)) as u64, 8))
        }
    }

    fn decode(input: &[u8], pos: usize, context: &C) -> (r: Result<(u64, usize), Error>) {
        if input.len() - pos < 8 {
            Err(Error::UnexpectedEof)
        } else {
            let n = read_be(input, pos, 8);
            assert(input@.subrange(pos as int, pos + 8) =~= input@.skip(pos as int).take(8));
            Ok((n as u64, pos + 8))
        }
    }
}

impl<C> DecodeFromHeap<C> for u64 {
    open spec fn spec_decode_from_heap(bytes: Seq<u8>, context: C, heap: Seq<u8>) -> Result<
        (u64, nat),
        Error,
    > {
        <u64 as Decode<C>>::spec_decode(bytes, context)
    }

    fn decode_from_heap(input: &[u8], pos: usize, context: &C, heap: &[u8]) -> (r: Result<
        (u64, usize),
        Error,
    >) {
        <u64 as Decode<C>>::decode(input, pos, context)
    }
}

impl<C> FlatCodec<C> for u64 {
    proof fn lemma_encoded_size(v: u64, context: C) {
        lemma_be_bytes_len(v as nat, 8);
    }

    proof fn lemma_round_trip(v: u64, context: C, rest: Seq<u8>) {
        let e = be_bytes(v as nat, 8);
        lemma_be_bytes_len(v as nat, 8);
        assert((e + rest).take(8) =~= e);
        assert(pow256(8) == 0x1_0000_0000_0000_0000) by {
            reveal_with_fuel(pow256, 9);
        }
        lemma_be_round_trip(v as nat, 8);
    }
}

impl<C> HeapCodec<C> for u64 {
    proof fn lemma_heap_encoded_size(v: u64, context: C, heap_len: nat) {
        lemma_be_bytes_len(v as nat, 8);
    }

    proof fn lemma_heap_round_trip(
        v: u64,
        context: C,
        heap: Seq<u8>,
        rest: Seq<u8>,
        tail: Seq<u8>,
    ) {
        <u64 as FlatCodec<C>>::lemma_round_trip(v, context, rest);
    }
}

impl EncodeSized for u128 {
    open spec fn spec_encoded_size() -> nat {
        16
    }

    fn encoded_size() -> (r: u32) {
        16
    }
}

impl<C> Encode<C> for u128 {
    open spec fn spec_encode(v: u128, context: C) -> Seq<u8> {
        be_bytes(v as nat, 16)
    }

    fn encode(&self, context: &C, output: &mut Vec<u8>) -> (r: u32) {
        write_be(*self, 16, output);
        proof {
            lemma_be_bytes_len(*self as nat, 16);
        }
        16
    }
}

impl<C> EncodeOnHeap<C> for u128 {
    open spec fn spec_fits_on_heap(v: u128, context: C, heap_len: nat) -> bool {
        true
    }

    open spec fn spec_encode_on_heap(v: u128, context: C, heap_len: nat) -> (Seq<u8>, Seq<u8>) {
        (be_bytes(v as nat, 16), Seq::empty())
    }

    fn encode_on_heap(&self, context: &C, heap: &mut Heap, output: &mut Vec<u8>) -> (r: u32) {
        assert(heap@ + Seq::<u8>::empty() =~= heap@);
        self.encode(context, output)
    }
}

impl<C> Decode<C> for u128 {
    open spec fn spec_decode(bytes: Seq<u8>, context: C) -> Result<(u128, nat), Error> {
        if bytes.len() < 16 {
            Err(Error::UnexpectedEof)
        } else {
            Ok((be_value(bytes.take(16)) as u128, 16))
        }
    }

    fn decode(input: &[u8], pos: usize, context: &C) -> (r: Result<(u128, usize), Error>) {
        if input.len() - pos < 16 {
            Err(Error::UnexpectedEof)
        } else {
            let n = read_be(input, pos, 16);
            assert(input@.subrange(pos as int, pos + 16) =~= input@.skip(pos as int).take(16));
            Ok((n, pos + 16))
        }
    }
}

impl<C> DecodeFromHeap<C> for u128 {
    open spec fn spec_decode_from_heap(bytes: Seq<u8>, context: C, heap: Seq<u8>) -> Result<
        (u128, nat),
        Error,
    > {
        <u128 as Decode<C>>::spec_decode(bytes, context)
    }

    fn decode_from_heap(input: &[u8], pos: usize, context: &C, heap: &[u8]) -> (r: Result<
        (u128, usize),
        Error,
    >) {
        <u128 as Decode<C>>::decode(input, pos, context)
    }
}

impl<C> FlatCodec<C> for u128 {
    proof fn lemma_encoded_size(v: u128, context: C) {
        lemma_be_bytes_len(v as nat, 16);
    }

    proof fn lemma_round_trip(v: u128, context: C, rest: Seq<u8>) {
        let e = be_bytes(v as nat, 16);
        lemma_be_bytes_len(v as nat, 16);
        assert((e + rest).take(16) =~= e);
        assert(pow256(16) == 0x1_0000_0000_0000_0000_0000_0000_0000_0000) by {
            reveal_with_fuel(pow256, 17);
        }
        lemma_be_round_trip(v as nat, 16);
    }
}

impl<C> HeapCodec<C> for u128 {
    proof fn lemma_heap_encoded_size(v: u128, context: C, heap_len: nat) {
        lemma_be_bytes_len(v as nat, 16);
    }

    proof fn lemma_heap_round_trip(
        v: u128,
        context: C,
        heap: Seq<u8>,
        rest: Seq<u8>,
        tail: Seq<u8>,
    ) {
        <u128 as FlatCodec<C>>::lemma_round_trip(v, context, rest);
    }
}

impl EncodeSized for i8 {
    open spec fn spec_encoded_size() -> nat {
        1
    }

    fn encoded_size() -> (r: u32) {
        1
    }
}

impl<C> Encode<C> for i8 {
    open spec fn spec_encode(v: i8, context: C) -> Seq<u8> {
        be_bytes(v as u8 as nat, 1)
    }

    fn encode(&self, context: &C, output: &mut Vec<u8>) -> (r: u32) {
        write_be(*self as u8 as u128, 1, output);
        proof {
            lemma_be_bytes_len(*self as u8 as nat, 1);
        }
        1
    }
}

impl<C> EncodeOnHeap<C> for i8 {
    open spec fn spec_fits_on_heap(v: i8, context: C, heap_len: nat) -> bool {
        true
    }

    open spec fn spec_encode_on_heap(v: i8, context: C, heap_len: nat) -> (Seq<u8>, Seq<u8>) {
        (be_bytes(v as u8 as nat, 1), Seq::empty())
    }

    fn encode_on_heap(&self, context: &C, heap: &mut Heap, output: &mut Vec<u8>) -> (r: u32) {
        assert(heap@ + Seq::<u8>::empty() =~= heap@);
        self.encode(context, output)
    }
}

impl<C> Decode<C> for i8 {
    open spec fn spec_decode(bytes: Seq<u8>, context: C) -> Result<(i8, nat), Error> {
        if bytes.len() < 1 {
            Err(Error::UnexpectedEof)
        } else {
            Ok((be_value(bytes.take(1)) as u8 as i8, 1))
        }
    }

    fn decode(input: &[u8], pos: usize, context: &C) -> (r: Result<(i8, usize), Error>) {
        if input.len() - pos < 1 {
            Err(Error::UnexpectedEof)
        } else {
            let n = read_be(input, pos, 1);
            assert(input@.subrange(pos as int, pos + 1) =~= input@.skip(pos as int).take(1));
            Ok((n as u8 as i8, pos + 1))
        }
    }
}

impl<C> DecodeFromHeap<C> for i8 {
    open spec fn spec_decode_from_heap(bytes: Seq<u8>, context: C, heap: Seq<u8>) -> Result<
        (i8, nat),
        Error,
    > {
        <i8 as Decode<C>>::spec_decode(bytes, context)
    }

    fn decode_from_heap(input: &[u8], pos: usize, context: &C, heap: &[u8]) -> (r: Result<
        (i8, usize),
        Error,
    >) {
        <i8 as Decode<C>>::decode(input, pos, context)
    }
}

impl<C> FlatCodec<C> for i8 {
    proof fn lemma_encoded_size(v: i8, context: C) {
        lemma_be_bytes_len(v as u8 as nat, 1);
    }

    proof fn lemma_round_trip(v: i8, context: C, rest: Seq<u8>) {
        let e = be_bytes(v as u8 as nat, 1);
        lemma_be_bytes_len(v as u8 as nat, 1);
        assert((e + rest).take(1) =~= e);
        assert(pow256(1) == 0x100) by {
            reveal_with_fuel(pow256, 2);
        }
        lemma_be_round_trip(v as u8 as nat, 1);
        assert(v as u8 as i8 == v) by (bit_vector);
    }
}

impl<C> HeapCodec<C> for i8 {
    proof fn lemma_heap_encoded_size(v: i8, context: C, heap_len: nat) {
        lemma_be_bytes_len(v as u8 as nat, 1);
    }

    proof fn lemma_heap_round_trip(
        v: i8,
        context: C,
        heap: Seq<u8>,
        rest: Seq<u8>,
        tail: Seq<u8>,
    ) {
        <i8 as FlatCodec<C>>::lemma_round_trip(v, context, rest);
    }
}

impl EncodeSized for i16 {
    open spec fn spec_encoded_size() -> nat {
        2
    }

    fn encoded_size() -> (r: u32) {
        2
    }
}

impl<C> Encode<C> for i16 {
    open spec fn spec_encode(v: i16, context: C) -> Seq<u8> {
        be_bytes(v as u16 as nat, 2)
    }

    fn encode(&self, context: &C, output: &mut Vec<u8>) -> (r: u32) {
        write_be(*self as u16 as u128, 2, output);
        proof {
            lemma_be_bytes_len(*self as u16 as nat, 2);
        }
        2
    }
}

impl<C> EncodeOnHeap<C> for i16 {
    open spec fn spec_fits_on_heap(v: i16, context: C, heap_len: nat) -> bool {
        true
    }

    open spec fn spec_encode_on_heap(v: i16, context: C, heap_len: nat) -> (Seq<u8>, Seq<u8>) {
        (be_bytes(v as u16 as nat, 2), Seq::empty())
    }

    fn encode_on_heap(&self, context: &C, heap: &mut Heap, output: &mut Vec<u8>) -> (r: u32) {
        assert(heap@ + Seq::<u8>::empty() =~= heap@);
        self.encode(context, output)
    }
}

impl<C> Decode<C> for i16 {
    open spec fn spec_decode(bytes: Seq<u8>, context: C) -> Result<(i16, nat), Error> {
        if bytes.len() < 2 {
            Err(Error::UnexpectedEof)
        } else {
            Ok((be_value(bytes.take(2)) as u16 as i16, 2))
        }
    }

    fn decode(input: &[u8], pos: usize, context: &C) -> (r: Result<(i16, usize), Error>) {
        if input.len() - pos < 2 {
            Err(Error::UnexpectedEof)
        } else {
            let n = read_be(input, pos, 2);
            assert(input@.subrange(pos as int, pos + 2) =~= input@.skip(pos as int).take(2));
            Ok((n as u16 as i16, pos + 2))
        }
    }
}

impl<C> DecodeFromHeap<C> for i16 {
    open spec fn spec_decode_from_heap(bytes: Seq<u8>, context: C, heap: Seq<u8>) -> Result<
        (i16, nat),
        Error,
    > {
        <i16 as Decode<C>>::spec_decode(bytes, context)
    }

    fn decode_from_heap(input: &[u8], pos: usize, context: &C, heap: &[u8]) -> (r: Result<
        (i16, usize),
        Error,
    >) {
        <i16 as Decode<C>>::decode(input, pos, context)
    }
}

impl<C> FlatCodec<C> for i16 {
    proof fn lemma_encoded_size(v: i16, context: C) {
        lemma_be_bytes_len(v as u16 as nat, 2);
    }

    proof fn lemma_round_trip(v: i16, context: C, rest: Seq<u8>) {
        let e = be_bytes(v as u16 as nat, 2);
        lemma_be_bytes_len(v as u16 as nat, 2);
        assert((e + rest).take(2) =~= e);
        assert(pow256(2) == 0x1_0000) by {
            reveal_with_fuel(pow256, 3);
        }
        lemma_be_round_trip(v as u16 as nat, 2);
        assert(v as u16 as i16 == v) by (bit_vector);
    }
}

impl<C> HeapCodec<C> for i16 {
    proof fn lemma_heap_encoded_size(v: i16, context: C, heap_len: nat) {
        lemma_be_bytes_len(v as u16 as nat, 2);
    }

    proof fn lemma_heap_round_trip(
        v: i16,
        context: C,
        heap: Seq<u8>,
        rest: Seq<u8>,
        tail: Seq<u8>,
    ) {
        <i16 as FlatCodec<C>>::lemma_round_trip(v, context, rest);
    }
}

impl EncodeSized for i32 {
    open spec fn spec_encoded_size() -> nat {
        4
    }

    fn encoded_size() -> (r: u32) {
        4
    }
}

impl<C> Encode<C> for i32 {
    open spec fn spec_encode(v: i32, context: C) -> Seq<u8> {
        be_bytes(v as u32 as nat, 4)
    }

    fn encode(&self, context: &C, output: &mut Vec<u8>) -> (r: u32) {
        write_be(*self as u32 as u128, 4, output);
        proof {
            lemma_be_bytes_len(*self as u32 as nat, 4);
        }
        4
    }
}

impl<C> EncodeOnHeap<C> for i32 {
    open spec fn spec_fits_on_heap(v: i32, context: C, heap_len: nat) -> bool {
        true
    }

    open spec fn spec_encode_on_heap(v: i32, context: C, heap_len: nat) -> (Seq<u8>, Seq<u8>) {
        (be_bytes(v as u32 as nat, 4), Seq::empty())
    }

    fn encode_on_heap(&self, context: &C, heap: &mut Heap, output: &mut Vec<u8>) -> (r: u32) {
        assert(heap@ + Seq::<u8>::empty() =~= heap@);
        self.encode(context, output)
    }
}

impl<C> Decode<C> for i32 {
    open spec fn spec_decode(bytes: Seq<u8>, context: C) -> Result<(i32, nat), Error> {
        if bytes.len() < 4 {
            Err(Error::UnexpectedEof)
        } else {
            Ok((be_value(bytes.take(4)) as u32 as i32, 4))
        }
    }

    fn decode(input: &[u8], pos: usize, context: &C) -> (r: Result<(i32, usize), Error>) {
        if input.len() - pos < 4 {
            Err(Error::UnexpectedEof)
        } else {
            let n = read_be(input, pos, 4);
            assert(input@.subrange(pos as int, pos + 4) =~= input@.skip(pos as int).take(4));
            Ok((n as u32 as i32, pos + 4))
        }
    }
}

impl<C> DecodeFromHeap<C> for i32 {
    open spec fn spec_decode_from_heap(bytes: Seq<u8>, context: C, heap: Seq<u8>) -> Result<
        (i32, nat),
        Error,
    > {
        <i32 as Decode<C>>::spec_decode(bytes, context)
    }

    fn decode_from_heap(input: &[u8], pos: usize, context: &C, heap: &[u8]) -> (r: Result<
        (i32, usize),
        Error,
    >) {
        <i32 as Decode<C>>::decode(input, pos, context)
    }
}

impl<C> FlatCodec<C> for i32 {
    proof fn lemma_encoded_size(v: i32, context: C) {
        lemma_be_bytes_len(v as u32 as nat, 4);
    }

    proof fn lemma_round_trip(v: i32, context: C, rest: Seq<u8>) {
        let e = be_bytes(v as u32 as nat, 4);
        lemma_be_bytes_len(v as u32 as nat, 4);
        assert((e + rest).take(4) =~= e);
        assert(pow256(4) == 0x1_0000_0000) by {
            reveal_with_fuel(pow256, 5);
        }
        lemma_be_round_trip(v as u32 as nat, 4);
        assert(v as u32 as i32 == v) by (bit_vector);
    }
}

impl<C> HeapCodec<C> for i32 {
    proof fn lemma_heap_encoded_size(v: i32, context: C, heap_len: nat) {
        lemma_be_bytes_len(v as u32 as nat, 4);
    }

    proof fn lemma_heap_round_trip(
        v: i32,
        context: C,
        heap: Seq<u8>,
        rest: Seq<u8>,
        tail: Seq<u8>,
    ) {
        <i32 as FlatCodec<C>>::lemma_round_trip(v, context, rest);
    }
}

impl EncodeSized for i64 {
    open spec fn spec_encoded_size() -> nat {
        8
    }

    fn encoded_size() -> (r: u32) {
        8
    }
}

impl<C> Encode<C> for i64 {
    open spec fn spec_encode(v: i64, context: C) -> Seq<u8> {
        be_bytes(v as u64 as nat, 8)
    }

    fn encode(&self, context: &C, output: &mut Vec<u8>) -> (r: u32) {
        write_be(*self as u64 as u128, 8, output);
        proof {
            lemma_be_bytes_len(*self as u64 as nat, 8);
        }
        8
    }
}

impl<C> EncodeOnHeap<C> for i64 {
    open spec fn spec_fits_on_heap(v: i64, context: C, heap_len: nat) -> bool {
        true
    }

    open spec fn spec_encode_on_heap(v: i64, context: C, heap_len: nat) -> (Seq<u8>, Seq<u8>) {
        (be_bytes(v as u64 as nat, 8), Seq::empty())
    }

    fn encode_on_heap(&self, context: &C, heap: &mut Heap, output: &mut Vec<u8>) -> (r: u32) {
        assert(heap@ + Seq::<u8>::empty() =~= heap@);
        self.encode(context, output)
    }
}

impl<C> Decode<C> for i64 {
    open spec fn spec_decode(bytes: Seq<u8>, context: C) -> Result<(i64, nat), Error> {
        if bytes.len() < 8 {
            Err(Error::UnexpectedEof)
        } else {
            Ok((be_value(bytes.take(8)) as u64 as i64, 8))
        }
    }

    fn decode(input: &[u8], pos: usize, context: &C) -> (r: Result<(i64, usize), Error>) {
        if input.len() - pos < 8 {
            Err(Error::UnexpectedEof)
        } else {
            let n = read_be(input, pos, 8);
            assert(input@.subrange(pos as int, pos + 8) =~= input@.skip(pos as int).take(8));
            Ok((n as u64 as i64, pos + 8))
        }
    }
}

impl<C> DecodeFromHeap<C> for i64 {
    open spec fn spec_decode_from_heap(bytes: Seq<u8>, context: C, heap: Seq<u8>) -> Result<
        (i64, nat),
        Error,
    > {
        <i64 as Decode<C>>::spec_decode(bytes, context)
    }

    fn decode_from_heap(input: &[u8], pos: usize, context: &C, heap: &[u8]) -> (r: Result<
        (i64, usize),
        Error,
    >) {
        <i64 as Decode<C>>::decode(input, pos, context)
    }
}

impl<C> FlatCodec<C> for i64 {
    proof fn lemma_encoded_size(v: i64, context: C) {
        lemma_be_bytes_len(v as u64 as nat, 8);
    }

    proof fn lemma_round_trip(v: i64, context: C, rest: Seq<u8>) {
        let e = be_bytes(v as u64 as nat, 8);
        lemma_be_bytes_len(v as u64 as nat, 8);
        assert((e + rest).take(8) =~= e);
        assert(pow256(8) == 0x1_0000_0000_0000_0000) by {
            reveal_with_fuel(pow256, 9);
        }
        lemma_be_round_trip(v as u64 as nat, 8);
        assert(v as u64 as i64 == v) by (bit_vector);
    }
}

impl<C> HeapCodec<C> for i64 {
    proof fn lemma_heap_encoded_size(v: i64, context: C, heap_len: nat) {
        lemma_be_bytes_len(v as u64 as nat, 8);
    }

    proof fn lemma_heap_round_trip(
        v: i64,
        context: C,
        heap: Seq<u8>,
        rest: Seq<u8>,
        tail: Seq<u8>,
    ) {
        <i64 as FlatCodec<C>>::lemma_round_trip(v, context, rest);
    }
}

impl EncodeSized for i128 {
    open spec fn spec_encoded_size() -> nat {
        16
    }

    fn encoded_size() -> (r: u32) {
        16
    }
}

impl<C> Encode<C> for i128 {
    open spec fn spec_encode(v: i128, context: C) -> Seq<u8> {
        be_bytes(v as u128 as nat, 16)
    }

    fn encode(&self, context: &C, output: &mut Vec<u8>) -> (r: u32) {
        write_be(*self as u128 as u128, 16, output);
        proof {
            lemma_be_bytes_len(*self as u128 as nat, 16);
        }
        16
    }
}

impl<C> EncodeOnHeap<C> for i128 {
    open spec fn spec_fits_on_heap(v: i128, context: C, heap_len: nat) -> bool {
        true
    }

    open spec fn spec_encode_on_heap(v: i128, context: C, heap_len: nat) -> (Seq<u8>, Seq<u8>) {
        (be_bytes(v as u128 as nat, 16), Seq::empty())
    }

    fn encode_on_heap(&self, context: &C, heap: &mut Heap, output: &mut Vec<u8>) -> (r: u32) {
        assert(heap@ + Seq::<u8>::empty() =~= heap@);
        self.encode(context, output)
    }
}

impl<C> Decode<C> for i128 {
    open spec fn spec_decode(bytes: Seq<u8>, context: C) -> Result<(i128, nat), Error> {
        if bytes.len() < 16 {
            Err(Error::UnexpectedEof)
        } else {
            Ok((be_value(bytes.take(16)) as u128 as i128, 16))
        }
    }

    fn decode(input: &[u8], pos: usize, context: &C) -> (r: Result<(i128, usize), Error>) {
        if input.len() - pos < 16 {
            Err(Error::UnexpectedEof)
        } else {
            let n = read_be(input, pos, 16);
            assert(input@.subrange(pos as int, pos + 16) =~= input@.skip(pos as int).take(16));
            Ok((n as u128 as i128, pos + 16))
        }
    }
}

impl<C> DecodeFromHeap<C> for i128 {
    open spec fn spec_decode_from_heap(bytes: Seq<u8>, context: C, heap: Seq<u8>) -> Result<
        (i128, nat),
        Error,
    > {
        <i128 as Decode<C>>::spec_decode(bytes, context)
    }

    fn decode_from_heap(input: &[u8], pos: usize, context: &C, heap: &[u8]) -> (r: Result<
        (i128, usize),
        Error,
    >) {
        <i128 as Decode<C>>::decode(input, pos, context)
    }
}

impl<C> FlatCodec<C> for i128 {
    proof fn lemma_encoded_size(v: i128, context: C) {
        lemma_be_bytes_len(v as u128 as nat, 16);
    }

    proof fn lemma_round_trip(v: i128, context: C, rest: Seq<u8>) {
        let e = be_bytes(v as u128 as nat, 16);
        lemma_be_bytes_len(v as u128 as nat, 16);
        assert((e + rest).take(16) =~= e);
        assert(pow256(16) == 0x1_0000_0000_0000_0000_0000_0000_0000_0000) by {
            reveal_with_fuel(pow256, 17);
        }
        lemma_be_round_trip(v as u128 as nat, 16);
        assert(v as u128 as i128 == v) by (bit_vector);
    }
}

impl<C> HeapCodec<C> for i128 {
    proof fn lemma_heap_encoded_size(v: i128, context: C, heap_len: nat) {
        lemma_be_bytes_len(v as u128 as nat, 16);
    }

    proof fn lemma_heap_round_trip(
        v: i128,
        context: C,
        heap: Seq<u8>,
        rest: Seq<u8>,
        tail: Seq<u8>,
    ) {
        <i128 as FlatCodec<C>>::lemma_round_trip(v, context, rest);
    }
}

} // verus!
