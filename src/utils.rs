use vstd::prelude::*;

use crate::bytes::{be_bytes, lemma_be_bytes_len};
use crate::decode::Decode;
use crate::encode::Encode;
use crate::reader::Error;
use crate::variable::{decode_seq, encode_seq, lemma_encode_seq_push, prepend};

verus! {

/// `a / b` rounded up, for `b > 0`.
pub open spec fn ceil_div(a: nat, b: nat) -> nat
    recommends
        b > 0,
{
    if a % b == 0 {
        a / b
    } else {
        a / b + 1
    }
}

/// Rounding up never gives more than the dividend.
pub proof fn lemma_ceil_div_bound(a: nat, b: nat)
    requires
        b > 0,
    ensures
        ceil_div(a, b) <= a,
{
    if a % b == 0 {
        assert(a / b <= a) by (nonlinear_arith)
            requires
                b > 0,
        ;
    } else {
        assert(a / b + 1 <= a) by (nonlinear_arith)
            requires
                b > 0,
                a % b != 0,
        ;
    }
}

/// Division rounded up.
pub trait CeilingDiv: Sized {
    /// Whether `ceiling_div` may be called on these arguments.
    spec fn ceiling_div_requires(self, other: Self) -> bool;

    /// What `ceiling_div` returns.
    spec fn ceiling_div_spec(self, other: Self) -> Self;

    fn ceiling_div(self, other: Self) -> (r: Self)
        requires
            self.ceiling_div_requires(other),
        ensures
            r == self.ceiling_div_spec(other),
    ;
}

impl CeilingDiv for u32 {
    open spec fn ceiling_div_requires(self, other: u32) -> bool {
        other > 0
    }

    open spec fn ceiling_div_spec(self, other: u32) -> u32 {
        ceil_div(self as nat, other as nat) as u32
    }

    fn ceiling_div(self, other: u32) -> (r: u32) {
        let q = self / other;
        if self % other == 0 {
            q
        } else {
            assert(q < u32::MAX) by (nonlinear_arith)
                requires
                    q == self / other,
                    other > 0,
                    self % other != 0,
            ;
            q + 1
        }
    }
}

/// The larger of two sizes.
pub fn max(a: u32, b: u32) -> (r: u32)
    ensures
        r == if a > b { a } else { b },
{
    if a > b {
        a
    } else {
        b
    }
}

/// A list written in place, behind its length, rather than on a heap.
#[derive(Debug, Clone, Copy, PartialEq, Eq, Default)]
pub struct Inline<T>(pub T);

impl<T: DeepView> DeepView for Inline<T> {
    type V = T::V;

    open spec fn deep_view(&self) -> T::V {
        self.0.deep_view()
    }
}

impl<C, T: Encode<C>> Encode<C> for Inline<Vec<T>> {
    /// The number of elements as a `u32`, then their flat encodings.
    open spec fn spec_encode(v: Seq<T::V>, context: C) -> Seq<u8> {
        be_bytes((v.len() as u32) as nat, 4) + encode_seq::<C, T>(v, context)
    }

    fn encode(&self, context: &C, output: &mut Vec<u8>) -> (r: u32) {
        proof {
            lemma_be_bytes_len((self.0@.len() as u32) as nat, 4);
        }
        let n = (self.0.len() as u32).encode(context, output);
        let slice = self.0.as_slice();
        assert(slice.deep_view() =~= self.deep_view());
        let m = slice.encode(context, output);
        assert(output@ =~= old(output)@ + Self::spec_encode(self.deep_view(), *context));
        n + m
    }
}

impl<C, T: Decode<C>> Decode<C> for Inline<Vec<T>> {
    open spec fn spec_decode(bytes: Seq<u8>, context: C) -> Result<(Seq<T::V>, nat), Error> {
        match <u32 as Decode<C>>::spec_decode(bytes, context) {
            Err(e) => Err(e),
            Ok((len, k)) => match decode_seq::<C, T>(bytes.skip(k as int), context, len as nat) {
                Err(e) => Err(e),
                Ok((vs, m)) => Ok((vs, k + m)),
            },
        }
    }

    fn decode(input: &[u8], pos: usize, context: &C) -> (r: Result<(Inline<Vec<T>>, usize), Error>) {
        let (n, start) = match <u32 as Decode<C>>::decode(input, pos, context) {
            Ok(x) => x,
            Err(e) => return Err(e),
        };
        assert(input@.skip(pos as int).skip(start - pos) =~= input@.skip(start as int));
        let mut result: Vec<T> = Vec::new();
        let mut p = start;
        let mut i: u32 = 0;
        while i < n
            invariant
                i <= n,
                pos <= start <= p <= input@.len(),
                <u32 as Decode<C>>::spec_decode(input@.skip(pos as int), *context) == Ok::<
                    (u32, nat),
                    Error,
                >((n, (start - pos) as nat)),
                input@.skip(pos as int).skip(start - pos) == input@.skip(start as int),
                result@.len() == i,
                decode_seq::<C, T>(input@.skip(start as int), *context, n as nat) == prepend(
                    result.deep_view(),
                    (p - start) as nat,
                    decode_seq::<C, T>(input@.skip(p as int), *context, (n - i) as nat),
                ),
            decreases n - i,
        {
            match T::decode(input, p, context) {
                Ok((v, after)) => {
                    let ghost old_view = result.deep_view();
                    proof {
                        assert(input@.skip(p as int).skip(after - p) =~= input@.skip(after as int));
                    }
                    result.push(v);
                    proof {
                        assert(result.deep_view() =~= old_view + seq![v.deep_view()]);
                        let rest = decode_seq::<C, T>(input@.skip(after as int), *context, (n - i - 1) as nat);
                        match rest {
                            Ok((vs, m)) => {
                                assert(old_view + (seq![v.deep_view()] + vs) =~= result.deep_view() + vs);
                            },
                            Err(e) => {},
                        }
                    }
                    p = after;
                    i = i + 1;
                },
                Err(e) => {
                    assert(decode_seq::<C, T>(input@.skip(p as int), *context, (n - i) as nat)
                        == Err::<(Seq<T::V>, nat), Error>(e));
                    return Err(e);
                },
            }
        }
        proof {
            assert(result.deep_view() + Seq::<T::V>::empty() =~= result.deep_view());
        }
        Ok((Inline(result), p))
    }
}

} // verus!
