use vstd::prelude::*;

verus! {

/// `256^w`: the number of values that `w` bytes can hold.
pub open spec fn pow256(w: nat) -> nat
    decreases w,
{
    if w == 0 {
        1
    } else {
        256 * pow256((w - 1) as nat)
    }
}

/// The `width` low bytes of `n`, most significant first.
pub open spec fn be_bytes(n: nat, width: nat) -> Seq<u8>
    decreases width,
{
    if width == 0 {
        Seq::empty()
    } else {
        be_bytes(n / 256, (width - 1) as nat).push((n % 256) as u8)
    }
}

/// The number that `bytes` spell, most significant first.
pub open spec fn be_value(bytes: Seq<u8>) -> nat
    decreases bytes.len(),
{
    if bytes.len() == 0 {
        0
    } else {
        be_value(bytes.drop_last()) * 256 + bytes.last() as nat
    }
}

/// A sequence of `n` zero bytes.
pub open spec fn zeros(n: nat) -> Seq<u8> {
    Seq::new(n, |i: int| 0u8)
}

pub proof fn lemma_be_bytes_len(n: nat, width: nat)
    ensures
        be_bytes(n, width).len() == width,
    decreases width,
{
    if width > 0 {
        lemma_be_bytes_len(n / 256, (width - 1) as nat);
    }
}

pub proof fn lemma_pow256_positive(w: nat)
    ensures
        pow256(w) > 0,
    decreases w,
{
    if w > 0 {
        lemma_pow256_positive((w - 1) as nat);
    }
}

/// Reading back the bytes of a number that fits gives the number.
pub proof fn lemma_be_round_trip(n: nat, width: nat)
    requires
        n < pow256(width),
    ensures
        be_value(be_bytes(n, width)) == n,
    decreases width,
{
    if width > 0 {
        let w1 = (width - 1) as nat;
        assert(n / 256 < pow256(w1)) by (nonlinear_arith)
            requires
                n < 256 * pow256(w1),
        ;
        lemma_be_round_trip(n / 256, w1);
        let b = be_bytes(n, width);
        assert(b.drop_last() =~= be_bytes(n / 256, w1));
        assert(n == (n / 256) * 256 + n % 256);
    }
}

pub proof fn lemma_be_value_bound(bytes: Seq<u8>)
    ensures
        be_value(bytes) < pow256(bytes.len()),
    decreases bytes.len(),
{
    if bytes.len() > 0 {
        let init = bytes.drop_last();
        lemma_be_value_bound(init);
        let p = pow256(init.len());
        let v = be_value(init);
        let last = bytes.last();
        assert(v * 256 + last < 256 * p) by (nonlinear_arith)
            requires
                v < p,
                last < 256,
        ;
    }
}

pub proof fn lemma_pow256_16()
    ensures
        pow256(16) == 0x1_0000_0000_0000_0000_0000_0000_0000_0000,
{
    reveal_with_fuel(pow256, 17);
}

/// Appends the `width` low bytes of `n`, most significant first.
pub fn write_be(n: u128, width: usize, output: &mut Vec<u8>)
    ensures
        final(output)@ == old(output)@ + be_bytes(n as nat, width as nat),
    decreases width,
{
    if width > 0 {
        write_be(n / 256, width - 1, output);
        output.push((n % 256) as u8);
        assert(final(output)@ =~= old(output)@ + be_bytes(n as nat, width as nat));
    }
}

/// Reads the `width` bytes at `pos` as a number, most significant first.
pub fn read_be(input: &[u8], pos: usize, width: usize) -> (r: u128)
    requires
        pos + width <= input@.len(),
        width <= 16,
    ensures
        r == be_value(input@.subrange(pos as int, pos + width)),
{
    let len = input.len();
    let mut acc: u128 = 0;
    let mut i: usize = 0;
    while i < width
        invariant
            i <= width,
            pos + width <= input@.len(),
            len == input@.len(),
            width <= 16,
            acc == be_value(input@.subrange(pos as int, pos + i)),
        decreases width - i,
    {
        let ghost s = input@.subrange(pos as int, pos + i + 1);
        proof {
            assert(s.drop_last() =~= input@.subrange(pos as int, pos + i));
            lemma_be_value_bound(s);
            lemma_pow256_16();
            pow256_monotone(s.len(), 16);
        }
        acc = acc * 256 + input[pos + i] as u128;
        i = i + 1;
    }
    acc
}

proof fn pow256_monotone(a: nat, b: nat)
    requires
        a <= b,
    ensures
        pow256(a) <= pow256(b),
    decreases b,
{
    if a < b {
        pow256_monotone(a, (b - 1) as nat);
        lemma_pow256_positive((b - 1) as nat);
    }
}

} // verus!
