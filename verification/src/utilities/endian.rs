//! Little-endian encoding of unsigned integers.

use vstd::arithmetic::div_mod::{lemma_div_denominator, lemma_fundamental_div_mod};
use vstd::prelude::*;

verus! {

/// `256^n`.
pub open spec fn pow256(n: nat) -> nat
    decreases n,
{
    if n == 0 {
        1
    } else {
        256 * pow256((n - 1) as nat)
    }
}

/// The `n` low bytes of `x`, least significant first.
pub open spec fn le_bytes(x: nat, n: nat) -> Seq<u8> {
    Seq::new(n, |i: int| ((x / pow256(i as nat)) % 256) as u8)
}

/// The number that `s` encodes, least significant byte first.
pub open spec fn le_value(s: Seq<u8>) -> nat
    decreases s.len(),
{
    if s.len() == 0 {
        0
    } else {
        s[0] as nat + 256 * le_value(s.drop_first())
    }
}

pub proof fn lemma_pow256_pos(n: nat)
    ensures
        pow256(n) > 0,
    decreases n,
{
    if n > 0 {
        lemma_pow256_pos((n - 1) as nat);
    }
}

/// The values of the powers that fixed-width integers need.
pub proof fn lemma_pow256_values()
    ensures
        pow256(0) == 1,
        pow256(1) == 0x100,
        pow256(2) == 0x1_0000,
        pow256(3) == 0x100_0000,
        pow256(4) == 0x1_0000_0000,
        pow256(8) == 0x1_0000_0000_0000_0000,
{
    reveal_with_fuel(pow256, 9);
}

/// Dropping the lowest byte divides the number by 256.
pub proof fn lemma_le_bytes_drop_first(x: nat, n: nat)
    requires
        n > 0,
    ensures
        le_bytes(x, n).drop_first() == le_bytes(x / 256, (n - 1) as nat),
        le_bytes(x, n)[0] == (x % 256) as u8,
{
    let a = le_bytes(x, n).drop_first();
    let b = le_bytes(x / 256, (n - 1) as nat);
    assert(pow256(0) == 1);
    assert(le_bytes(x, n)[0] == ((x / pow256(0)) % 256) as u8);
    assert forall|i: int| 0 <= i < n - 1 implies a[i] == b[i] by {
        lemma_pow256_pos(i as nat);
        lemma_div_denominator(x as int, 256, pow256(i as nat) as int);
        assert(pow256((i + 1) as nat) == 256 * pow256(i as nat));
    }
    assert(a =~= b);
}

/// Decoding what was encoded gives the number back, if it fits.
pub proof fn lemma_le_value_of_le_bytes(x: nat, n: nat)
    requires
        x < pow256(n),
    ensures
        le_value(le_bytes(x, n)) == x,
    decreases n,
{
    if n > 0 {
        lemma_le_bytes_drop_first(x, n);
        lemma_fundamental_div_mod(x as int, 256);
        assert(x / 256 < pow256((n - 1) as nat)) by (nonlinear_arith)
            requires
                x < 256 * pow256((n - 1) as nat),
        ;
        lemma_le_value_of_le_bytes(x / 256, (n - 1) as nat);
    }
}

/// What a byte string decodes to fits its width, and encodes back to it.
pub proof fn lemma_le_bytes_of_le_value(s: Seq<u8>)
    ensures
        le_value(s) < pow256(s.len()),
        le_bytes(le_value(s), s.len()) == s,
    decreases s.len(),
{
    if s.len() > 0 {
        let rest = s.drop_first();
        lemma_le_bytes_of_le_value(rest);
        let v = le_value(s);
        assert(v / 256 == le_value(rest) && v % 256 == s[0] as nat) by (nonlinear_arith)
            requires
                v == s[0] as nat + 256 * le_value(rest),
                s[0] as nat <= 255,
        ;
        lemma_le_bytes_drop_first(v, s.len());
        assert(le_bytes(v, s.len()) =~= seq![s[0]] + le_bytes(v, s.len()).drop_first());
        assert(s =~= seq![s[0]] + rest);
    }
}

/// Bytes past the width of the number are zero.
pub proof fn lemma_le_bytes_high_zero(x: nat, n: nat, i: int)
    requires
        0 <= i,
        x < pow256(i as nat),
    ensures
        (x / pow256(i as nat)) % 256 == 0,
{
    lemma_pow256_pos(i as nat);
    vstd::arithmetic::div_mod::lemma_basic_div(x as int, pow256(i as nat) as int);
}

/// Appends the `width` low bytes of `value` to `out`.
pub fn push_le(out: &mut Vec<u8>, value: u64, width: usize)
    requires
        width <= 8,
    ensures
        final(out)@ == old(out)@ + le_bytes(value as nat, width as nat),
{
    let mut rest: u64 = value;
    let mut i: usize = 0;
    proof {
        assert(pow256(0) == 1);
        assert(out@ =~= old(out)@ + le_bytes(value as nat, 0));
    }
    while i < width
        invariant
            i <= width <= 8,
            rest == value as nat / pow256(i as nat),
            out@ == old(out)@ + le_bytes(value as nat, i as nat),
        decreases width - i,
    {
        proof {
            lemma_pow256_pos(i as nat);
            lemma_div_denominator(value as int, pow256(i as nat) as int, 256);
            assert(pow256((i + 1) as nat) == pow256(i as nat) * 256);
        }
        out.push((rest % 256) as u8);
        proof {
            assert(out@ =~= old(out)@ + le_bytes(value as nat, (i + 1) as nat));
        }
        rest = rest / 256;
        i = i + 1;
    }
}

/// Reads the number that the `width` bytes of `data` from `start` encode.
pub fn read_le(data: &[u8], start: usize, width: usize) -> (value: u64)
    requires
        width <= 8,
        start + width <= data@.len(),
    ensures
        value == le_value(data@.subrange(start as int, start + width)),
        value < pow256(width as nat),
{
    let mut value: u64 = 0;
    let mut i: usize = width;
    let total = data.len();
    let ghost whole = data@.subrange(start as int, start + width);
    proof {
        assert(whole.skip(width as int) =~= Seq::<u8>::empty());
    }
    while i > 0
        invariant
            i <= width <= 8,
            start + width <= total,
            total == data@.len(),
            whole == data@.subrange(start as int, start + width),
            value == le_value(whole.skip(i as int)),
            value < pow256((width - i) as nat),
        decreases i,
    {
        i = i - 1;
        let byte = data[start + i];
        proof {
            let tail = whole.skip(i as int);
            assert(tail.drop_first() =~= whole.skip(i + 1));
            assert(tail[0] == byte);
            lemma_pow256_values();
            lemma_pow256_bound((width - i - 1) as nat, 7);
            assert(pow256((width - i) as nat) == 256 * pow256((width - i - 1) as nat));
        }
        value = value * 256 + byte as u64;
    }
    proof {
        assert(whole.skip(0) =~= whole);
    }
    value
}

/// Powers of 256 grow with the exponent.
pub proof fn lemma_pow256_bound(a: nat, b: nat)
    requires
        a <= b,
    ensures
        pow256(a) <= pow256(b),
    decreases b,
{
    if a < b {
        lemma_pow256_bound(a, (b - 1) as nat);
    }
}

} // verus!
