//! Little-endian encoding of the integers that records are made of.
use vstd::arithmetic::div_mod::{lemma_breakdown, lemma_div_denominator, lemma_small_mod};
use vstd::prelude::*;

verus! {

/// 256 to the power `k`.
pub open spec fn pow256(k: nat) -> nat
    decreases k,
{
    if k == 0 {
        1
    } else {
        256 * pow256((k - 1) as nat)
    }
}

/// Byte `k` of `value`, counted from the least significant one.
pub open spec fn le_byte(value: nat, k: nat) -> u8 {
    ((value / pow256(k)) % 256) as u8
}

/// The lowest `width` bytes of `value`, least significant first.
pub open spec fn le_bytes(value: nat, width: nat) -> Seq<u8> {
    Seq::new(width, |k: int| le_byte(value, k as nat))
}

/// The value that a little-endian byte sequence stands for.
pub open spec fn le_value(bytes: Seq<u8>) -> nat
    decreases bytes.len(),
{
    if bytes.len() == 0 {
        0
    } else {
        bytes[0] as nat + 256 * le_value(bytes.drop_first())
    }
}

proof fn lemma_pow256_positive(k: nat)
    ensures
        pow256(k) > 0,
    decreases k,
{
    if k > 0 {
        lemma_pow256_positive((k - 1) as nat);
    }
}

proof fn lemma_pow256_monotonic(a: nat, b: nat)
    requires
        a <= b,
    ensures
        pow256(a) <= pow256(b),
    decreases b,
{
    lemma_pow256_positive(a);
    if a < b {
        lemma_pow256_monotonic(a, (b - 1) as nat);
    }
}

/// 256 to the power 4 and to the power 8, written out.
pub proof fn lemma_pow256_words()
    ensures
        pow256(4) == 0x1_0000_0000,
        pow256(8) == 0x1_0000_0000_0000_0000,
{
    reveal_with_fuel(pow256, 9);
}

/// Byte `k + 1` of a value is byte `k` of the value divided by 256.
proof fn lemma_le_byte_shift(value: nat, k: nat)
    ensures
        le_byte(value, k + 1) == le_byte(value / 256, k),
{
    lemma_pow256_positive(k);
    lemma_div_denominator(value as int, 256, pow256(k) as int);
    assert(pow256(k + 1) == 256 * pow256(k));
}

/// Dropping the lowest byte of a value's encoding gives the encoding of the
/// value divided by 256.
proof fn lemma_le_bytes_shift(value: nat, width: nat)
    requires
        width > 0,
    ensures
        le_bytes(value, width).drop_first() == le_bytes(value / 256, (width - 1) as nat),
{
    let dropped = le_bytes(value, width).drop_first();
    let shifted = le_bytes(value / 256, (width - 1) as nat);
    assert forall|k: int| 0 <= k < width - 1 implies #[trigger] dropped[k] == shifted[k] by {
        lemma_le_byte_shift(value, k as nat);
    }
    assert(dropped =~= shifted);
}

/// A byte sequence stands for a value below 256 to the power of its length.
pub proof fn lemma_le_value_bound(bytes: Seq<u8>)
    ensures
        le_value(bytes) < pow256(bytes.len()),
    decreases bytes.len(),
{
    if bytes.len() > 0 {
        lemma_le_value_bound(bytes.drop_first());
    }
}

/// Decoding what was encoded gives the value back, as far as it fits into
/// the width.
pub proof fn lemma_le_round_trip(value: nat, width: nat)
    ensures
        le_value(le_bytes(value, width)) == value % pow256(width),
    decreases width,
{
    if width > 0 {
        let rest = (width - 1) as nat;
        lemma_le_bytes_shift(value, width);
        lemma_le_round_trip(value / 256, rest);
        lemma_pow256_positive(rest);
        assert(pow256(0) == 1);
        assert(le_bytes(value, width)[0] == le_byte(value, 0));
        lemma_breakdown(value as int, 256, pow256(rest) as int);
    } else {
        assert(value % 1 == 0);
    }
}

/// A value that fits into `width` bytes is decoded from its encoding
/// unchanged.
pub proof fn lemma_le_round_trip_exact(value: nat, width: nat)
    requires
        value < pow256(width),
    ensures
        le_value(le_bytes(value, width)) == value,
{
    lemma_le_round_trip(value, width);
    lemma_small_mod(value, pow256(width));
}

/// Appends the lowest `width` bytes of `value` to `out`, least significant
/// first.
pub fn push_le(out: &mut Vec<u8>, value: u64, width: usize)
    ensures
        final(out)@ == old(out)@ + le_bytes(value as nat, width as nat),
{
    let mut rest = value;
    let mut k: usize = 0;
    assert(pow256(0) == 1);
    assert(out@ =~= old(out)@ + le_bytes(value as nat, 0));
    while k < width
        invariant
            k <= width,
            rest == value as nat / pow256(k as nat),
            out@ == old(out)@ + le_bytes(value as nat, k as nat),
        decreases width - k,
    {
        out.push((rest % 256) as u8);
        proof {
            lemma_pow256_positive(k as nat);
            lemma_div_denominator(value as int, pow256(k as nat) as int, 256);
            assert(pow256((k + 1) as nat) == 256 * pow256(k as nat));
            assert(pow256(k as nat) * 256 == 256 * pow256(k as nat)) by (nonlinear_arith);
            assert(out@ =~= old(out)@ + le_bytes(value as nat, (k + 1) as nat));
        }
        rest = rest / 256;
        k += 1;
    }
}

/// Reads the value that `bytes` stand for, least significant byte first, if
/// they are few enough for the value to fit.
pub fn read_le(bytes: &[u8]) -> (value: Option<u64>)
    ensures
        value == if bytes@.len() <= 8 {
            Some(le_value(bytes@) as u64)
        } else {
            None::<u64>
        },
        bytes@.len() <= 8 ==> le_value(bytes@) <= u64::MAX,
{
    let width = bytes.len();
    if width > 8 {
        return None;
    }
    let mut value: u64 = 0;
    let mut k: usize = width;
    proof {
        assert(pow256(0) == 1);
        assert(bytes@.subrange(width as int, width as int) =~= Seq::<u8>::empty());
    }
    while k > 0
        invariant
            k <= width <= 8,
            width == bytes@.len(),
            value == le_value(bytes@.subrange(k as int, width as int)),
            value < pow256((width - k) as nat),
        decreases k,
    {
        k -= 1;
        proof {
            let tail = bytes@.subrange(k as int, width as int);
            assert(tail.drop_first() =~= bytes@.subrange(k + 1, width as int));
            lemma_le_value_bound(tail);
            lemma_pow256_monotonic((width - k) as nat, 8);
            lemma_pow256_words();
        }
        value = value * 256 + bytes[k] as u64;
    }
    proof {
        assert(bytes@.subrange(0, width as int) =~= bytes@);
        lemma_pow256_monotonic(width as nat, 8);
        lemma_pow256_words();
    }
    Some(value)
}

} // verus!
