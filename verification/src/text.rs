//! Byte text: numbers written out in binary and decimal digits, and the few
//! operations on byte vectors that the rest of the crate builds its text with.

use vstd::prelude::*;
use vstd::slice::slice_index_get;

verus! {

/// The ASCII digit for `d`, which is meant to be below ten.
pub open spec fn digit(d: nat) -> u8 {
    (48 + d % 10) as u8
}

/// `value` in binary digits, most significant first, padded with zeros on the
/// left to `width` digits. A value that needs more than `width` digits gets
/// as many as it needs.
pub open spec fn binary(value: nat, width: nat) -> Seq<u8>
    decreases value, width,
{
    if value < 2 && width <= 1 {
        seq![digit(value)]
    } else {
        binary(value / 2, less_one(width)).push(digit(value % 2))
    }
}

/// `n - 1`, and 0 where `n` is 0.
pub open spec fn less_one(n: nat) -> nat {
    if n == 0 {
        0
    } else {
        (n - 1) as nat
    }
}

/// `value` in decimal digits, most significant first, without leading zeros.
pub open spec fn decimal(value: nat) -> Seq<u8>
    decreases value,
{
    if value < 10 {
        seq![digit(value)]
    } else {
        decimal(value / 10).push(digit(value % 10))
    }
}

/// Two to the power `n`.
pub open spec fn pow2(n: nat) -> nat
    decreases n,
{
    if n == 0 {
        1
    } else {
        2 * pow2((n - 1) as nat)
    }
}

/// `count` copies of `byte`.
pub open spec fn repeat(byte: u8, count: nat) -> Seq<u8> {
    Seq::new(count, |i: int| byte)
}

/// A value that fits in `width` binary digits is written in exactly `width`
/// digits, each of them `0` or `1`.
pub proof fn lemma_binary_fits(value: nat, width: nat)
    requires
        width >= 1,
        value < pow2(width),
    ensures
        binary(value, width).len() == width,
        forall|i: int|
            0 <= i < width ==> binary(value, width)[i] == 48 || binary(value, width)[i] == 49,
    decreases width,
{
    if value < 2 && width <= 1 {
    } else {
        if width == 1 {
            assert(pow2(1) == 2 * pow2(0));
        } else {
            lemma_binary_fits(value / 2, (width - 1) as nat);
        }
    }
}

/// Binary digits are `0` and `1`, whatever the width.
pub proof fn lemma_binary_digits(value: nat, width: nat)
    ensures
        binary(value, width).len() >= 1,
        binary(value, width).len() >= width,
        forall|i: int|
            0 <= i < binary(value, width).len() ==> binary(value, width)[i] == 48 || binary(
                value,
                width,
            )[i] == 49,
    decreases value, width,
{
    if value < 2 && width <= 1 {
    } else {
        lemma_binary_digits(value / 2, less_one(width));
    }
}

/// Appends `value` in binary, at least `width` digits wide.
pub fn push_binary(out: &mut Vec<u8>, value: u16, width: usize)
    ensures
        final(out)@ == old(out)@ + binary(value as nat, width as nat),
    decreases value, width,
{
    if value < 2 && width <= 1 {
        out.push(48 + (value as u8));
        assert(final(out)@ =~= old(out)@ + binary(value as nat, width as nat));
    } else {
        let rest: usize = if width == 0 { 0 } else { width - 1 };
        push_binary(out, value / 2, rest);
        out.push(48 + ((value % 2) as u8));
        assert(final(out)@ =~= old(out)@ + binary(value as nat, width as nat));
    }
}

/// Appends `value` in decimal.
pub fn push_decimal(out: &mut Vec<u8>, value: u128)
    ensures
        final(out)@ == old(out)@ + decimal(value as nat),
    decreases value,
{
    if value < 10 {
        out.push(48 + (value as u8));
        assert(final(out)@ =~= old(out)@ + decimal(value as nat));
    } else {
        push_decimal(out, value / 10);
        out.push(48 + ((value % 10) as u8));
        assert(final(out)@ =~= old(out)@ + decimal(value as nat));
    }
}

/// Appends the bytes of `more`.
pub fn push_all(out: &mut Vec<u8>, more: &[u8])
    ensures
        final(out)@ == old(out)@ + more@,
{
    let mut i: usize = 0;
    while i < more.len()
        invariant
            i <= more@.len(),
            out@ == old(out)@ + more@.take(i as int),
        decreases more@.len() - i,
    {
        out.push(*slice_index_get(more, i));
        i = i + 1;
        assert(out@ =~= old(out)@ + more@.take(i as int));
    }
    assert(more@.take(i as int) =~= more@);
}

/// Appends `count` copies of `byte`.
pub fn push_repeat(out: &mut Vec<u8>, byte: u8, count: usize)
    ensures
        final(out)@ == old(out)@ + repeat(byte, count as nat),
{
    let mut i: usize = 0;
    while i < count
        invariant
            i <= count,
            out@ == old(out)@ + repeat(byte, i as nat),
        decreases count - i,
    {
        out.push(byte);
        i = i + 1;
        assert(out@ =~= old(out)@ + repeat(byte, i as nat));
    }
}

/// Whether two byte strings are the same.
pub fn same_bytes(a: &[u8], b: &[u8]) -> (r: bool)
    ensures
        r == (a@ == b@),
{
    if a.len() != b.len() {
        return false;
    }
    let mut i: usize = 0;
    while i < a.len()
        invariant
            i <= a@.len(),
            a@.len() == b@.len(),
            a@.take(i as int) == b@.take(i as int),
        decreases a@.len() - i,
    {
        if *slice_index_get(a, i) != *slice_index_get(b, i) {
            assert(a@[i as int] != b@[i as int]);
            return false;
        }
        i = i + 1;
        assert(a@.take(i as int) =~= a@.take(i - 1).push(a@[i - 1]));
        assert(b@.take(i as int) =~= b@.take(i - 1).push(b@[i - 1]));
    }
    assert(a@.take(i as int) =~= a@);
    assert(b@.take(i as int) =~= b@);
    true
}

} // verus!
