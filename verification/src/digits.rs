//! Numbers written out as ASCII digits.

use vstd::prelude::*;

verus! {

/// The decimal digits of `n`, most significant first.
pub open spec fn decimal(n: nat) -> Seq<u8>
    decreases n,
{
    if n < 10 {
        seq![(48 + n) as u8]
    } else {
        decimal(n / 10).push((48 + n % 10) as u8)
    }
}

/// A signed number in decimal, with a leading `-` when negative.
pub open spec fn signed_decimal(x: int) -> Seq<u8> {
    if x < 0 {
        seq![45u8] + decimal((-x) as nat)
    } else {
        decimal(x as nat)
    }
}

/// The digit of `d` (0..16) in lower case (`upper` false) or upper case.
pub open spec fn hex_digit(d: int, upper: bool) -> u8 {
    if d < 10 {
        (48 + d) as u8
    } else if upper {
        (55 + d) as u8
    } else {
        (87 + d) as u8
    }
}

/// A byte as two hex digits.
pub open spec fn hex2(c: u8, upper: bool) -> Seq<u8> {
    seq![hex_digit((c / 16) as int, upper), hex_digit((c % 16) as int, upper)]
}

/// A byte as three octal digits.
pub open spec fn octal3(c: u8) -> Seq<u8> {
    seq![(48 + c / 64) as u8, (48 + (c / 8) % 8) as u8, (48 + c % 8) as u8]
}

/// Appends the decimal digits of `n`.
pub fn push_decimal(out: &mut Vec<u8>, n: u64)
    ensures
        final(out)@ == old(out)@ + decimal(n as nat),
    decreases n,
{
    if n >= 10 {
        push_decimal(out, n / 10);
    }
    let d: u64 = n % 10;
    out.push(48u8 + d as u8);
    assert(final(out)@ =~= old(out)@ + decimal(n as nat));
}

/// Appends a signed number in decimal.
pub fn push_signed(out: &mut Vec<u8>, x: i64)
    ensures
        final(out)@ == old(out)@ + signed_decimal(x as int),
{
    if x < 0 {
        out.push(45u8);
        let y: i64 = x + 1;
        let mag: u64 = (0i64 - y) as u64 + 1;
        push_decimal(out, mag);
        assert(final(out)@ =~= old(out)@ + signed_decimal(x as int));
    } else {
        push_decimal(out, x as u64);
    }
}

fn hex_char(d: u8, upper: bool) -> (c: u8)
    requires
        d < 16,
    ensures
        c == hex_digit(d as int, upper),
{
    if d < 10 {
        48u8 + d
    } else if upper {
        55u8 + d
    } else {
        87u8 + d
    }
}

/// Appends a byte as two hex digits.
pub fn push_hex2(out: &mut Vec<u8>, c: u8, upper: bool)
    ensures
        final(out)@ == old(out)@ + hex2(c, upper),
{
    out.push(hex_char(c / 16, upper));
    out.push(hex_char(c % 16, upper));
    assert(final(out)@ =~= old(out)@ + hex2(c, upper));
}

/// Appends a byte as three octal digits.
pub fn push_octal3(out: &mut Vec<u8>, c: u8)
    ensures
        final(out)@ == old(out)@ + octal3(c),
{
    out.push(48u8 + c / 64);
    out.push(48u8 + (c / 8) % 8);
    out.push(48u8 + c % 8);
    assert(final(out)@ =~= old(out)@ + octal3(c));
}

} // verus!
