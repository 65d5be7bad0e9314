//! ASCII decimal rendering of integers, as used in RESP headers and integer
//! replies.

use vstd::prelude::*;

verus! {

/// The ASCII byte of the decimal digit `d` (`0 <= d < 10`).
pub open spec fn digit_byte(d: nat) -> u8 {
    (48 + d) as u8
}

/// The shortest decimal representation of `n`, most significant digit first
/// (`0` is `"0"`).
pub open spec fn decimal_digits(n: nat) -> Seq<u8>
    decreases n,
{
    if n < 10 {
        seq![digit_byte(n)]
    } else {
        decimal_digits(n / 10).push(digit_byte(n % 10))
    }
}

/// The decimal text of a signed integer: a `-` sign before the digits of the
/// magnitude when it is negative.
pub open spec fn signed_decimal(i: int) -> Seq<u8> {
    if i < 0 {
        seq![45u8] + decimal_digits((-i) as nat)
    } else {
        decimal_digits(i as nat)
    }
}

/// Appends the decimal digits of `n` to `buf`.
pub fn push_decimal(buf: &mut Vec<u8>, n: u64)
    ensures
        final(buf)@ == old(buf)@ + decimal_digits(n as nat),
    decreases n,
{
    if n >= 10 {
        push_decimal(buf, n / 10);
    }
    let d: u8 = (n % 10) as u8;
    buf.push(48u8 + d);
}

/// Appends the decimal text of `n` (with a leading `-` when negative).
pub fn push_signed_decimal(buf: &mut Vec<u8>, n: i64)
    ensures
        final(buf)@ == old(buf)@ + signed_decimal(n as int),
{
    if n < 0 {
        buf.push(45u8);
        let magnitude: u64 = (0i128 - (n as i128)) as u64;
        push_decimal(buf, magnitude);
    } else {
        push_decimal(buf, n as u64);
    }
}

/// Every byte of a decimal rendering is an ASCII digit, and there is at
/// least one.
pub proof fn lemma_decimal_digits_ascii(n: nat)
    ensures
        decimal_digits(n).len() >= 1,
        n < 10 <==> decimal_digits(n).len() == 1,
        forall|i: int|
            0 <= i < decimal_digits(n).len() ==> 48 <= #[trigger] decimal_digits(n)[i] <= 57,
    decreases n,
{
    if n >= 10 {
        lemma_decimal_digits_ascii(n / 10);
    }
}

/// Distinct naturals have distinct decimal renderings.
pub proof fn lemma_decimal_digits_injective(a: nat, b: nat)
    requires
        decimal_digits(a) == decimal_digits(b),
    ensures
        a == b,
    decreases a,
{
    lemma_decimal_digits_ascii(a);
    lemma_decimal_digits_ascii(b);
    if a >= 10 && b >= 10 {
        let da = decimal_digits(a);
        let db = decimal_digits(b);
        assert(da.last() == digit_byte(a % 10));
        assert(db.last() == digit_byte(b % 10));
        assert(da.drop_last() =~= decimal_digits(a / 10));
        assert(db.drop_last() =~= decimal_digits(b / 10));
        lemma_decimal_digits_injective(a / 10, b / 10);
        // Same last digit, same leading part.
        assert(digit_byte(a % 10) == 48 + a % 10);
        assert(digit_byte(b % 10) == 48 + b % 10);
    } else {
        // Both are single digits (a one-digit rendering is never equal to a
        // longer one).
        assert(decimal_digits(a)[0] == digit_byte(a));
        assert(decimal_digits(b)[0] == digit_byte(b));
        assert(digit_byte(a) == 48 + a);
        assert(digit_byte(b) == 48 + b);
    }
}

/// Distinct integers have distinct signed decimal renderings.
pub proof fn lemma_signed_decimal_injective(a: int, b: int)
    requires
        signed_decimal(a) == signed_decimal(b),
    ensures
        a == b,
{
    lemma_decimal_digits_ascii((if a < 0 { -a } else { a }) as nat);
    lemma_decimal_digits_ascii((if b < 0 { -b } else { b }) as nat);
    if a < 0 && b < 0 {
        assert(signed_decimal(a).drop_first() =~= decimal_digits((-a) as nat));
        assert(signed_decimal(b).drop_first() =~= decimal_digits((-b) as nat));
        lemma_decimal_digits_injective((-a) as nat, (-b) as nat);
    } else if a >= 0 && b >= 0 {
        lemma_decimal_digits_injective(a as nat, b as nat);
    } else {
        if a < 0 {
            assert(decimal_digits(b as nat)[0] >= 48);
            assert(signed_decimal(b)[0] == decimal_digits(b as nat)[0]);
        } else {
            assert(decimal_digits(a as nat)[0] >= 48);
            assert(signed_decimal(a)[0] == decimal_digits(a as nat)[0]);
        }
        assert(signed_decimal(a)[0] != signed_decimal(b)[0]);
    }
}

/// The number that a string of ASCII decimal digits denotes, most
/// significant digit first (the empty string denotes `0`).
pub open spec fn digits_value(s: Seq<u8>) -> int
    decreases s.len(),
{
    if s.len() == 0 {
        0
    } else {
        digits_value(s.drop_last()) * 10 + (s.last() - 48)
    }
}

/// The integer that an optionally `-`-signed string of decimal digits
/// denotes.
pub open spec fn signed_digits_value(s: Seq<u8>) -> int {
    if s.len() > 0 && s[0] == 45u8 {
        -digits_value(s.drop_first())
    } else {
        digits_value(s)
    }
}

/// Whether every byte of `s` is an ASCII decimal digit.
pub open spec fn all_digits(s: Seq<u8>) -> bool {
    forall|i: int| 0 <= i < s.len() ==> 48 <= #[trigger] s[i] <= 57
}

/// The decimal rendering of `n` is the standard one: a non-empty string of
/// ASCII digits that reads back as `n`, with no leading zero unless `n` is
/// zero.
pub proof fn lemma_decimal_digits_read_back(n: nat)
    ensures
        decimal_digits(n).len() >= 1,
        all_digits(decimal_digits(n)),
        digits_value(decimal_digits(n)) == n,
        n > 0 ==> decimal_digits(n)[0] != 48u8,
    decreases n,
{
    lemma_decimal_digits_ascii(n);
    if n >= 10 {
        lemma_decimal_digits_read_back(n / 10);
        let d = decimal_digits(n);
        assert(d.drop_last() =~= decimal_digits(n / 10));
        assert(d.last() == digit_byte(n % 10));
        assert(digit_byte(n % 10) == 48 + n % 10);
        assert(d[0] == decimal_digits(n / 10)[0]);
        assert(digits_value(d) == digits_value(d.drop_last()) * 10 + (d.last() - 48));
        assert(digits_value(d) == (n / 10) * 10 + n % 10);
    } else {
        let d = decimal_digits(n);
        assert(d.drop_last() =~= Seq::<u8>::empty());
        assert(digit_byte(n) == 48 + n);
        assert(d.last() == digit_byte(n));
        assert(digits_value(d.drop_last()) == 0);
        assert(digits_value(d) == digits_value(d.drop_last()) * 10 + (d.last() - 48));
    }
}

/// The signed decimal rendering of `i` is the standard one: a `-` exactly
/// when `i` is negative, then the digits of its magnitude; it reads back as
/// `i`.
pub proof fn lemma_signed_decimal_read_back(i: int)
    ensures
        signed_digits_value(signed_decimal(i)) == i,
        (signed_decimal(i)[0] == 45u8) == (i < 0),
        i < 0 ==> all_digits(signed_decimal(i).drop_first()),
        i >= 0 ==> all_digits(signed_decimal(i)),
{
    if i < 0 {
        lemma_decimal_digits_read_back((-i) as nat);
        assert(signed_decimal(i).drop_first() =~= decimal_digits((-i) as nat));
    } else {
        lemma_decimal_digits_read_back(i as nat);
        assert(decimal_digits(i as nat)[0] >= 48);
    }
}

} // verus!
