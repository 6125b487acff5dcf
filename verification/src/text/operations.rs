//! What writing numbers out as text does, stated of the arguments and results.
use crate::text::{decimal, digit, hexadecimal, push_decimal, push_digit, push_hexadecimal};
use vstd::arithmetic::div_mod::lemma_div_denominator;
use vstd::arithmetic::power::{lemma_pow0, lemma_pow1, lemma_pow_positive, pow};
use vstd::prelude::*;

verus! {

/// Whether `c` is the digit of value `d` as it is written: `0` to `9`, then `a` to `f`.
pub open spec fn is_digit(c: char, d: int) -> bool {
    c as int == if d < 10 {
        0x30 + d
    } else {
        0x57 + d
    }
}

/// A digit is appended as one character.
pub proof fn digit_is_appended(text: &mut String, d: u8)
    requires
        d < 16,
        call_ensures(push_digit, (text, d), ()),
    ensures
        final(text)@.len() == old(text)@.len() + 1,
        final(text)@.drop_last() == old(text)@,
        is_digit(final(text)@.last(), d as int),
{
    lemma_digit_character(d as nat);
}

/// A number is appended as its decimal numeral: each character is the digit of its place, there is
/// at least one, and no zero leads a longer numeral.
pub proof fn decimal_numeral_is_appended(text: &mut String, n: u64)
    requires
        call_ensures(push_decimal, (text, n), ()),
    ensures
        ({
            let start = old(text)@.len();
            let len = (final(text)@.len() - start) as nat;
            &&& len >= 1
            &&& final(text)@.take(start as int) == old(text)@
            &&& n < pow(10, len)
            &&& len > 1 ==> n >= pow(10, (len - 1) as nat)
            &&& forall|i: int|
                0 <= i < len ==> is_digit(
                    #[trigger] final(text)@[start + i],
                    n as int / pow(10, (len - 1 - i) as nat) % 10,
                )
        }),
{
    let start = old(text)@.len();
    let len = (final(text)@.len() - start) as nat;
    lemma_decimal_length(n as nat);
    assert forall|i: int| 0 <= i < len implies is_digit(
        #[trigger] final(text)@[start + i],
        n as int / pow(10, (len - 1 - i) as nat) % 10,
    ) by {
        lemma_decimal_digit(n as nat, i);
    }
}

/// A number is appended as so many hexadecimal digits, each that of its place.
pub proof fn hexadecimal_numeral_is_appended(text: &mut String, n: u64, width: usize)
    requires
        call_ensures(push_hexadecimal, (text, n, width), ()),
    ensures
        final(text)@.len() == old(text)@.len() + width,
        final(text)@.take(old(text)@.len() as int) == old(text)@,
        forall|i: int|
            0 <= i < width ==> is_digit(
                #[trigger] final(text)@[old(text)@.len() + i],
                n as int / pow(16, (width - 1 - i) as nat) % 16,
            ),
{
    lemma_hexadecimal_length(n as nat, width as nat);
    assert forall|i: int| 0 <= i < width implies is_digit(
        #[trigger] final(text)@[old(text)@.len() + i],
        n as int / pow(16, (width - 1 - i) as nat) % 16,
    ) by {
        lemma_hexadecimal_digit(n as nat, width as nat, i);
    }
}

/// The character of a digit.
proof fn lemma_digit_character(d: nat)
    requires
        d < 16,
    ensures
        is_digit(digit(d), d as int),
{
    reveal_strlit("0123456789abcdef");
}

/// The length of a decimal numeral.
proof fn lemma_decimal_length(n: nat)
    ensures
        decimal(n).len() >= 1,
        n < pow(10, decimal(n).len()),
        decimal(n).len() > 1 ==> n >= pow(10, (decimal(n).len() - 1) as nat),
    decreases n,
{
    lemma_pow1(10);
    lemma_pow0(10);
    if n >= 10 {
        lemma_decimal_length(n / 10);
        let len = decimal(n / 10).len();
        reveal(pow);
        assert(pow(10, len + 1) == 10 * pow(10, len));
        assert(pow(10, len) == 10 * pow(10, (len - 1) as nat));
    }
}

/// The digits of a decimal numeral.
proof fn lemma_decimal_digit(n: nat, i: int)
    requires
        0 <= i < decimal(n).len(),
    ensures
        is_digit(decimal(n)[i], n as int / pow(10, (decimal(n).len() - 1 - i) as nat) % 10),
    decreases n,
{
    let last = decimal(n).len() - 1;
    lemma_pow0(10);
    lemma_digit_character(n % 10);
    if i < last {
        lemma_decimal_digit(n / 10, i);
        let e = (last - 1 - i) as nat;
        lemma_pow_positive(10, e);
        lemma_div_denominator(n as int, 10, pow(10, e));
        reveal(pow);
        assert(pow(10, (last - i) as nat) == 10 * pow(10, e));
    }
}

/// The length of a hexadecimal numeral.
proof fn lemma_hexadecimal_length(n: nat, width: nat)
    ensures
        hexadecimal(n, width).len() == width,
    decreases width,
{
    if width > 0 {
        lemma_hexadecimal_length(n / 16, (width - 1) as nat);
    }
}

/// The digits of a hexadecimal numeral.
proof fn lemma_hexadecimal_digit(n: nat, width: nat, i: int)
    requires
        0 <= i < width,
    ensures
        is_digit(hexadecimal(n, width)[i], n as int / pow(16, (width - 1 - i) as nat) % 16),
    decreases width,
{
    let last = (width - 1) as nat;
    lemma_hexadecimal_length(n / 16, last);
    lemma_pow0(16);
    lemma_digit_character(n % 16);
    if i < last {
        lemma_hexadecimal_digit(n / 16, last, i);
        let e = (last - 1 - i) as nat;
        lemma_pow_positive(16, e);
        lemma_div_denominator(n as int, 16, pow(16, e));
        reveal(pow);
        assert(pow(16, (last - i) as nat) == 16 * pow(16, e));
    }
}

} // verus!
