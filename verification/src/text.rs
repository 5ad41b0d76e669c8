//! Building text: the specifications of the `String` operations the library
//! appends with, and the decimal notations of natural numbers.

use vstd::arithmetic::div_mod::lemma_fundamental_div_mod;
use vstd::prelude::*;

verus! {

/// `String::push` appends one character: the text afterwards is the text
/// before, followed by `c`. Stated here, not proved.
pub assume_specification[ String::push ](s: &mut String, c: char)
    ensures
        final(s)@ == old(s)@.push(c),
;

/// `String::push_str` appends a string slice: the text afterwards is the text
/// before, followed by the characters of `string`. Stated here, not proved.
pub assume_specification[ String::push_str ](s: &mut String, string: &str)
    ensures
        final(s)@ == old(s)@ + string@,
;

/// The character that writes the digit `d`.
pub open spec fn digit_char(d: nat) -> char {
    if d == 0 {
        '0'
    } else if d == 1 {
        '1'
    } else if d == 2 {
        '2'
    } else if d == 3 {
        '3'
    } else if d == 4 {
        '4'
    } else if d == 5 {
        '5'
    } else if d == 6 {
        '6'
    } else if d == 7 {
        '7'
    } else if d == 8 {
        '8'
    } else {
        '9'
    }
}

/// The decimal notation of `n`, without leading zeros (`0` is written "0").
pub open spec fn decimal(n: nat) -> Seq<char>
    decreases n,
{
    if n < 10 {
        seq![digit_char(n)]
    } else {
        decimal(n / 10).push(digit_char(n % 10))
    }
}

/// The last `width` decimal digits of `n`, with leading zeros kept.
pub open spec fn padded(n: nat, width: nat) -> Seq<char>
    decreases width,
{
    if width == 0 {
        Seq::empty()
    } else {
        padded(n / 10, (width - 1) as nat).push(digit_char(n % 10))
    }
}

/// A number in fixed-point notation: the whole part, a point, and the
/// fractional part written with exactly `places` digits.
pub open spec fn point_text(whole: nat, fraction: nat, places: nat) -> Seq<char> {
    decimal(whole) + seq!['.'] + padded(fraction, places)
}

/// `scaled / 100` written with two decimal places.
pub open spec fn hundredths_text(scaled: nat) -> Seq<char> {
    point_text(scaled / 100, scaled % 100, 2)
}

/// `scaled / 1000` written with three decimal places.
pub open spec fn thousandths_text(scaled: nat) -> Seq<char> {
    point_text(scaled / 1000, scaled % 1000, 3)
}

/// The quotient `numerator / denominator` rounded to the nearest integer,
/// a tie going to the even neighbour.
pub open spec fn round_half_even(numerator: nat, denominator: nat) -> nat
    recommends
        denominator > 0,
{
    let quotient = numerator / denominator;
    let rest = numerator % denominator;
    if 2 * rest < denominator {
        quotient
    } else if 2 * rest > denominator {
        quotient + 1
    } else if quotient % 2 == 0 {
        quotient
    } else {
        quotient + 1
    }
}

/// The character for one digit.
fn digit(d: u8) -> (c: char)
    requires
        d < 10,
    ensures
        c == digit_char(d as nat),
{
    if d == 0 {
        '0'
    } else if d == 1 {
        '1'
    } else if d == 2 {
        '2'
    } else if d == 3 {
        '3'
    } else if d == 4 {
        '4'
    } else if d == 5 {
        '5'
    } else if d == 6 {
        '6'
    } else if d == 7 {
        '7'
    } else if d == 8 {
        '8'
    } else {
        '9'
    }
}

/// Appends the decimal notation of `n`.
pub fn push_decimal(out: &mut String, n: u128)
    ensures
        final(out)@ == old(out)@ + decimal(n as nat),
    decreases n,
{
    if n >= 10 {
        push_decimal(out, n / 10);
    }
    let last: u8 = (n % 10) as u8;
    out.push(digit(last));
}

/// Appends the last `width` decimal digits of `n`, leading zeros included.
pub(crate) fn push_padded(out: &mut String, n: u128, width: u8)
    ensures
        final(out)@ == old(out)@ + padded(n as nat, width as nat),
    decreases width,
{
    if width > 0 {
        push_padded(out, n / 10, width - 1);
        let last: u8 = (n % 10) as u8;
        out.push(digit(last));
    }
}

/// Rounds `numerator / denominator` to the nearest integer, ties to even.
pub fn rounded_quotient(numerator: u64, denominator: u64) -> (q: u64)
    requires
        denominator > 0,
    ensures
        q == round_half_even(numerator as nat, denominator as nat),
{
    let quotient: u64 = numerator / denominator;
    let rest: u64 = numerator % denominator;
    let twice: u128 = 2 * (rest as u128);
    let whole: u128 = denominator as u128;
    if twice < whole {
        quotient
    } else if twice == whole && quotient % 2 == 0 {
        quotient
    } else {
        proof {
            lemma_fundamental_div_mod(numerator as int, denominator as int);
            assert(quotient < u64::MAX) by (nonlinear_arith)
                requires
                    numerator == denominator * quotient + rest,
                    2 * rest >= denominator,
                    rest < denominator,
                    numerator <= u64::MAX,
            ;
        }
        quotient + 1
    }
}

} // verus!
