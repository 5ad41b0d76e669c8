//! A colour and the `UIColor` expression that constructs it.

use crate::text::{
    hundredths_text, push_decimal, push_padded, round_half_even, rounded_quotient,
    thousandths_text,
};
use vstd::arithmetic::power2::{
    lemma2_to64, lemma2_to64_rest, lemma_pow2_adds, lemma_pow2_pos, lemma_pow2_strictly_increases, lemma_pow2_unfold, pow2,
};
use vstd::prelude::*;

verus! {

/// A colour: three 8-bit channels and an alpha.
///
/// The alpha is carried as the bit pattern of an IEEE 754 single-precision
/// number (what `to_bits` gives), so that two colours are equal exactly when
/// all four fields are.
#[derive(Clone, Copy, PartialEq, Eq, Structural, Hash, Debug)]
pub struct Color {
    pub r: u8,
    pub g: u8,
    pub b: u8,
    pub a: u32,
}

/// A channel as a fraction of 255, in thousandths, rounded to the nearest.
pub open spec fn channel_thousandths(v: u8) -> nat {
    round_half_even(1000 * (v as nat), 255)
}

/// A channel as a fraction of 255, written with three decimal places.
pub open spec fn channel_text(v: u8) -> Seq<char> {
    thousandths_text(channel_thousandths(v))
}

/// Whether the sign bit of the single-precision pattern is set.
pub open spec fn alpha_is_negative(bits: u32) -> bool {
    bits >= 0x8000_0000
}

/// The eight exponent bits of the pattern.
pub open spec fn alpha_exponent(bits: u32) -> nat {
    ((bits / 0x80_0000) % 256) as nat
}

/// The twenty-three fraction bits of the pattern.
pub open spec fn alpha_fraction(bits: u32) -> nat {
    (bits % 0x80_0000) as nat
}

/// The integer significand of a finite pattern: the fraction bits, with the
/// implicit leading bit unless the number is subnormal.
pub open spec fn alpha_significand(bits: u32) -> nat {
    if alpha_exponent(bits) == 0 {
        alpha_fraction(bits)
    } else {
        alpha_fraction(bits) + 0x80_0000
    }
}

/// The power of two by which the significand is scaled: the magnitude of a
/// finite pattern is `alpha_significand * 2^alpha_scale`.
pub open spec fn alpha_scale(bits: u32) -> int {
    if alpha_exponent(bits) == 0 {
        -149
    } else {
        alpha_exponent(bits) - 150
    }
}

/// The magnitude of a finite pattern in hundredths, rounded to the nearest
/// integer, a tie going to the even one.
pub open spec fn alpha_hundredths(bits: u32) -> nat {
    if alpha_scale(bits) >= 0 {
        alpha_significand(bits) * pow2(alpha_scale(bits) as nat) * 100
    } else {
        round_half_even(alpha_significand(bits) * 100, pow2((-alpha_scale(bits)) as nat))
    }
}

/// The alpha written with two decimal places: the exact value of the
/// pattern, rounded half to even, with its sign; `NaN`, `inf` and `-inf`
/// for the patterns that are no number.
pub open spec fn alpha_text(bits: u32) -> Seq<char> {
    if alpha_exponent(bits) == 255 {
        if alpha_fraction(bits) != 0 {
            "NaN"@
        } else if alpha_is_negative(bits) {
            "-inf"@
        } else {
            "inf"@
        }
    } else if alpha_is_negative(bits) {
        seq!['-'] + hundredths_text(alpha_hundredths(bits))
    } else {
        hundredths_text(alpha_hundredths(bits))
    }
}

/// The expression that constructs the colour.
pub open spec fn color_text(c: Color) -> Seq<char> {
    "UIColor(red: "@ + channel_text(c.r) + ", green: "@ + channel_text(c.g) + ", blue: "@
        + channel_text(c.b) + ", alpha: "@ + alpha_text(c.a) + ")"@
}

proof fn lemma_pow2_128()
    ensures
        pow2(64) == 0x1_0000_0000_0000_0000,
        pow2(128) == 0x1_0000_0000_0000_0000_0000_0000_0000_0000,
{
    lemma2_to64();
    lemma_pow2_adds(64, 64);
}

fn power_of_two(k: u32) -> (p: u128)
    requires
        k < 128,
    ensures
        p == pow2(k as nat),
{
    let mut p: u128 = 1;
    let mut i: u32 = 0;
    proof {
        lemma2_to64();
    }
    while i < k
        invariant
            i <= k,
            k < 128,
            p == pow2(i as nat),
        decreases k - i,
    {
        proof {
            lemma_pow2_unfold((i + 1) as nat);
            lemma_pow2_128();
            lemma_pow2_strictly_increases(i as nat, 127);
            lemma_pow2_unfold(128);
        }
        p = p * 2;
        i = i + 1;
    }
    p
}

fn push_channel(out: &mut String, v: u8)
    ensures
        final(out)@ == old(out)@ + channel_text(v),
{
    let scaled: u64 = 1000 * (v as u64);
    let t: u64 = rounded_quotient(scaled, 255);
    push_decimal(out, (t / 1000) as u128);
    out.push('.');
    push_padded(out, (t % 1000) as u128, 3);
}

fn push_alpha(out: &mut String, bits: u32)
    ensures
        final(out)@ == old(out)@ + alpha_text(bits),
{
    let negative: bool = bits >= 0x8000_0000;
    let exponent: u32 = (bits / 0x80_0000) % 256;
    let fraction: u32 = bits % 0x80_0000;
    if exponent == 255 {
        if fraction != 0 {
            out.push_str("NaN");
        } else if negative {
            out.push_str("-inf");
        } else {
            out.push_str("inf");
        }
        return ;
    }
    if negative {
        out.push('-');
    }
    let significand: u128 = if exponent == 0 {
        fraction as u128
    } else {
        (fraction + 0x80_0000) as u128
    };
    if exponent >= 150 {
        let factor: u128 = power_of_two(exponent - 150);
        proof {
            lemma_pow2_128();
            lemma2_to64();
            if exponent - 150 < 104 {
                lemma_pow2_strictly_increases((exponent - 150) as nat, 104);
            }
            lemma_pow2_adds(24, 104);
            assert(factor <= pow2(104));
            lemma_pow2_pos(104);
            assert(significand * factor < 0x100_0000 * pow2(104)) by (nonlinear_arith)
                requires
                    significand < 0x100_0000,
                    factor <= pow2(104),
                    pow2(104) > 0,
            ;
        }
        let whole: u128 = significand * factor;
        proof {
            let h = alpha_hundredths(bits);
            assert(h == whole * 100);
            assert(h / 100 == whole && h % 100 == 0) by (nonlinear_arith)
                requires
                    h == whole * 100,
            ;
        }
        push_decimal(out, whole);
        out.push('.');
        push_padded(out, 0, 2);
    } else {
        let shift: u32 = if exponent == 0 {
            149
        } else {
            150 - exponent
        };
        let numerator: u64 = (significand as u64) * 100;
        let h: u64 = if shift >= 62 {
            proof {
                lemma2_to64_rest();
                if shift > 62 {
                    lemma_pow2_strictly_increases(62, shift as nat);
                }
                let d = pow2(shift as nat);
                assert(d >= 0x4000_0000_0000_0000);
                assert(numerator as nat / d == 0 && numerator as nat % d == numerator as nat)
                    by (nonlinear_arith)
                    requires
                        numerator < 0x1_0000_0000,
                        d >= 0x4000_0000_0000_0000,
                ;
            }
            0
        } else {
            let denominator: u128 = power_of_two(shift);
            proof {
                lemma2_to64_rest();
                lemma_pow2_strictly_increases(shift as nat, 62);
                lemma_pow2_pos(shift as nat);
            }
            rounded_quotient(numerator, denominator as u64)
        };
        assert(h == alpha_hundredths(bits));
        push_decimal(out, (h / 100) as u128);
        out.push('.');
        push_padded(out, (h % 100) as u128, 2);
    }
}

impl Color {
    /// The `UIColor` expression for this colour: each channel as a fraction
    /// of 255 with three decimal places, the alpha with two.
    pub fn ui_color_string(&self) -> (out: String)
        ensures
            out@ == color_text(*self),
    {
        let mut out = String::new();
        out.push_str("UIColor(red: ");
        push_channel(&mut out, self.r);
        out.push_str(", green: ");
        push_channel(&mut out, self.g);
        out.push_str(", blue: ");
        push_channel(&mut out, self.b);
        out.push_str(", alpha: ");
        push_alpha(&mut out, self.a);
        out.push_str(")");
        out
    }
}

} // verus!
