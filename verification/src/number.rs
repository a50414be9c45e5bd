//! Numbers held as 64-bit floats: which of them are whole.
//!
//! A float is read from its IEEE 754 bit pattern, by integer arithmetic on
//! the sign, the exponent and the fraction that the pattern holds.

use vstd::arithmetic::power2::{lemma2_to64, lemma_pow2_pos, lemma_pow2_strictly_increases, pow2};
use vstd::bits::{lemma_u64_pow2_no_overflow, lemma_u64_shl_is_mul};
use vstd::prelude::*;

verus! {

/// Two to the power 52: the weight of the leading bit of a significand.
pub const LEADING_BIT: u64 = 0x10_0000_0000_0000;

/// Two to the power 63: the sign bit of a pattern.
pub const SIGN_BIT: u64 = 0x8000_0000_0000_0000;

/// Whether the pattern is that of a number below zero, or of minus zero.
pub open spec fn float_is_negative(bits: u64) -> bool {
    bits >= SIGN_BIT
}

/// The exponent field of the pattern: eleven bits, biased by 1023.
pub open spec fn float_exponent(bits: u64) -> int {
    (bits as int / LEADING_BIT as int) % 2048
}

/// The fraction field of the pattern: the low 52 bits.
pub open spec fn float_fraction(bits: u64) -> int {
    bits as int % LEADING_BIT as int
}

/// The absolute value of the float with the pattern `bits`, where that is a
/// whole number; none where the float has a fractional part, is infinite or
/// is no number.
///
/// Zero and minus zero are the whole number zero, and no other float with
/// the exponent field zero is whole. A float with the exponent field `e`
/// between 1 and 2046 is its significand, the fraction with the leading
/// bit added, times two to the power `e - 1075`.
pub open spec fn float_magnitude(bits: u64) -> Option<int> {
    let exponent = float_exponent(bits);
    let significand = LEADING_BIT + float_fraction(bits);
    if exponent == 0 {
        if float_fraction(bits) == 0 {
            Some(0)
        } else {
            None
        }
    } else if exponent == 2047 || exponent < 1023 {
        None
    } else if exponent <= 1075 {
        let unit = pow2((1075 - exponent) as nat) as int;
        if significand % unit == 0 {
            Some(significand / unit)
        } else {
            None
        }
    } else {
        Some(significand * pow2((exponent - 1075) as nat))
    }
}

/// The float with the pattern `bits` as a whole number, where it is one.
pub open spec fn float_integer(bits: u64) -> Option<int> {
    match float_magnitude(bits) {
        Some(magnitude) => Some(
            if float_is_negative(bits) {
                -magnitude
            } else {
                magnitude
            },
        ),
        None => None,
    }
}

/// The float with the pattern `bits` as a 64-bit signed integer, where it
/// is a whole number that fits one.
pub open spec fn whole_number(bits: u64) -> Option<i64> {
    match float_integer(bits) {
        Some(n) => if i64::MIN <= n <= i64::MAX {
            Some(n as i64)
        } else {
            None
        },
        None => None,
    }
}

/// Two to the power `k`.
fn power_of_two(k: u64) -> (power: u64)
    requires
        k < 64,
    ensures
        power == pow2(k as nat),
{
    proof {
        lemma_u64_pow2_no_overflow(k as nat);
        lemma_u64_shl_is_mul(1, k);
    }
    1u64 << k
}

/// Reads the float with the pattern `bits` as a 64-bit signed integer:
/// `Some` where the float is a whole number from `i64::MIN` to `i64::MAX`,
/// and `None` for every other pattern.
pub fn integer_of_float(bits: u64) -> (whole: Option<i64>)
    ensures
        whole == whole_number(bits),
{
    let negative = bits >= SIGN_BIT;
    let exponent = (bits / LEADING_BIT) % 2048;
    let fraction = bits % LEADING_BIT;
    if exponent == 0 {
        return if fraction == 0 {
            Some(0)
        } else {
            None
        };
    }
    if exponent < 1023 || exponent == 2047 {
        return None;
    }
    let significand = LEADING_BIT + fraction;
    if exponent > 1086 {
        proof {
            let scale = pow2((exponent - 1075) as nat) as int;
            lemma2_to64();
            if exponent > 1087 {
                lemma_pow2_strictly_increases(12, (exponent - 1075) as nat);
            }
            assert(significand * scale >= 0x1_0000_0000_0000_0000) by (nonlinear_arith)
                requires
                    significand >= 0x10_0000_0000_0000,
                    scale >= 0x1000,
            ;
        }
        return None;
    }
    let magnitude: u64 = if exponent <= 1075 {
        let unit = power_of_two(1075 - exponent);
        proof {
            lemma_pow2_pos((1075 - exponent) as nat);
        }
        if significand % unit != 0 {
            return None;
        }
        significand / unit
    } else {
        let scale = power_of_two(exponent - 1075);
        proof {
            lemma2_to64();
            if exponent < 1086 {
                lemma_pow2_strictly_increases((exponent - 1075) as nat, 11);
            }
            assert(significand * scale < 0x1_0000_0000_0000_0000) by (nonlinear_arith)
                requires
                    significand < 0x20_0000_0000_0000,
                    scale <= 0x800,
            ;
        }
        significand * scale
    };
    if negative {
        if magnitude < SIGN_BIT {
            Some(-(magnitude as i64))
        } else if magnitude == SIGN_BIT {
            Some(i64::MIN)
        } else {
            None
        }
    } else {
        if magnitude < SIGN_BIT {
            Some(magnitude as i64)
        } else {
            None
        }
    }
}

} // verus!
