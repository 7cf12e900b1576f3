//! Exact operations on binary64 bit patterns: those whose result needs no
//! rounding, so that they can be computed and proved on the bits alone.

use vstd::arithmetic::power2::{lemma2_to64, lemma2_to64_rest, pow2};
use vstd::prelude::*;

verus! {

/// The sign bit.
pub const SIGN: u64 = 0x8000_0000_0000_0000;

/// All bits but the sign bit.
pub const MAGNITUDE: u64 = 0x7FFF_FFFF_FFFF_FFFF;

/// Positive infinity; every larger magnitude is not a number.
pub const INFINITY: u64 = 0x7FF0_0000_0000_0000;

/// Zero with a clear sign bit.
pub const ZERO: u64 = 0;

/// One half.
pub const HALF: u64 = 0x3FE0_0000_0000_0000;

/// Minus one half.
pub const MINUS_HALF: u64 = 0xBFE0_0000_0000_0000;

/// One.
pub const ONE: u64 = 0x3FF0_0000_0000_0000;

/// Six.
pub const SIX: u64 = 0x4018_0000_0000_0000;

/// The weight of a corner cell: 33 hundredths, rounded to binary64.
pub const CORNER_WEIGHT: u64 = 0x3FD5_1EB8_51EB_851F;

/// The grid's side length, one hundred.
pub const SIDE: u64 = 0x4059_0000_0000_0000;

/// The side length of the interior, ninety-eight.
pub const INNER_SIDE: u64 = 0x4058_8000_0000_0000;

/// The largest coordinate a backward trace is clamped to: the side length
/// and one half.
pub const UPPER: u64 = 0x4059_2000_0000_0000;

/// First bit pattern past the whole numbers that `index_bits` covers.
pub const INDEX_END: u64 = 0x4060_0000_0000_0000;

/// The number with the opposite sign.
pub open spec fn negated(v: u64) -> u64 {
    v ^ SIGN
}

/// The pattern stands for no number.
pub open spec fn is_nan(v: u64) -> bool {
    (v & MAGNITUDE) > INFINITY
}

/// The pattern stands for zero, with either sign.
pub open spec fn is_zero(v: u64) -> bool {
    (v & MAGNITUDE) == 0
}

/// The pattern stands for a number that is not infinite.
pub open spec fn is_finite(v: u64) -> bool {
    (v & MAGNITUDE) < INFINITY
}

/// Position of a number on the number line, up to scale: patterns with a
/// clear sign bit grow with the number they stand for, those with the sign
/// bit set mirror them, and both zeros share position 0.
pub open spec fn order_key(v: u64) -> int {
    if v & SIGN != 0 {
        -((v & MAGNITUDE) as int)
    } else {
        (v & MAGNITUDE) as int
    }
}

/// `a < b` as numbers: false as soon as either is not a number.
pub open spec fn below(a: u64, b: u64) -> bool {
    !is_nan(a) && !is_nan(b) && order_key(a) < order_key(b)
}

/// The pattern of the whole number `n`, for `0 <= n < 128`.
#[verifier::opaque]
pub open spec fn index_bits(n: int) -> u64 {
    if n <= 0 {
        0
    } else if n < 2 {
        0x3FF0_0000_0000_0000
    } else if n < 4 {
        (0x4000_0000_0000_0000 + (n - 2) * 0x0008_0000_0000_0000) as u64
    } else if n < 8 {
        (0x4010_0000_0000_0000 + (n - 4) * 0x0004_0000_0000_0000) as u64
    } else if n < 16 {
        (0x4020_0000_0000_0000 + (n - 8) * 0x0002_0000_0000_0000) as u64
    } else if n < 32 {
        (0x4030_0000_0000_0000 + (n - 16) * 0x0001_0000_0000_0000) as u64
    } else if n < 64 {
        (0x4040_0000_0000_0000 + (n - 32) * 0x0000_8000_0000_0000) as u64
    } else if n < 128 {
        (0x4050_0000_0000_0000 + (n - 64) * 0x0000_4000_0000_0000) as u64
    } else {
        INDEX_END
    }
}

/// The exponent field of a pattern.
pub open spec fn exponent(v: u64) -> int {
    ((v & MAGNITUDE) as int) / 0x0010_0000_0000_0000
}

/// The fraction field of a pattern.
pub open spec fn fraction(v: u64) -> int {
    ((v & MAGNITUDE) as int) % 0x0010_0000_0000_0000
}

/// The pattern `v` is that of the whole number `n`: it is a zero and `n`
/// is 0, or its sign bit is clear and its significand, one and the
/// fraction, is `n` times a power of two that the exponent makes up for.
pub open spec fn stands_for(v: u64, n: int) -> bool {
    if n == 0 {
        is_zero(v)
    } else {
        &&& v & SIGN == 0
        &&& 1023 <= exponent(v) <= 1075
        &&& 0x0010_0000_0000_0000 + fraction(v) == n * pow2((1075 - exponent(v)) as nat)
    }
}

/// The whole part of a number that is neither negative nor as large as 128:
/// `v` is its pattern, which then has a clear sign bit.
#[verifier::opaque]
pub open spec fn whole_part(v: u64) -> int {
    if v < 0x3FF0_0000_0000_0000 {
        0
    } else if v < 0x4000_0000_0000_0000 {
        1
    } else if v < 0x4010_0000_0000_0000 {
        2 + (v - 0x4000_0000_0000_0000) / 0x0008_0000_0000_0000
    } else if v < 0x4020_0000_0000_0000 {
        4 + (v - 0x4010_0000_0000_0000) / 0x0004_0000_0000_0000
    } else if v < 0x4030_0000_0000_0000 {
        8 + (v - 0x4020_0000_0000_0000) / 0x0002_0000_0000_0000
    } else if v < 0x4040_0000_0000_0000 {
        16 + (v - 0x4030_0000_0000_0000) / 0x0001_0000_0000_0000
    } else if v < 0x4050_0000_0000_0000 {
        32 + (v - 0x4040_0000_0000_0000) / 0x0000_8000_0000_0000
    } else {
        64 + (v - 0x4050_0000_0000_0000) / 0x0000_4000_0000_0000
    }
}

/// A coordinate forced into the band from one half to the side length and
/// one half. What is not a number passes through unchanged.
pub open spec fn clamped(v: u64) -> u64 {
    if below(v, HALF) {
        HALF
    } else if below(UPPER, v) {
        UPPER
    } else {
        v
    }
}

/// Flips the sign.
pub fn negate(v: u64) -> (r: u64)
    ensures
        r == negated(v),
{
    v ^ SIGN
}

/// Tells whether the pattern stands for no number.
pub fn not_a_number(v: u64) -> (r: bool)
    ensures
        r == is_nan(v),
{
    (v & MAGNITUDE) > INFINITY
}

/// Compares two numbers by their patterns.
pub fn less_than(a: u64, b: u64) -> (r: bool)
    ensures
        r == below(a, b),
{
    if not_a_number(a) || not_a_number(b) {
        return false;
    }
    let ma: u64 = a & MAGNITUDE;
    let mb: u64 = b & MAGNITUDE;
    if a & SIGN != 0 {
        if b & SIGN != 0 {
            mb < ma
        } else {
            ma != 0 || mb != 0
        }
    } else {
        if b & SIGN != 0 {
            false
        } else {
            ma < mb
        }
    }
}

/// The pattern of a small whole number.
pub fn from_index(n: usize) -> (r: u64)
    requires
        n < 128,
    ensures
        r == index_bits(n as int),
{
    proof {
        reveal(index_bits);
    }
    let m: u64 = n as u64;
    if m == 0 {
        0
    } else if m < 2 {
        0x3FF0_0000_0000_0000
    } else if m < 4 {
        0x4000_0000_0000_0000 + (m - 2) * 0x0008_0000_0000_0000
    } else if m < 8 {
        0x4010_0000_0000_0000 + (m - 4) * 0x0004_0000_0000_0000
    } else if m < 16 {
        0x4020_0000_0000_0000 + (m - 8) * 0x0002_0000_0000_0000
    } else if m < 32 {
        0x4030_0000_0000_0000 + (m - 16) * 0x0001_0000_0000_0000
    } else if m < 64 {
        0x4040_0000_0000_0000 + (m - 32) * 0x0000_8000_0000_0000
    } else {
        0x4050_0000_0000_0000 + (m - 64) * 0x0000_4000_0000_0000
    }
}

/// Rounds a number down to a whole number. The number must be neither
/// negative nor as large as 128.
pub fn floor_index(v: u64) -> (r: usize)
    requires
        v < INDEX_END,
    ensures
        r == whole_part(v),
        r < 128,
        index_bits(r as int) <= v < index_bits(r + 1),
{
    proof {
        reveal(index_bits);
        reveal(whole_part);
    }
    let r: u64 = if v < 0x3FF0_0000_0000_0000 {
        0
    } else if v < 0x4000_0000_0000_0000 {
        1
    } else if v < 0x4010_0000_0000_0000 {
        2 + (v - 0x4000_0000_0000_0000) / 0x0008_0000_0000_0000
    } else if v < 0x4020_0000_0000_0000 {
        4 + (v - 0x4010_0000_0000_0000) / 0x0004_0000_0000_0000
    } else if v < 0x4030_0000_0000_0000 {
        8 + (v - 0x4020_0000_0000_0000) / 0x0002_0000_0000_0000
    } else if v < 0x4040_0000_0000_0000 {
        16 + (v - 0x4030_0000_0000_0000) / 0x0001_0000_0000_0000
    } else if v < 0x4050_0000_0000_0000 {
        32 + (v - 0x4040_0000_0000_0000) / 0x0000_8000_0000_0000
    } else {
        64 + (v - 0x4050_0000_0000_0000) / 0x0000_4000_0000_0000
    };
    r as usize
}

/// Forces a coordinate into the band that a backward trace may reach.
pub fn clamp(v: u64) -> (r: u64)
    ensures
        r == clamped(v),
        is_nan(r) <==> is_nan(v),
        !is_nan(r) ==> HALF <= r <= UPPER,
{
    proof {
        lemma_clamp_band(v);
    }
    if less_than(v, HALF) {
        HALF
    } else if less_than(UPPER, v) {
        UPPER
    } else {
        v
    }
}

/// A pattern with a clear sign bit is its own magnitude.
pub proof fn lemma_clear_sign(v: u64)
    requires
        v < SIGN,
    ensures
        v & MAGNITUDE == v,
        v & SIGN == 0,
{
    assert(v < 0x8000_0000_0000_0000 ==> (v & 0x7FFF_FFFF_FFFF_FFFF) == v && (v
        & 0x8000_0000_0000_0000) == 0) by (bit_vector);
}

/// A clamped coordinate is not a number exactly when the coordinate was
/// not, and otherwise its pattern lies between those of the two bounds.
pub proof fn lemma_clamp_band(v: u64)
    ensures
        is_nan(clamped(v)) <==> is_nan(v),
        !is_nan(v) ==> HALF <= clamped(v) <= UPPER,
{
    lemma_clear_sign(HALF);
    lemma_clear_sign(UPPER);
    assert(v & 0x8000_0000_0000_0000 == 0 ==> v & 0x7FFF_FFFF_FFFF_FFFF == v) by (bit_vector);
}

/// `index_bits` gives each whole number its own pattern.
pub proof fn lemma_index_bits_stands_for(n: int)
    requires
        0 <= n < 128,
    ensures
        stands_for(index_bits(n), n),
{
    reveal(index_bits);
    let v: u64 = index_bits(n);
    lemma_clear_sign(v);
    lemma2_to64();
    lemma2_to64_rest();
    if n >= 1 {
        let k: int = if n < 2 {
            0
        } else if n < 4 {
            1
        } else if n < 8 {
            2
        } else if n < 16 {
            3
        } else if n < 32 {
            4
        } else if n < 64 {
            5
        } else {
            6
        };
        let step: int = if n < 2 {
            0x0010_0000_0000_0000
        } else if n < 4 {
            0x0008_0000_0000_0000
        } else if n < 8 {
            0x0004_0000_0000_0000
        } else if n < 16 {
            0x0002_0000_0000_0000
        } else if n < 32 {
            0x0001_0000_0000_0000
        } else if n < 64 {
            0x0000_8000_0000_0000
        } else {
            0x0000_4000_0000_0000
        };
        assert(exponent(v) == 1023 + k);
        assert(pow2((52 - k) as nat) == step);
        assert(fraction(v) == n * step - 0x0010_0000_0000_0000);
        assert(n * pow2((52 - k) as nat) == n * step);
    }
}

/// Rounding down brackets a number below 128 between two neighbouring
/// whole numbers and takes any other pattern to 128 or beyond; the whole
/// numbers themselves are fixed points, and their patterns grow with them.
pub proof fn lemma_whole_part(v: u64, n: int)
    requires
        0 <= n < 128,
    ensures
        v < INDEX_END ==> 0 <= whole_part(v) < 128 && index_bits(whole_part(v)) <= v
            < index_bits(whole_part(v) + 1),
        v >= INDEX_END ==> whole_part(v) >= 128,
        whole_part(index_bits(n)) == n,
        index_bits(n) < INDEX_END,
        index_bits(n) < index_bits(n + 1),
        n >= 1 ==> ONE <= index_bits(n),
{
    reveal(index_bits);
    reveal(whole_part);
}

} // verus!
