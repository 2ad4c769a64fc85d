//! The bit patterns of single-precision numbers, read as whole numbers.
//!
//! A pattern of 32 bits holds, from the top, a sign, an exponent field of 8
//! bits and a fraction of 23 bits.  Where the exponent field is not all ones
//! the pattern stands for the number `mantissa * 2^exponent`, negated where
//! the sign is set; every such number is a whole multiple of `2^-149`.
use vstd::arithmetic::power2::{lemma_pow2_pos, lemma_pow2_strictly_increases, lemma_pow2_unfold, pow2};
use vstd::prelude::*;

verus! {

/// The pattern with nothing but the sign set.
pub const SIGN: u32 = 0x8000_0000;

/// The lowest pattern with an exponent field that is not zero.
pub const HIDDEN: u32 = 0x80_0000;

/// The exponent field with all its bits set.
pub const ALL_ONES: u32 = 255;

/// The sign of the pattern is set.
pub open spec fn is_negative(bits: u32) -> bool {
    bits >= SIGN
}

/// The pattern without its sign.
pub open spec fn magnitude_bits(bits: u32) -> int {
    bits as int % (SIGN as int)
}

/// The exponent field of the pattern.
pub open spec fn exponent_field(bits: u32) -> int {
    magnitude_bits(bits) / (HIDDEN as int)
}

/// The fraction of the pattern.
pub open spec fn fraction(bits: u32) -> int {
    magnitude_bits(bits) % (HIDDEN as int)
}

/// The pattern stands for a number: its exponent field is not all ones.
pub open spec fn is_finite(bits: u32) -> bool {
    exponent_field(bits) < ALL_ONES
}

/// The pattern stands for no number at all.
pub open spec fn is_nan(bits: u32) -> bool {
    exponent_field(bits) == ALL_ONES && fraction(bits) != 0
}

/// The mantissa of the number, without its sign.
pub open spec fn mantissa(bits: u32) -> int {
    if exponent_field(bits) == 0 {
        fraction(bits)
    } else {
        fraction(bits) + HIDDEN
    }
}

/// The power of two that the mantissa is multiplied by.
pub open spec fn exponent(bits: u32) -> int {
    if exponent_field(bits) == 0 {
        -149
    } else {
        exponent_field(bits) - 150
    }
}

/// The number that a finite pattern stands for, counted in units of
/// `2^-149`.
pub open spec fn value_in_units(bits: u32) -> int {
    let size = mantissa(bits) * pow2((exponent(bits) + 149) as nat);
    if is_negative(bits) {
        -size
    } else {
        size
    }
}

/// A whole number that orders the patterns as the numbers they stand for are
/// ordered: a larger number has a larger level, and the two zeros have the
/// same.  Infinite patterns lie beyond all numbers on their side; a pattern
/// that stands for no number has the lowest level of all.
pub open spec fn level(bits: u32) -> int {
    if is_nan(bits) {
        i64::MIN as int
    } else if is_negative(bits) {
        -magnitude_bits(bits)
    } else {
        magnitude_bits(bits)
    }
}

/// Computes the level of a pattern.
pub fn level_of_bits(bits: u32) -> (out: i64)
    ensures
        out == level(bits),
{
    let magnitude: u32 = bits % SIGN;
    if magnitude / HIDDEN == ALL_ONES && magnitude % HIDDEN != 0 {
        i64::MIN
    } else if bits >= SIGN {
        -(magnitude as i64)
    } else {
        magnitude as i64
    }
}

/// The size of a finite number grows with the pattern of its magnitude.
proof fn lemma_size_grows(a: u32, b: u32)
    requires
        is_finite(a),
        is_finite(b),
        magnitude_bits(a) < magnitude_bits(b),
    ensures
        mantissa(a) * pow2((exponent(a) + 149) as nat) < mantissa(b) * pow2(
            (exponent(b) + 149) as nat,
        ),
{
    let ea = (exponent(a) + 149) as nat;
    let eb = (exponent(b) + 149) as nat;
    let ma = mantissa(a);
    let mb = mantissa(b);
    lemma_pow2_pos(ea);
    lemma_pow2_pos(eb);
    let pa = pow2(ea) as int;
    let pb = pow2(eb) as int;
    assert(exponent_field(a) <= exponent_field(b));
    if ea == eb {
        assert(ma < mb);
        assert(ma * pa < mb * pb) by (nonlinear_arith)
            requires
                ma < mb,
                pa == pb,
                pa > 0,
        ;
    } else {
        assert(ea < eb);
        lemma_pow2_unfold((ea + 1) as nat);
        if ea + 1 < eb {
            lemma_pow2_strictly_increases((ea + 1) as nat, eb);
        }
        assert(2 * pa <= pb);
        assert(ma < 2 * HIDDEN);
        assert(mb >= HIDDEN);
        assert(ma * pa < mb * pb) by (nonlinear_arith)
            requires
                0 <= ma < 2 * 0x80_0000,
                mb >= 0x80_0000,
                2 * pa <= pb,
                pa > 0,
        ;
    }
}

/// The level orders finite patterns as the numbers they stand for are
/// ordered.
pub proof fn lemma_level_orders_as_values(a: u32, b: u32)
    requires
        is_finite(a),
        is_finite(b),
    ensures
        level(a) < level(b) <==> value_in_units(a) < value_in_units(b),
        level(a) == level(b) <==> value_in_units(a) == value_in_units(b),
{
    let sa = mantissa(a) * pow2((exponent(a) + 149) as nat);
    let sb = mantissa(b) * pow2((exponent(b) + 149) as nat);
    lemma_pow2_pos((exponent(a) + 149) as nat);
    lemma_pow2_pos((exponent(b) + 149) as nat);
    assert(sa >= 0) by (nonlinear_arith)
        requires
            sa == mantissa(a) * pow2((exponent(a) + 149) as nat),
            mantissa(a) >= 0,
    ;
    assert(sb >= 0) by (nonlinear_arith)
        requires
            sb == mantissa(b) * pow2((exponent(b) + 149) as nat),
            mantissa(b) >= 0,
    ;
    if magnitude_bits(a) < magnitude_bits(b) {
        lemma_size_grows(a, b);
    } else if magnitude_bits(b) < magnitude_bits(a) {
        lemma_size_grows(b, a);
    } else {
        assert(mantissa(a) == mantissa(b) && exponent(a) == exponent(b));
    }
    assert(magnitude_bits(a) == 0 <==> sa == 0) by {
        if magnitude_bits(a) != 0 {
            assert(mantissa(a) > 0);
            assert(sa > 0) by (nonlinear_arith)
                requires
                    sa == mantissa(a) * pow2((exponent(a) + 149) as nat),
                    mantissa(a) > 0,
                    pow2((exponent(a) + 149) as nat) > 0,
            ;
        } else {
            assert(mantissa(a) == 0);
            assert(sa == 0) by (nonlinear_arith)
                requires
                    sa == mantissa(a) * pow2((exponent(a) + 149) as nat),
                    mantissa(a) == 0,
            ;
        }
    }
}

} // verus!
