//! Price arithmetic: the square-root price of a tick as a Q64.64 number,
//! the tick of a price, and a multiply-divide that cannot overflow midway.

use crate::error::SwapV3Error;
use crate::wide::{
    wide_bits, wide_div, wide_from_u128, wide_is_zero, wide_mul, wide_shl, wide_shr, wide_to_u128,
};
use vstd::arithmetic::div_mod::*;
use vstd::arithmetic::mul::*;
use vstd::arithmetic::power2::*;
use vstd::prelude::*;

verus! {

/// The largest magnitude of a tick index.
pub const TICK_LIMIT: i32 = 443636;

/// One, as a Q64.64 number.
pub const Q64: u128 = 0x1_0000_0000_0000_0000;

/// `floor(a * b / c)`, or nothing where `c` is zero or the quotient does not
/// fit 128 bits.
pub open spec fn mul_div_spec(a: nat, b: nat, c: nat) -> Option<u128> {
    if c == 0 || a * b / c > u128::MAX {
        None
    } else {
        Some((a * b / c) as u128)
    }
}

/// The product lies between the quotient times the divisor and the next
/// multiple of the divisor.
pub proof fn lemma_mul_div_brackets(a: nat, b: nat, c: nat)
    requires
        c > 0,
    ensures
        (a * b / c) * c <= a * b < (a * b / c + 1) * c,
        mul_div_spec(a, b, c) matches Some(q) ==> q * c <= a * b < (q + 1) * c,
{
    lemma_fundamental_div_mod((a * b) as int, c as int);
    lemma_mod_bound((a * b) as int, c as int);
    lemma_mul_is_commutative(c as int, (a * b) as int / (c as int));
    lemma_mul_is_distributive_add_other_way(c as int, (a * b) as int / (c as int), 1);
}

/// The powers of two that bound 128-bit and 256-bit numbers.
proof fn lemma_pow2_128()
    ensures
        pow2(64) == 0x1_0000_0000_0000_0000,
        pow2(128) == 0x1_0000_0000_0000_0000_0000_0000_0000_0000int,
        pow2(256) == 0x1_0000_0000_0000_0000_0000_0000_0000_0000int
            * 0x1_0000_0000_0000_0000_0000_0000_0000_0000int,
{
    lemma2_to64();
    lemma_pow2_adds(64, 64);
    lemma_pow2_adds(128, 128);
}

/// Computes `floor(a * b / c)` through an intermediate product of arbitrary
/// width. Fails with `Overflow` where `c` is zero or the quotient does not
/// fit 128 bits.
pub fn mul_div(a: u128, b: u128, c: u128) -> (r: Result<u128, SwapV3Error>)
    ensures
        r == (match mul_div_spec(a as nat, b as nat, c as nat) {
            Some(q) => Ok::<u128, SwapV3Error>(q),
            None => Err(SwapV3Error::Overflow),
        }),
        c == 0 ==> r == Err::<u128, SwapV3Error>(SwapV3Error::Overflow),
        r matches Ok(q) ==> q * c <= a * b < (q + 1) * c,
{
    let a_big = wide_from_u128(a);
    let b_big = wide_from_u128(b);
    let c_big = wide_from_u128(c);
    if wide_is_zero(&c_big) {
        return Err(SwapV3Error::Overflow);
    }
    let product = wide_mul(&a_big, &b_big);
    let quotient = wide_div(&product, &c_big);
    let width = wide_bits(&quotient);
    proof {
        lemma_pow2_128();
        if width > 129 {
            lemma_pow2_strictly_increases(128, (width - 1) as nat);
        }
        if width < 128 {
            lemma_pow2_strictly_increases(width as nat, 128);
        }
        lemma_mul_div_brackets(a as nat, b as nat, c as nat);
    }
    if width > 128 {
        return Err(SwapV3Error::Overflow);
    }
    match wide_to_u128(&quotient) {
        Some(q) => Ok(q),
        None => Err(SwapV3Error::Overflow),
    }
}

/// Two to the power 128: one times one, as a product of Q64.64 numbers.
pub open spec fn q128() -> int {
    0x1_0000_0000_0000_0000_0000_0000_0000_0000int
}

/// The number of bits of a tick's magnitude that have a factor.
pub const TICK_BITS: u32 = 19;

/// The Q64.64 factor for bit `bit` of a tick's magnitude: `1.0001` to the
/// power `2^bit / 2`, rounded down.
pub open spec fn tick_factor(bit: nat) -> int {
    if bit == 0 {
        0x1_0003_46d6_ff11_672a
    } else if bit == 1 {
        0x1_0006_8db8_bac7_10cb
    } else if bit == 2 {
        0x1_000d_1b9c_68ab_e5f7
    } else if bit == 3 {
        0x1_001a_37e4_a234_cb08
    } else if bit == 4 {
        0x1_0034_7278_ab0e_92ad
    } else if bit == 5 {
        0x1_0068_efb0_0a52_5480
    } else if bit == 6 {
        0x1_00d2_0a63_b417_3839
    } else if bit == 7 {
        0x1_01a4_c11c_742d_d772
    } else if bit == 8 {
        0x1_034c_35c3_1f64_cfa6
    } else if bit == 9 {
        0x1_06a3_4b78_c8aa_ffbf
    } else if bit == 10 {
        0x1_0d72_a6a4_6ccd_8bce
    } else if bit == 11 {
        0x1_1b9a_258e_6392_8596
    } else if bit == 12 {
        0x1_3a2e_2bda_04f8_379f
    } else if bit == 13 {
        0x1_8195_4be6_9e0d_a8fe
    } else if bit == 14 {
        0x2_44c2_655d_185a_0290
    } else if bit == 15 {
        0x5_2581_6eeb_9f93_5b1c
    } else if bit == 16 {
        0x1a_7c8d_00b5_5168_4ff4
    } else if bit == 17 {
        0x2bd_893d_0b2d_f7c9_7884
    } else {
        0x7_8278_e1e1_9e44_8cf8_b95d
    }
}

/// The ratio of the magnitude whose bits below `bit` are all set: the
/// most that a ratio can be before bit `bit` is looked at.
spec fn ratio_of_ones(bit: nat) -> int {
    if bit == 0 {
        0x1_0000_0000_0000_0000
    } else if bit == 1 {
        0x1_0003_46d6_ff11_672a
    } else if bit == 2 {
        0x1_0009_d4a5_3344_2b65
    } else if bit == 3 {
        0x1_0016_f0c2_77c2_b1e2
    } else if bit == 4 {
        0x1_0031_2b00_8fee_64b3
    } else if bit == 5 {
        0x1_0065_a78b_f36d_76ad
    } else if bit == 6 {
        0x1_00ce_c0e7_3bed_a15c
    } else if bit == 7 {
        0x1_01a1_74ed_91c3_16aa
    } else if bit == 8 {
        0x1_0348_e428_c341_6ac9
    } else if bit == 9 {
        0x1_069f_eeec_b133_5058
    } else if bit == 10 {
        0x1_0d6f_33c8_21e3_0dfe
    } else if bit == 11 {
        0x1_1b96_8451_840e_de08
    } else if bit == 12 {
        0x1_3a2a_266c_32f0_92b0
    } else if bit == 13 {
        0x1_8190_5c84_405e_6589
    } else if bit == 14 {
        0x2_44ba_f679_5ea0_f745
    } else if bit == 15 {
        0x5_2570_920a_b4c5_8946
    } else if bit == 16 {
        0x1a_7c36_37dd_9daf_3b77
    } else if bit == 17 {
        0x2bd_8042_6c30_5faa_275e
    } else if bit == 18 {
        0x7_8260_46cb_fea9_04cd_c7fe
    } else {
        0x38_6462_90dd_96e2_0945_b106_db95
    }
}

/// The ratio after the bits of `rest`, which stand for the bits of a
/// magnitude from `bit` on, are applied to `ratio`: for each bit that is
/// set the ratio is multiplied by the factor of the bit, in full width,
/// and shifted back to Q64.64.
pub open spec fn ratio_from(rest: nat, bit: nat, ratio: int) -> int
    decreases TICK_BITS - bit,
{
    if bit >= TICK_BITS {
        ratio
    } else {
        ratio_from(
            rest / 2,
            bit + 1,
            if rest % 2 == 1 {
                ratio * tick_factor(bit) / (Q64 as int)
            } else {
                ratio
            },
        )
    }
}

/// The ratio for the magnitude of a tick: starting from one, the product,
/// bit by bit from the lowest, of the factors of the bits that are set,
/// each product shifted back to Q64.64. The lowest bit so selects one or
/// its factor to start from. The ratio is at least one.
pub open spec fn ratio_at_abs_tick(abs_tick: nat) -> int {
    ratio_from(abs_tick, 0, Q64 as int)
}

/// The square-root price of a tick as a Q64.64 number: the ratio of the
/// tick's magnitude for a tick that is not negative, its reciprocal for a
/// negative one.
pub open spec fn sqrt_ratio_at_tick(tick: int) -> int {
    let ratio = ratio_at_abs_tick(vstd::math::abs(tick));
    if tick < 0 {
        q128() / ratio
    } else {
        ratio
    }
}

/// Whether a tick index is within the bound.
pub open spec fn tick_in_bounds(tick: int) -> bool {
    -TICK_LIMIT <= tick <= TICK_LIMIT
}

/// The greatest value the ratio of a magnitude takes.
pub open spec fn max_ratio() -> int {
    0x38_6462_90dd_96e2_0945_b106_db95
}

/// What the tables hold for one bit: its factor is above one, the ratio of
/// all ones goes on by the factor, and the factor alone exceeds the ratio
/// of all ones below the bit by more than one part in 24000.
proof fn lemma_tables(bit: nat)
    requires
        bit < TICK_BITS,
    ensures
        Q64 < tick_factor(bit),
        ratio_of_ones(bit + 1) == ratio_of_ones(bit) * tick_factor(bit) / (Q64 as int),
        Q64 <= ratio_of_ones(bit) <= ratio_of_ones(bit + 1) <= max_ratio(),
        24000 * (tick_factor(bit) - ratio_of_ones(bit)) >= ratio_of_ones(bit) + 24000 * TICK_BITS,
        Q64 * tick_factor(bit) / (Q64 as int) == tick_factor(bit),
{
    lemma_div_multiples_vanish(tick_factor(bit), Q64 as int);
    if bit == 1 {
        assert(0x1_0003_46d6_ff11_672aint * 0x1_0006_8db8_bac7_10cbint / 0x1_0000_0000_0000_0000int
            == 0x1_0009_d4a5_3344_2b65int);
    } else if bit == 2 {
        assert(0x1_0009_d4a5_3344_2b65int * 0x1_000d_1b9c_68ab_e5f7int / 0x1_0000_0000_0000_0000int
            == 0x1_0016_f0c2_77c2_b1e2int);
    } else if bit == 3 {
        assert(0x1_0016_f0c2_77c2_b1e2int * 0x1_001a_37e4_a234_cb08int / 0x1_0000_0000_0000_0000int
            == 0x1_0031_2b00_8fee_64b3int);
    } else if bit == 4 {
        assert(0x1_0031_2b00_8fee_64b3int * 0x1_0034_7278_ab0e_92adint / 0x1_0000_0000_0000_0000int
            == 0x1_0065_a78b_f36d_76adint);
    } else if bit == 5 {
        assert(0x1_0065_a78b_f36d_76adint * 0x1_0068_efb0_0a52_5480int / 0x1_0000_0000_0000_0000int
            == 0x1_00ce_c0e7_3bed_a15cint);
    } else if bit == 6 {
        assert(0x1_00ce_c0e7_3bed_a15cint * 0x1_00d2_0a63_b417_3839int / 0x1_0000_0000_0000_0000int
            == 0x1_01a1_74ed_91c3_16aaint);
    } else if bit == 7 {
        assert(0x1_01a1_74ed_91c3_16aaint * 0x1_01a4_c11c_742d_d772int / 0x1_0000_0000_0000_0000int
            == 0x1_0348_e428_c341_6ac9int);
    } else if bit == 8 {
        assert(0x1_0348_e428_c341_6ac9int * 0x1_034c_35c3_1f64_cfa6int / 0x1_0000_0000_0000_0000int
            == 0x1_069f_eeec_b133_5058int);
    } else if bit == 9 {
        assert(0x1_069f_eeec_b133_5058int * 0x1_06a3_4b78_c8aa_ffbfint / 0x1_0000_0000_0000_0000int
            == 0x1_0d6f_33c8_21e3_0dfeint);
    } else if bit == 10 {
        assert(0x1_0d6f_33c8_21e3_0dfeint * 0x1_0d72_a6a4_6ccd_8bceint / 0x1_0000_0000_0000_0000int
            == 0x1_1b96_8451_840e_de08int);
    } else if bit == 11 {
        assert(0x1_1b96_8451_840e_de08int * 0x1_1b9a_258e_6392_8596int / 0x1_0000_0000_0000_0000int
            == 0x1_3a2a_266c_32f0_92b0int);
    } else if bit == 12 {
        assert(0x1_3a2a_266c_32f0_92b0int * 0x1_3a2e_2bda_04f8_379fint / 0x1_0000_0000_0000_0000int
            == 0x1_8190_5c84_405e_6589int);
    } else if bit == 13 {
        assert(0x1_8190_5c84_405e_6589int * 0x1_8195_4be6_9e0d_a8feint / 0x1_0000_0000_0000_0000int
            == 0x2_44ba_f679_5ea0_f745int);
    } else if bit == 14 {
        assert(0x2_44ba_f679_5ea0_f745int * 0x2_44c2_655d_185a_0290int / 0x1_0000_0000_0000_0000int
            == 0x5_2570_920a_b4c5_8946int);
    } else if bit == 15 {
        assert(0x5_2570_920a_b4c5_8946int * 0x5_2581_6eeb_9f93_5b1cint / 0x1_0000_0000_0000_0000int
            == 0x1a_7c36_37dd_9daf_3b77int);
    } else if bit == 16 {
        assert(0x1a_7c36_37dd_9daf_3b77int * 0x1a_7c8d_00b5_5168_4ff4int
            / 0x1_0000_0000_0000_0000int == 0x2bd_8042_6c30_5faa_275eint);
    } else if bit == 17 {
        assert(0x2bd_8042_6c30_5faa_275eint * 0x2bd_893d_0b2d_f7c9_7884int
            / 0x1_0000_0000_0000_0000int == 0x7_8260_46cb_fea9_04cd_c7feint);
    } else if bit == 18 {
        assert(0x7_8260_46cb_fea9_04cd_c7feint * 0x7_8278_e1e1_9e44_8cf8_b95dint
            / 0x1_0000_0000_0000_0000int == 0x38_6462_90dd_96e2_0945_b106_db95int);
    }
}

/// The factors of the two lowest bits are the square root of `1.0001` and
/// `1.0001` itself, as Q64.64 numbers rounded down.
pub proof fn lemma_lowest_factors()
    ensures
        tick_factor(0) * tick_factor(0) * 10000 <= q128() * 10001 < (tick_factor(0) + 1) * (
        tick_factor(0) + 1) * 10000,
        tick_factor(1) * 10000 <= Q64 * 10001 < (tick_factor(1) + 1) * 10000,
{
    assert(0x1_0003_46d6_ff11_672aint * 0x1_0003_46d6_ff11_672aint
        == 0x1_0006_8db8_bac7_10c9_5ea3_1eec_8926_d2e4int);
    assert(0x1_0003_46d6_ff11_672bint * 0x1_0003_46d6_ff11_672bint
        == 0x1_0006_8db8_bac7_10cb_5ea9_ac9a_8749_a139int);
}

/// Each factor is the square of the factor of the bit below, to within one
/// part in `2^63`: the factors stand for `1.0001` to the power `2^bit / 2`.
pub proof fn lemma_factors_are_squares(bit: nat)
    requires
        bit + 1 < TICK_BITS,
    ensures
        0 <= tick_factor(bit + 1) - tick_factor(bit) * tick_factor(bit) / (Q64 as int),
        (tick_factor(bit + 1) - tick_factor(bit) * tick_factor(bit) / (Q64 as int))
            * 0x8000_0000_0000_0000 <= tick_factor(bit + 1),
{
    if bit == 0 {
        assert(0x1_0003_46d6_ff11_672aint * 0x1_0003_46d6_ff11_672aint / 0x1_0000_0000_0000_0000int
            == 0x1_0006_8db8_bac7_10c9int);
    } else if bit == 1 {
        assert(0x1_0006_8db8_bac7_10cbint * 0x1_0006_8db8_bac7_10cbint / 0x1_0000_0000_0000_0000int
            == 0x1_000d_1b9c_68ab_e5f7int);
    } else if bit == 2 {
        assert(0x1_000d_1b9c_68ab_e5f7int * 0x1_000d_1b9c_68ab_e5f7int / 0x1_0000_0000_0000_0000int
            == 0x1_001a_37e4_a234_cb07int);
    } else if bit == 3 {
        assert(0x1_001a_37e4_a234_cb08int * 0x1_001a_37e4_a234_cb08int / 0x1_0000_0000_0000_0000int
            == 0x1_0034_7278_ab0e_92adint);
    } else if bit == 4 {
        assert(0x1_0034_7278_ab0e_92adint * 0x1_0034_7278_ab0e_92adint / 0x1_0000_0000_0000_0000int
            == 0x1_0068_efb0_0a52_547fint);
    } else if bit == 5 {
        assert(0x1_0068_efb0_0a52_5480int * 0x1_0068_efb0_0a52_5480int / 0x1_0000_0000_0000_0000int
            == 0x1_00d2_0a63_b417_3838int);
    } else if bit == 6 {
        assert(0x1_00d2_0a63_b417_3839int * 0x1_00d2_0a63_b417_3839int / 0x1_0000_0000_0000_0000int
            == 0x1_01a4_c11c_742d_d770int);
    } else if bit == 7 {
        assert(0x1_01a4_c11c_742d_d772int * 0x1_01a4_c11c_742d_d772int / 0x1_0000_0000_0000_0000int
            == 0x1_034c_35c3_1f64_cfa5int);
    } else if bit == 8 {
        assert(0x1_034c_35c3_1f64_cfa6int * 0x1_034c_35c3_1f64_cfa6int / 0x1_0000_0000_0000_0000int
            == 0x1_06a3_4b78_c8aa_ffbdint);
    } else if bit == 9 {
        assert(0x1_06a3_4b78_c8aa_ffbfint * 0x1_06a3_4b78_c8aa_ffbfint / 0x1_0000_0000_0000_0000int
            == 0x1_0d72_a6a4_6ccd_8bcdint);
    } else if bit == 10 {
        assert(0x1_0d72_a6a4_6ccd_8bceint * 0x1_0d72_a6a4_6ccd_8bceint / 0x1_0000_0000_0000_0000int
            == 0x1_1b9a_258e_6392_8595int);
    } else if bit == 11 {
        assert(0x1_1b9a_258e_6392_8596int * 0x1_1b9a_258e_6392_8596int / 0x1_0000_0000_0000_0000int
            == 0x1_3a2e_2bda_04f8_379dint);
    } else if bit == 12 {
        assert(0x1_3a2e_2bda_04f8_379fint * 0x1_3a2e_2bda_04f8_379fint / 0x1_0000_0000_0000_0000int
            == 0x1_8195_4be6_9e0d_a8fdint);
    } else if bit == 13 {
        assert(0x1_8195_4be6_9e0d_a8feint * 0x1_8195_4be6_9e0d_a8feint / 0x1_0000_0000_0000_0000int
            == 0x2_44c2_655d_185a_028fint);
    } else if bit == 14 {
        assert(0x2_44c2_655d_185a_0290int * 0x2_44c2_655d_185a_0290int / 0x1_0000_0000_0000_0000int
            == 0x5_2581_6eeb_9f93_5b1aint);
    } else if bit == 15 {
        assert(0x5_2581_6eeb_9f93_5b1cint * 0x5_2581_6eeb_9f93_5b1cint / 0x1_0000_0000_0000_0000int
            == 0x1a_7c8d_00b5_5168_4ff0int);
    } else if bit == 16 {
        assert(0x1a_7c8d_00b5_5168_4ff4int * 0x1a_7c8d_00b5_5168_4ff4int
            / 0x1_0000_0000_0000_0000int == 0x2bd_893d_0b2d_f7c9_7858int);
    } else {
        assert(0x2bd_893d_0b2d_f7c9_7884int * 0x2bd_893d_0b2d_f7c9_7884int
            / 0x1_0000_0000_0000_0000int == 0x7_8278_e1e1_9e44_8cf8_b775int);
    }
}

/// A product shifted back to Q64.64 keeps two ratios at least as far apart
/// as it leaves their distance.
proof fn lemma_scaled_apart(high: int, low: int, factor: int)
    requires
        0 <= low <= high,
        0 <= factor,
    ensures
        high * factor / (Q64 as int) - low * factor / (Q64 as int) >= (high - low) * factor / (
        Q64 as int),
        0 <= low * factor / (Q64 as int),
{
    let a = low * factor;
    let b = (high - low) * factor;
    assert(high * factor == a + b) by (nonlinear_arith)
        requires
            a == low * factor,
            b == (high - low) * factor,
    ;
    assert(a >= 0 && b >= 0) by (nonlinear_arith)
        requires
            a == low * factor,
            b == (high - low) * factor,
            0 <= low <= high,
            0 <= factor,
    ;
}

/// A larger number times a factor, shifted back, is no smaller.
proof fn lemma_scaled_ordered(high: int, low: int, factor: int)
    requires
        0 <= low <= high,
        0 <= factor,
    ensures
        low * factor / (Q64 as int) <= high * factor / (Q64 as int),
{
    lemma_scaled_apart(high, low, factor);
    assert((high - low) * factor >= 0) by (nonlinear_arith)
        requires
            0 <= low <= high,
            0 <= factor,
    ;
}

/// A ratio times a factor of at least one, shifted back, is no smaller.
proof fn lemma_scaled_above(ratio: int, factor: int)
    by (nonlinear_arith)
    requires
        0 <= ratio,
        0x1_0000_0000_0000_0000 <= factor,
    ensures
        ratio <= ratio * factor / 0x1_0000_0000_0000_0000,
{
    assert(ratio * factor >= ratio * 0x1_0000_0000_0000_0000);
}

/// Two ratios of which the higher exceeds the lower by one part in 24000,
/// and by 24000 for each of `steps` products to come, are as far apart
/// after a product, for one step less.
proof fn lemma_scaled_gap(high: int, low: int, factor: int, steps: int)
    requires
        0 <= low <= high,
        Q64 <= factor,
        1 <= steps,
        24000 * (high - low) >= low + 24000 * steps,
    ensures
        24000 * (high * factor / (Q64 as int) - low * factor / (Q64 as int)) >= low * factor / (
        Q64 as int) + 24000 * (steps - 1),
{
    lemma_scaled_apart(high, low, factor);
    let gap = (high - low) * factor / (Q64 as int);
    let below = low * factor / (Q64 as int);
    assert(24000 * gap >= below + 24000 * (steps - 1)) by (nonlinear_arith)
        requires
            gap == (high - low) * factor / 0x1_0000_0000_0000_0000,
            below == low * factor / 0x1_0000_0000_0000_0000,
            0 <= low <= high,
            0x1_0000_0000_0000_0000 <= factor,
            1 <= steps,
            24000 * (high - low) >= low + 24000 * steps,
    {
        let q = 0x1_0000_0000_0000_0000int;
        assert(gap * q > (high - low) * factor - q);
        assert(below * q <= low * factor);
        assert(24000 * ((high - low) * factor) >= (low + 24000 * steps) * factor);
        assert((low + 24000 * steps) * factor == low * factor + 24000 * steps * factor);
        assert(24000 * steps * factor >= 24000 * steps * q);
        assert(24000 * (gap * q) > below * q + 24000 * steps * q - 24000 * q);
        assert(24000 * (gap * q) == (24000 * gap) * q);
        assert(below * q + 24000 * steps * q - 24000 * q == (below + 24000 * (steps - 1)) * q);
    }
}

/// From any bit on, a ratio of at least one that is no more than that of
/// all ones stays between itself and the greatest ratio.
proof fn lemma_ratio_from_bounds(rest: nat, bit: nat, ratio: int)
    requires
        bit <= TICK_BITS,
        Q64 <= ratio <= ratio_of_ones(bit),
    ensures
        ratio <= ratio_from(rest, bit, ratio) <= max_ratio(),
    decreases TICK_BITS - bit,
{
    if bit < TICK_BITS {
        lemma_tables(bit);
        let next = if rest % 2 == 1 {
            ratio * tick_factor(bit) / (Q64 as int)
        } else {
            ratio
        };
        lemma_scaled_ordered(ratio_of_ones(bit), ratio, tick_factor(bit));
        lemma_scaled_above(ratio, tick_factor(bit));
        lemma_ratio_from_bounds(rest / 2, bit + 1, next);
    }
}

/// The ratio of every magnitude lies between one and `max_ratio()`.
pub proof fn lemma_ratio_bounds(abs_tick: nat)
    ensures
        Q64 <= ratio_at_abs_tick(abs_tick) <= max_ratio(),
{
    lemma_ratio_from_bounds(abs_tick, 0, Q64 as int);
}

/// Two ratios of which the higher exceeds the lower by one part in 24000,
/// and by 24000 for each bit to come, are one part in 24000 apart after the
/// same bits.
proof fn lemma_same_bits_keep_apart(rest: nat, bit: nat, high: int, low: int)
    requires
        bit <= TICK_BITS,
        0 <= low <= high,
        24000 * (high - low) >= low + 24000 * (TICK_BITS - bit),
    ensures
        24000 * (ratio_from(rest, bit, high) - ratio_from(rest, bit, low)) >= ratio_from(
            rest,
            bit,
            low,
        ),
    decreases TICK_BITS - bit,
{
    if bit < TICK_BITS {
        lemma_tables(bit);
        if rest % 2 == 1 {
            lemma_scaled_gap(high, low, tick_factor(bit), TICK_BITS - bit);
            lemma_scaled_ordered(high, low, tick_factor(bit));
            lemma_scaled_apart(high, low, tick_factor(bit));
            lemma_same_bits_keep_apart(
                rest / 2,
                bit + 1,
                high * tick_factor(bit) / (Q64 as int),
                low * tick_factor(bit) / (Q64 as int),
            );
        } else {
            lemma_same_bits_keep_apart(rest / 2, bit + 1, high, low);
        }
    }
}

/// The number of magnitudes that the bits from `bit` on can spell.
spec fn span_from(bit: nat) -> nat
    decreases TICK_BITS - bit,
{
    if bit >= TICK_BITS {
        1
    } else {
        2 * span_from(bit + 1)
    }
}

/// The next magnitude has the greater ratio: where the bits below `bit`
/// of one magnitude are all set and those of the next are all clear, the
/// bits from `bit` on give the second a ratio that is greater by one part
/// in 24000.
proof fn lemma_carry(rest: nat, bit: nat)
    requires
        bit <= TICK_BITS,
        rest + 1 < span_from(bit),
    ensures
        24000 * (ratio_from(rest + 1, bit, Q64 as int) - ratio_from(
            rest,
            bit,
            ratio_of_ones(bit),
        )) >= ratio_from(rest, bit, ratio_of_ones(bit)),
    decreases TICK_BITS - bit,
{
    if bit < TICK_BITS {
        lemma_tables(bit);
        if rest % 2 == 0 {
            assert((rest + 1) % 2 == 1 && (rest + 1) / 2 == rest / 2);
            lemma_same_bits_keep_apart(rest / 2, bit + 1, tick_factor(bit), ratio_of_ones(bit));
        } else {
            assert((rest + 1) % 2 == 0 && (rest + 1) / 2 == rest / 2 + 1);
            lemma_carry(rest / 2, bit + 1);
        }
    }
}

/// All the bits together spell `2^19` magnitudes.
proof fn lemma_span()
    ensures
        span_from(0) == 524288,
{
    reveal_with_fuel(span_from, 20);
}

/// The ratio of the next magnitude is greater by at least one part in
/// 24000.
pub proof fn lemma_ratio_of_next(abs_tick: nat)
    requires
        abs_tick + 1 < 524288,
    ensures
        Q64 <= ratio_at_abs_tick(abs_tick) < ratio_at_abs_tick(abs_tick + 1) <= max_ratio(),
        24000 * (ratio_at_abs_tick(abs_tick + 1) - ratio_at_abs_tick(abs_tick))
            >= ratio_at_abs_tick(abs_tick),
{
    lemma_span();
    lemma_carry(abs_tick, 0);
    lemma_ratio_bounds(abs_tick);
    lemma_ratio_bounds(abs_tick + 1);
}

/// Among the magnitudes that the bits spell, the greater has the greater
/// ratio.
pub proof fn lemma_ratio_increases(less: nat, more: nat)
    requires
        less < more < 524288,
    ensures
        ratio_at_abs_tick(less) < ratio_at_abs_tick(more),
    decreases more - less,
{
    lemma_ratio_of_next((more - 1) as nat);
    if less + 1 < more {
        lemma_ratio_increases(less, (more - 1) as nat);
    }
}

/// The reciprocal of a ratio between one and the greatest ratio is a
/// Q64.64 number of at most one, and not zero.
proof fn lemma_reciprocal_bounded(ratio: int)
    by (nonlinear_arith)
    requires
        0x1_0000_0000_0000_0000 <= ratio <= 0x38_6462_90dd_96e2_0945_b106_db95,
    ensures
        0 < 0x1_0000_0000_0000_0000_0000_0000_0000_0000int / ratio <= 0x1_0000_0000_0000_0000,
        ratio > 0x1_0000_0000_0000_0000 ==> 0x1_0000_0000_0000_0000_0000_0000_0000_0000int
            / ratio < 0x1_0000_0000_0000_0000,
{
    let one = 0x1_0000_0000_0000_0000_0000_0000_0000_0000int;
    let q = one / ratio;
    assert(q * ratio <= one < (q + 1) * ratio);
    if q > 0x1_0000_0000_0000_0000 {
        assert(q * ratio >= (0x1_0000_0000_0000_0000 + 1) * ratio);
        assert((0x1_0000_0000_0000_0000 + 1) * ratio > one);
    }
    if ratio > 0x1_0000_0000_0000_0000 && q >= 0x1_0000_0000_0000_0000 {
        assert(q * ratio >= 0x1_0000_0000_0000_0000 * ratio);
        assert(0x1_0000_0000_0000_0000 * ratio > one);
    }
    if q <= 0 {
        assert((q + 1) * ratio <= ratio);
    }
}

/// Of two ratios between one and the greatest ratio that are one part in
/// 24000 apart, the greater has the smaller reciprocal.
proof fn lemma_reciprocal_of_next(less: int, more: int)
    by (nonlinear_arith)
    requires
        0x1_0000_0000_0000_0000 <= less < more <= 0x38_6462_90dd_96e2_0945_b106_db95,
        24000 * (more - less) >= less,
    ensures
        0x1_0000_0000_0000_0000_0000_0000_0000_0000int / less
            > 0x1_0000_0000_0000_0000_0000_0000_0000_0000int / more,
{
    let one = 0x1_0000_0000_0000_0000_0000_0000_0000_0000int;
    let a = one / less;
    let b = one / more;
    assert(a * less <= one < (a + 1) * less);
    assert(b * more <= one < (b + 1) * more);
    if a <= b {
        assert((a + 1) * less <= (b + 1) * less);
        assert(b * more < (b + 1) * less);
        assert((b + 1) * less == b * less + less);
        assert(b * more == b * less + b * (more - less));
        assert(b * (more - less) < less);
        assert(b >= 24000) by {
            if b < 24000 {
                assert((b + 1) * more <= 24000 * more);
                assert(24000 * more <= 24000 * 0x38_6462_90dd_96e2_0945_b106_db95);
            }
        }
        assert(b * (more - less) >= 24000 * (more - less));
    }
}

/// Among the magnitudes that the bits spell, the greater has the smaller
/// reciprocal of its ratio.
proof fn lemma_reciprocal_decreases(less: nat, more: nat)
    requires
        less < more < 524288,
    ensures
        0 < q128() / ratio_at_abs_tick(more) < q128() / ratio_at_abs_tick(less) <= Q64,
    decreases more - less,
{
    lemma_ratio_of_next((more - 1) as nat);
    lemma_reciprocal_of_next(
        ratio_at_abs_tick((more - 1) as nat),
        ratio_at_abs_tick(more),
    );
    lemma_reciprocal_bounded(ratio_at_abs_tick(more));
    lemma_ratio_bounds(less);
    lemma_reciprocal_bounded(ratio_at_abs_tick(less));
    if less + 1 < more {
        lemma_reciprocal_decreases(less, (more - 1) as nat);
    }
}

/// The price of the opposite of a tick that is not negative is the
/// reciprocal of the tick's price: `2^128` divided by it, rounded down.
pub proof fn lemma_opposite_tick_is_reciprocal(tick: int)
    requires
        tick_in_bounds(tick),
        tick >= 0,
    ensures
        sqrt_ratio_at_tick(tick) > 0,
        sqrt_ratio_at_tick(-tick) == q128() / sqrt_ratio_at_tick(tick),
{
    lemma_ratio_bounds(vstd::math::abs(tick));
    assert(vstd::math::abs(-tick) == vstd::math::abs(tick));
    if tick == 0 {
        lemma_ratio_of_zero();
        assert(q128() / (Q64 as int) == Q64);
    }
}

/// The magnitude up to which the square of a ratio stays below two.
pub const NEAR_LIMIT: i32 = 6931;

/// The ratio of the magnitude `NEAR_LIMIT`.
proof fn lemma_ratio_at_near_limit()
    ensures
        ratio_at_abs_tick(NEAR_LIMIT as nat) == 0x1_6a06_1b9d_6a7d_3a37int,
{
    reveal_with_fuel(ratio_from, 20);
    assert(0x1_0000_0000_0000_0000int * 0x1_0003_46d6_ff11_672aint
        / 0x1_0000_0000_0000_0000int == 0x1_0003_46d6_ff11_672aint);
    assert(0x1_0003_46d6_ff11_672aint * 0x1_0006_8db8_bac7_10cbint
        / 0x1_0000_0000_0000_0000int == 0x1_0009_d4a5_3344_2b65int);
    assert(0x1_0009_d4a5_3344_2b65int * 0x1_0034_7278_ab0e_92adint
        / 0x1_0000_0000_0000_0000int == 0x1_003e_4921_7534_f7c8int);
    assert(0x1_003e_4921_7534_f7c8int * 0x1_034c_35c3_1f64_cfa6int
        / 0x1_0000_0000_0000_0000int == 0x1_038b_4c4a_c385_7731int);
    assert(0x1_038b_4c4a_c385_7731int * 0x1_06a3_4b78_c8aa_ffbfint
        / 0x1_0000_0000_0000_0000int == 0x1_0a46_1e4a_5bcc_f1afint);
    assert(0x1_0a46_1e4a_5bcc_f1afint * 0x1_1b9a_258e_6392_8596int
        / 0x1_0000_0000_0000_0000int == 0x1_26fb_d8ba_a90d_d99fint);
    assert(0x1_26fb_d8ba_a90d_d99fint * 0x1_3a2e_2bda_04f8_379fint
        / 0x1_0000_0000_0000_0000int == 0x1_6a06_1b9d_6a7d_3a37int);
}

/// One divided by the reciprocal of a ratio whose square is below two is
/// the ratio or the next number.
proof fn lemma_reciprocal_near(ratio: int)
    by (nonlinear_arith)
    requires
        0x1_0000_0000_0000_0000 <= ratio <= 0x1_6a06_1b9d_6a7d_3a37,
    ensures
        0 < 0x1_0000_0000_0000_0000_0000_0000_0000_0000int / ratio,
        ratio <= 0x1_0000_0000_0000_0000_0000_0000_0000_0000int / (
        0x1_0000_0000_0000_0000_0000_0000_0000_0000int / ratio) <= ratio + 1,
{
    let one = 0x1_0000_0000_0000_0000_0000_0000_0000_0000int;
    let q = one / ratio;
    assert(q * ratio <= one < (q + 1) * ratio);
    assert(q >= 0x8000_0000_0000_0000) by {
        if q < 0x8000_0000_0000_0000 {
            assert((q + 1) * ratio <= 0x8000_0000_0000_0000 * ratio);
            assert(0x8000_0000_0000_0000 * ratio <= 0x8000_0000_0000_0000
                * 0x1_6a06_1b9d_6a7d_3a37);
        }
    }
    let back = one / q;
    assert(back * q <= one < (back + 1) * q);
    if back < ratio {
        assert((back + 1) * q <= ratio * q);
    }
    if back > ratio + 1 {
        assert(back * q >= (ratio + 2) * q);
        assert((ratio + 2) * q == ratio * q + 2 * q);
        assert((q + 1) * ratio == q * ratio + ratio);
        assert(2 * q < ratio);
        assert(2 * (q + 1) * ratio <= (ratio + 1) * ratio);
        assert((ratio + 1) * ratio <= (0x1_6a06_1b9d_6a7d_3a37 + 1) * 0x1_6a06_1b9d_6a7d_3a37);
    }
}

/// By how much `2^128` divided by the price of a tick exceeds the price
/// of the opposite tick: nothing for a tick that is not negative; for a
/// negative tick, whose price is `2^128` divided by the ratio of its
/// magnitude and rounded down, the remainder of that division divided by
/// its quotient.
pub open spec fn reciprocal_excess(tick: int) -> int {
    if tick >= 0 {
        0
    } else {
        let ratio = ratio_at_abs_tick(vstd::math::abs(tick));
        (q128() % ratio) / (q128() / ratio)
    }
}

/// Whether the price of the opposite of a tick is the reciprocal of the
/// tick's price to within one unit of the last place: always for a tick
/// that is not negative; for a negative one where the remainder of `2^128`
/// divided by the ratio of its magnitude is below twice the quotient.
pub open spec fn reciprocal_within_one(tick: int) -> bool {
    tick >= 0 || {
        let ratio = ratio_at_abs_tick(vstd::math::abs(tick));
        q128() % ratio < 2 * (q128() / ratio)
    }
}

/// A number divided by the quotient that a divisor leaves gives the
/// divisor back, and on top the remainder divided by the quotient.
proof fn lemma_divided_by_quotient(whole: int, divisor: int)
    requires
        0 < divisor <= whole,
    ensures
        0 < whole / divisor,
        0 <= whole % divisor,
        whole / (whole / divisor) == divisor + (whole % divisor) / (whole / divisor),
        ((whole % divisor) / (whole / divisor) <= 1) == (whole % divisor < 2 * (whole
            / divisor)),
{
    let quotient = whole / divisor;
    let rest = whole % divisor;
    lemma_fundamental_div_mod(whole, divisor);
    lemma_mod_bound(whole, divisor);
    assert(quotient > 0) by (nonlinear_arith)
        requires
            quotient == whole / divisor,
            0 < divisor <= whole,
    ;
    let extra = rest / quotient;
    let left = rest % quotient;
    lemma_fundamental_div_mod(rest, quotient);
    lemma_mod_bound(rest, quotient);
    assert(0 <= extra) by (nonlinear_arith)
        requires
            extra == rest / quotient,
            0 <= rest,
            0 < quotient,
    ;
    assert(whole == (divisor + extra) * quotient + left) by (nonlinear_arith)
        requires
            whole == divisor * quotient + rest,
            rest == quotient * extra + left,
    ;
    lemma_fundamental_div_mod_converse(whole, quotient, divisor + extra, left);
    assert((extra <= 1) == (rest < 2 * quotient)) by (nonlinear_arith)
        requires
            rest == quotient * extra + left,
            0 <= left < quotient,
            0 <= extra,
    ;
}

/// For every tick within the bound, `2^128` divided by the price of the
/// tick exceeds the price of the opposite tick by `reciprocal_excess`, and
/// by no more than one exactly where `reciprocal_within_one` holds.
pub proof fn lemma_opposite_tick_excess(tick: int)
    requires
        tick_in_bounds(tick),
    ensures
        sqrt_ratio_at_tick(tick) > 0,
        reciprocal_excess(tick) >= 0,
        q128() / sqrt_ratio_at_tick(tick) - sqrt_ratio_at_tick(-tick) == reciprocal_excess(tick),
        (reciprocal_excess(tick) <= 1) == reciprocal_within_one(tick),
{
    if tick >= 0 {
        lemma_opposite_tick_is_reciprocal(tick);
    } else {
        let magnitude = vstd::math::abs(tick);
        let ratio = ratio_at_abs_tick(magnitude);
        assert(vstd::math::abs(-tick) == magnitude);
        lemma_ratio_bounds(magnitude);
        lemma_reciprocal_bounded(ratio);
        lemma_divided_by_quotient(q128(), ratio);
    }
}

/// The price of the opposite of a tick is the reciprocal of the tick's
/// price, `2^128` divided by it, to within one unit of the last place, on
/// every tick on which `reciprocal_within_one` holds, and on no other.
pub proof fn lemma_opposite_tick_within_one(tick: int)
    requires
        tick_in_bounds(tick),
    ensures
        sqrt_ratio_at_tick(tick) > 0,
        reciprocal_within_one(tick) <==> 0 <= q128() / sqrt_ratio_at_tick(tick)
            - sqrt_ratio_at_tick(-tick) <= 1,
{
    lemma_opposite_tick_excess(tick);
}

/// From the tick `-NEAR_LIMIT` on, every tick has the price of its
/// opposite within one unit of the reciprocal of its own.
pub proof fn lemma_within_one_near_zero(tick: int)
    requires
        tick_in_bounds(tick),
        tick >= -NEAR_LIMIT,
    ensures
        reciprocal_within_one(tick),
{
    if tick < 0 {
        let magnitude = vstd::math::abs(tick);
        lemma_ratio_bounds(magnitude);
        lemma_ratio_at_near_limit();
        if magnitude < NEAR_LIMIT {
            lemma_ratio_increases(magnitude, NEAR_LIMIT as nat);
        }
        lemma_reciprocal_near(ratio_at_abs_tick(magnitude));
        lemma_opposite_tick_excess(tick);
    }
}

/// Bits that are all clear leave a ratio as it is.
proof fn lemma_ratio_from_zero(bit: nat, ratio: int)
    ensures
        ratio_from(0, bit, ratio) == ratio,
    decreases TICK_BITS - bit,
{
    if bit < TICK_BITS {
        lemma_ratio_from_zero(bit + 1, ratio);
    }
}

/// The ratio of magnitude zero is one.
pub proof fn lemma_ratio_of_zero()
    ensures
        ratio_at_abs_tick(0) == Q64,
        sqrt_ratio_at_tick(0) == Q64,
{
    lemma_ratio_from_zero(0, Q64 as int);
}

/// The price rises with the tick: of two ticks within the bound, the
/// higher has the higher price.
pub proof fn lemma_sqrt_ratio_increases(lower: int, higher: int)
    requires
        tick_in_bounds(lower),
        tick_in_bounds(higher),
        lower < higher,
    ensures
        0 < sqrt_ratio_at_tick(lower) < sqrt_ratio_at_tick(higher),
{
    let below = vstd::math::abs(lower);
    let above = vstd::math::abs(higher);
    lemma_ratio_bounds(below);
    lemma_ratio_bounds(above);
    if lower >= 0 {
        lemma_ratio_increases(below, above);
    } else if higher < 0 {
        lemma_reciprocal_decreases(above, below);
    } else {
        lemma_ratio_of_zero();
        lemma_ratio_increases(0, below);
        lemma_reciprocal_bounded(ratio_at_abs_tick(below));
    }
}

/// The factor of a bit.
fn factor_of(bit: u32) -> (factor: u128)
    requires
        bit < TICK_BITS,
    ensures
        factor == tick_factor(bit as nat),
{
    if bit == 0 {
        0x1_0003_46d6_ff11_672au128
    } else if bit == 1 {
        0x1_0006_8db8_bac7_10cbu128
    } else if bit == 2 {
        0x1_000d_1b9c_68ab_e5f7u128
    } else if bit == 3 {
        0x1_001a_37e4_a234_cb08u128
    } else if bit == 4 {
        0x1_0034_7278_ab0e_92adu128
    } else if bit == 5 {
        0x1_0068_efb0_0a52_5480u128
    } else if bit == 6 {
        0x1_00d2_0a63_b417_3839u128
    } else if bit == 7 {
        0x1_01a4_c11c_742d_d772u128
    } else if bit == 8 {
        0x1_034c_35c3_1f64_cfa6u128
    } else if bit == 9 {
        0x1_06a3_4b78_c8aa_ffbfu128
    } else if bit == 10 {
        0x1_0d72_a6a4_6ccd_8bceu128
    } else if bit == 11 {
        0x1_1b9a_258e_6392_8596u128
    } else if bit == 12 {
        0x1_3a2e_2bda_04f8_379fu128
    } else if bit == 13 {
        0x1_8195_4be6_9e0d_a8feu128
    } else if bit == 14 {
        0x2_44c2_655d_185a_0290u128
    } else if bit == 15 {
        0x5_2581_6eeb_9f93_5b1cu128
    } else if bit == 16 {
        0x1a_7c8d_00b5_5168_4ff4u128
    } else if bit == 17 {
        0x2bd_893d_0b2d_f7c9_7884u128
    } else {
        0x7_8278_e1e1_9e44_8cf8_b95du128
    }
}

/// A ratio times a factor, multiplied in full width and shifted right to
/// Q64.64.
fn scaled(ratio: u128, factor: u128) -> (r: u128)
    requires
        ratio * factor / (Q64 as int) <= u128::MAX,
    ensures
        r == ratio * factor / (Q64 as int),
{
    let product = wide_mul(&wide_from_u128(ratio), &wide_from_u128(factor));
    let shifted = wide_shr(&product, 64);
    proof {
        lemma_pow2_128();
    }
    match wide_to_u128(&shifted) {
        Some(value) => value,
        None => 0,
    }
}

/// The ratio for the magnitude of a tick.
fn ratio_at_magnitude(tick_abs: u32) -> (ratio: u128)
    ensures
        ratio == ratio_at_abs_tick(tick_abs as nat),
        Q64 <= ratio <= max_ratio(),
{
    proof {
        lemma_ratio_bounds(tick_abs as nat);
    }
    let mut ratio: u128 = Q64;
    let mut rest: u32 = tick_abs;
    let mut bit: u32 = 0;
    while bit < TICK_BITS
        invariant
            bit <= TICK_BITS,
            Q64 <= ratio <= ratio_of_ones(bit as nat),
            ratio_from(rest as nat, bit as nat, ratio as int) == ratio_at_abs_tick(tick_abs as nat),
        decreases TICK_BITS - bit,
    {
        proof {
            lemma_tables(bit as nat);
        }
        if rest % 2 == 1 {
            let factor = factor_of(bit);
            proof {
                lemma_scaled_ordered(ratio_of_ones(bit as nat), ratio as int, factor as int);
                lemma_scaled_above(ratio as int, factor as int);
            }
            ratio = scaled(ratio, factor);
        }
        rest = rest / 2;
        bit += 1;
    }
    ratio
}

/// `2^128 / ratio`, computed as `2^256 / ratio` in arbitrary width and cut
/// down to its upper 128 bits.
fn reciprocal(ratio: u128) -> (r: u128)
    requires
        2 <= ratio,
    ensures
        r == q128() / (ratio as int),
{
    let one = wide_from_u128(1);
    let numerator = wide_shl(&one, 256);
    let denominator = wide_from_u128(ratio);
    let quotient = wide_div(&numerator, &denominator);
    let upper = wide_shr(&quotient, 128);
    proof {
        lemma_pow2_128();
        let n = pow2(256) as int;
        lemma_div_denominator(n, ratio as int, q128());
        lemma_div_denominator(n, q128(), ratio as int);
        lemma_mul_is_commutative(ratio as int, q128());
        assert(n / q128() == q128());
        assert(q128() / (ratio as int) <= q128() / 2) by {
            lemma_div_is_ordered_by_denominator(q128(), 2, ratio as int);
        }
    }
    match wide_to_u128(&upper) {
        Some(value) => value,
        None => 0,
    }
}

/// The square-root price of a tick within the bound.
pub(crate) fn sqrt_ratio_in_bounds(tick: i32) -> (r: u128)
    requires
        tick_in_bounds(tick as int),
    ensures
        r == sqrt_ratio_at_tick(tick as int),
        r > 0,
{
    let tick_abs: u32 = if tick < 0 {
        (-tick) as u32
    } else {
        tick as u32
    };
    let ratio = ratio_at_magnitude(tick_abs);
    if tick < 0 {
        proof {
            lemma_reciprocal_bounded(ratio as int);
        }
        reciprocal(ratio)
    } else {
        ratio
    }
}

/// The square-root price `1.0001^(tick / 2)` of a tick as a Q64.64 number.
///
/// The magnitude of the tick is decomposed into bits; the ratio starts from
/// one or the factor of the lowest bit and is multiplied, in full width, by
/// the factor of each further bit that is set. For a negative tick the
/// result is the reciprocal of that ratio. Fails with `InvalidTick` where
/// the magnitude exceeds `TICK_LIMIT`.
pub fn get_sqrt_ratio_at_tick(tick: i32) -> (r: Result<u128, SwapV3Error>)
    ensures
        tick_in_bounds(tick as int) ==> r == Ok::<u128, SwapV3Error>(
            sqrt_ratio_at_tick(tick as int) as u128,
        ) && 0 < sqrt_ratio_at_tick(tick as int) <= u128::MAX,
        !tick_in_bounds(tick as int) ==> r == Err::<u128, SwapV3Error>(SwapV3Error::InvalidTick),
{
    if tick > TICK_LIMIT || tick < -TICK_LIMIT {
        return Err(SwapV3Error::InvalidTick);
    }
    Ok(sqrt_ratio_in_bounds(tick))
}

/// The tick that bisection finds for a price among the ticks from `low` to
/// `high`: the middle tick replaces `low` where its price does not exceed
/// the price sought, and the tick below it replaces `high` where it does.
pub open spec fn tick_between(low: int, high: int, sqrt_price: int) -> int
    decreases high - low,
{
    if low >= high {
        low
    } else {
        let middle = low + (high - low + 1) / 2;
        if sqrt_ratio_at_tick(middle) <= sqrt_price {
            tick_between(middle, high, sqrt_price)
        } else {
            tick_between(low, middle - 1, sqrt_price)
        }
    }
}

/// The tick of a price: what bisection finds over all the ticks within the
/// bound.
pub open spec fn tick_at_sqrt_ratio(sqrt_price: int) -> int {
    tick_between(-TICK_LIMIT as int, TICK_LIMIT as int, sqrt_price)
}

/// Whether a tick holds a price: the price of the tick does not exceed the
/// price, and the price of the next tick does. The lowest tick also holds
/// every price below its own, and the highest every price above.
pub open spec fn tick_holds_price(tick: int, sqrt_price: int) -> bool {
    &&& tick_in_bounds(tick)
    &&& tick > -TICK_LIMIT ==> sqrt_ratio_at_tick(tick) <= sqrt_price
    &&& tick < TICK_LIMIT ==> sqrt_price < sqrt_ratio_at_tick(tick + 1)
}

/// The tick that bisection finds lies between the two ends. Unless it is
/// `low`, its price does not exceed the price sought, and unless it is
/// `high`, the price of the next tick does.
pub proof fn lemma_tick_between(low: int, high: int, sqrt_price: int)
    requires
        low <= high,
    ensures
        low <= tick_between(low, high, sqrt_price) <= high,
        low < tick_between(low, high, sqrt_price) ==> sqrt_ratio_at_tick(
            tick_between(low, high, sqrt_price),
        ) <= sqrt_price,
        tick_between(low, high, sqrt_price) < high ==> sqrt_price < sqrt_ratio_at_tick(
            tick_between(low, high, sqrt_price) + 1,
        ),
    decreases high - low,
{
    if low < high {
        let middle = low + (high - low + 1) / 2;
        if sqrt_ratio_at_tick(middle) <= sqrt_price {
            lemma_tick_between(middle, high, sqrt_price);
        } else {
            lemma_tick_between(low, middle - 1, sqrt_price);
        }
    }
}

/// The price of a tick fits 128 bits and is not zero.
pub proof fn lemma_sqrt_ratio_in_range(tick: int)
    ensures
        0 < sqrt_ratio_at_tick(tick) <= max_ratio(),
{
    lemma_ratio_bounds(vstd::math::abs(tick));
    lemma_reciprocal_bounded(ratio_at_abs_tick(vstd::math::abs(tick)));
}

/// The price rises with the tick, or stays where the ticks are the same.
pub proof fn lemma_sqrt_ratio_ordered(lower: int, higher: int)
    requires
        tick_in_bounds(lower),
        tick_in_bounds(higher),
        lower <= higher,
    ensures
        0 < sqrt_ratio_at_tick(lower) <= sqrt_ratio_at_tick(higher),
{
    if lower < higher {
        lemma_sqrt_ratio_increases(lower, higher);
    } else {
        lemma_sqrt_ratio_in_range(lower);
    }
}

/// The tick of a price holds the price.
pub proof fn lemma_tick_at_sqrt_ratio_holds(sqrt_price: int)
    ensures
        tick_holds_price(tick_at_sqrt_ratio(sqrt_price), sqrt_price),
{
    lemma_tick_between(-TICK_LIMIT as int, TICK_LIMIT as int, sqrt_price);
}

/// One tick at most holds a price.
pub proof fn lemma_one_tick_holds_price(first: int, second: int, sqrt_price: int)
    requires
        tick_holds_price(first, sqrt_price),
        tick_holds_price(second, sqrt_price),
    ensures
        first == second,
{
    if first < second {
        lemma_sqrt_ratio_ordered(first + 1, second);
    }
    if second < first {
        lemma_sqrt_ratio_ordered(second + 1, first);
    }
}

/// The tick of a price is the greatest tick whose price does not exceed
/// it.
pub proof fn lemma_tick_at_sqrt_ratio_is_greatest(tick: int, sqrt_price: int)
    requires
        tick_in_bounds(tick),
        sqrt_ratio_at_tick(tick) <= sqrt_price,
    ensures
        tick <= tick_at_sqrt_ratio(sqrt_price),
{
    lemma_tick_at_sqrt_ratio_holds(sqrt_price);
    let found = tick_at_sqrt_ratio(sqrt_price);
    if found < tick {
        lemma_sqrt_ratio_ordered(found + 1, tick);
    }
}

/// Finds the tick of a price among the ticks from `low` to `high` by
/// bisection.
pub(crate) fn get_tick_between(low: i32, high: i32, sqrt_price: u128) -> (tick: i32)
    requires
        tick_in_bounds(low as int),
        tick_in_bounds(high as int),
    ensures
        tick == tick_between(low as int, high as int, sqrt_price as int),
        low <= high ==> low <= tick <= high,
        low > high ==> tick == low,
{
    let ghost first = low;
    let ghost last = high;
    let mut low = low;
    let mut high = high;
    proof {
        if low <= high {
            lemma_tick_between(low as int, high as int, sqrt_price as int);
        }
    }
    while low < high
        invariant
            tick_in_bounds(low as int),
            tick_in_bounds(high as int),
            tick_between(low as int, high as int, sqrt_price as int) == tick_between(
                first as int,
                last as int,
                sqrt_price as int,
            ),
        decreases high - low,
    {
        let middle = low + (high - low + 1) / 2;
        if sqrt_ratio_in_bounds(middle) <= sqrt_price {
            low = middle;
        } else {
            high = middle - 1;
        }
    }
    low
}

/// Finds the tick of a price: the one tick whose price does not exceed it
/// while the price of the next tick does, by bisection over all the ticks
/// within the bound. A price below that of the lowest tick gives the
/// lowest tick, one above that of the highest the highest.
pub fn get_tick_at_sqrt_ratio(sqrt_price: u128) -> (tick: i32)
    ensures
        tick == tick_at_sqrt_ratio(sqrt_price as int),
        tick_holds_price(tick as int, sqrt_price as int),
{
    proof {
        lemma_tick_between(-TICK_LIMIT as int, TICK_LIMIT as int, sqrt_price as int);
    }
    get_tick_between(-TICK_LIMIT, TICK_LIMIT, sqrt_price)
}

} // verus!
