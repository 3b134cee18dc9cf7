//! Decimal text of an `f32`, given its bit pattern: the text of the decimal the scaling step
//! picks, laid out positionally or in scientific notation.
use crate::bytes::{byte_of, copy_within, fill, le_bytes, read_u64_le, splice, write_u32_le, write_u64_le};
use crate::digits::to_ascii8;
use crate::tables::{
    e10_variable_data, exp_result_float, h37, h37_spec, lemma_pow10_float_bound,
    pow10_float_reverse, pow10_float_reverse_spec, Pow10Float,
};
use crate::text::{dec_digits, pow10, render_digits, sign_text, trim_trailing_zeros, E10_DN, E10_UP};
use crate::bytes::{lemma_and_le, lemma_shr_range, lemma_shr_range128, lemma_word_bytes};
use vstd::arithmetic::power2::{lemma2_to64, lemma2_to64_rest, pow2};
use crate::value::{
    rounded_digit_chars, digits_value, lemma_extended_digits_value, lemma_trimmed_digits_value,
    same_decimal, text_decimal,
};
use crate::magnitude::{
    decimal_exponent_of, floor_log2_pow10, lemma_candidate_near32, lemma_pow2_decimal_exponent,
    lemma_pow2_decimal_exponent_irregular, lemma_pow2_frac_shift, lemma_pow_fracs_positive,
    near_rounding_interval32, pow10_den, pow10_num, pow2_den, pow2_num, lemma_digit_near32,
    near_nearest_digit32, lemma_gap_near32, outside_rounding_interval32,
};
use vstd::arithmetic::div_mod::lemma_fundamental_div_mod_converse;
use vstd::arithmetic::power2::lemma_pow2_adds;
use vstd::prelude::*;

verus! {

/// Biased exponent field of an `f32` bit pattern.
pub open spec fn f32_exp(bits: u32) -> u32 {
    (bits << 1u32) >> 24u32
}

/// Significand field of an `f32` bit pattern.
pub open spec fn f32_sig(bits: u32) -> u32 {
    bits & 0x7F_FFFFu32
}

/// Sign bit of an `f32` bit pattern.
pub open spec fn f32_neg(bits: u32) -> bool {
    bits >> 31u32 == 1
}

/// Fraction width below the significand in the scaled product.
pub const BIT: i32 = 36;

/// ASCII `"00"` placed to come out as the digit after the significand, plus the rounding
/// bias of one half less a little.
pub const C1: u64 = 0x1_8183_FFFF_FFF9;

/// `10^7`.
pub const E7: u32 = 10_000_000;

/// `10^6`.
pub const E6: u32 = 1_000_000;

/// The decimal the `f32` algorithm settles on, before it becomes text.
pub struct Decimal32 {
    /// The significand rounded to the upper end of the rounding interval.
    pub m_up: u32,
    /// Nonzero when the significand alone identifies the value.
    pub up_down: u32,
    /// The ASCII code of the digit after the significand, rounded.
    pub one: u32,
    /// `10^k` is the weight of that digit.
    pub k: i64,
}

/// The integer significand of a finite `f32`.
pub open spec fn significand32(bits: u32) -> u64 {
    if f32_exp(bits) == 0 {
        f32_sig(bits) as u64
    } else {
        (f32_sig(bits) | 0x80_0000u32) as u64
    }
}

/// The binary exponent of a finite `f32`.
pub open spec fn exponent32(bits: u32) -> i64 {
    if f32_exp(bits) == 0 {
        -149i64
    } else {
        (f32_exp(bits) - 150) as i64
    }
}

/// The decimal exponent estimate that picks the power of ten.
pub open spec fn k32(bits: u32) -> i64 {
    if f32_sig(bits) == 0 {
        (((exponent32(bits) * 1233) - 512) as i64) >> 12i64
    } else {
        ((exponent32(bits) * 1233) as i64) >> 12i64
    }
}

/// The shift of the significand before it meets the power of ten.
pub open spec fn shift32(bits: u32) -> u64 {
    if f32_sig(bits) == 0 {
        (37 + exponent32(bits) + ((((k32(bits) * -1701) - 1701) as i64) >> 9i64)) as u64
    } else {
        h37_spec(f32_exp(bits) as u64) as u64
    }
}

/// The significand scaled by the chosen power of ten, with the rounding interval around it.
pub open spec fn decimal32(bits: u32) -> Decimal32 {
    let sig = f32_sig(bits);
    let h37 = shift32(bits);
    let k = k32(bits);
    let pow10_hi = pow10_float_reverse_spec((45 + k) as nat);
    let cb = (significand32(bits) << h37) as u64;
    let hi64 = ((cb as u128 * pow10_hi as u128) as u128 >> 64u128) as u64;
    let half_ulp = ((pow10_hi >> ((65 - h37) as u64)) + ((sig + 1) as u32 & 1u32) as u64) as u64;
    let dot_one_36bit = hi64 & 0xF_FFFF_FFFFu64;
    let m_up = (((hi64 + half_ulp) as u64) >> 36u64) as u32;
    let one0 = (((dot_one_36bit * 5 + C1 + (dot_one_36bit >> 32u64)) as u64) >> 35u64) as u32;
    let exp_bin = exponent32(bits);
    let irregular = sig == 0;
    let up_down = if irregular {
        if m_up > ((((hi64 - (half_ulp >> 1u64)) as u64) >> 36u64) as u32) {
            1u32
        } else {
            0u32
        }
    } else {
        if m_up > ((((hi64 - half_ulp) as u64) >> 36u64) as u32) {
            1u32
        } else {
            0u32
        }
    };
    let one1 = if irregular && (exp_bin == 31 - 150 || exp_bin == 214 - 150 || exp_bin == 217
        - 150) {
        (one0 + 1) as u32
    } else {
        one0
    };
    Decimal32 {
        m_up,
        up_down,
        one: if up_down != 0 {
            48
        } else {
            one1
        },
        k,
    }
}

/// The fields of an `f32` bit pattern, and those of its absolute value.
pub proof fn lemma_f32_fields(bits: u32)
    ensures
        f32_exp(bits) <= 255,
        f32_sig(bits) <= 0x7F_FFFFu32,
        bits >> 31u32 <= 1,
        (f32_sig(bits) as u64) | 0x80_0000u64 == f32_sig(bits) + 0x80_0000,
        f32_sig(bits) | 0x80_0000u32 == f32_sig(bits) + 0x80_0000,
        (((f32_sig(bits) + 1) as u32) & 1u32) <= 1,
        f32_exp(bits & 0x7FFF_FFFFu32) == f32_exp(bits),
        f32_sig(bits & 0x7FFF_FFFFu32) == f32_sig(bits),
        (bits & 0x7FFF_FFFFu32) >> 31u32 == 0,
{
    assert((bits << 1u32) >> 24u32 <= 255 && bits & 0x7F_FFFFu32 <= 0x7F_FFFFu32 && bits >> 31u32
        <= 1 && ((bits & 0x7F_FFFFu32) as u64) | 0x80_0000u64 == (bits & 0x7F_FFFFu32) + 0x80_0000
        && (bits & 0x7F_FFFFu32) | 0x80_0000u32 == (bits & 0x7F_FFFFu32) + 0x80_0000 && ((((bits
        & 0x7F_FFFFu32) + 1) as u32) & 1u32) <= 1 && ((bits & 0x7FFF_FFFFu32) << 1u32) >> 24u32
        == (bits << 1u32) >> 24u32 && (bits & 0x7FFF_FFFFu32) & 0x7F_FFFFu32 == bits
        & 0x7F_FFFFu32 && (bits & 0x7FFF_FFFFu32) >> 31u32 == 0) by (bit_vector);
}

/// The ranges of the decimal exponent estimates and of the shift of the irregular case,
/// over the binary exponents of finite `f32` values.
proof fn lemma_k32_range(e: i64)
    requires
        -149 <= e <= 104,
    ensures
        -45 <= ((e * 1233) as i64) >> 12i64 <= 31,
        e == -149 ==> ((e * 1233) as i64) >> 12i64 == -45,
        -45 <= (((e * 1233) - 512) as i64) >> 12i64 <= 31,
        -3 <= e + ((((((((e * 1233) - 512) as i64) >> 12i64) * -1701) - 1701) as i64) >> 9i64)
            <= 0,
{
    assert(-45 <= ((e * 1233) as i64) >> 12i64 <= 31 && (e == -149 ==> ((e * 1233) as i64)
        >> 12i64 == -45) && -45 <= (((e * 1233) - 512) as i64) >> 12i64 <= 31 && -3 <= e + ((((((((
    e * 1233) - 512) as i64) >> 12i64) * -1701) - 1701) as i64) >> 9i64) <= 0) by (bit_vector)
        requires
            -149 <= e <= 104,
    ;
}

/// The decimal exponent estimates set against the brackets of the powers of ten: `k` picks
/// the `10^k` at or below `2^q`, and the irregular estimate the `10^k` at or below
/// `3/4 * 2^q`.
proof fn lemma_k32_brackets(q: i64)
    requires
        -149 <= q <= 104,
    ensures
        ((((((q * 1233) as i64) >> 12i64) * 217706) - 116) as i64) < ((q * 65536) as i64),
        ((q * 65536) as i64) <= (((((((q * 1233) as i64) >> 12i64) + 1) * 217706) - 116)
            as i64),
        ((((((q * 1233) - 512) as i64) >> 12i64) * 217705 + 26970) as i64) < ((q * 65536)
            as i64),
        ((q * 65536) as i64) <= ((((((((q * 1233) - 512) as i64) >> 12i64) + 1) * 217705)
            + 26970) as i64),
{
    assert(((((((q * 1233) as i64) >> 12i64) * 217706) - 116) as i64) < ((q * 65536) as i64)
        && ((q * 65536) as i64) <= (((((((q * 1233) as i64) >> 12i64) + 1) * 217706) - 116)
        as i64) && ((((((q * 1233) - 512) as i64) >> 12i64) * 217705 + 26970) as i64) < ((q
        * 65536) as i64) && ((q * 65536) as i64) <= ((((((((q * 1233) - 512) as i64) >> 12i64)
        + 1) * 217705) + 26970) as i64)) by (bit_vector)
        requires
            -149 <= q <= 104,
    ;
}

/// The decimal exponent the scaling step picks for a finite nonzero `f32` is that of its
/// binary scale: `10^k <= 2^q < 10^(k + 1)`, and `10^k <= 3/4 * 2^q < 10^(k + 1)` for a
/// power of two, whose rounding interval reaches only half as far below it.
pub proof fn lemma_decimal32_exponent(bits: u32)
    requires
        f32_exp(bits) < 255,
        f32_exp(bits) != 0 || f32_sig(bits) != 0,
    ensures
        f32_sig(bits) != 0 ==> decimal_exponent_of(
            decimal32(bits).k as int,
            pow2_num(exponent32(bits) as int),
            pow2_den(exponent32(bits) as int),
        ),
        f32_sig(bits) == 0 ==> decimal_exponent_of(
            decimal32(bits).k as int,
            3 * pow2_num(exponent32(bits) as int),
            4 * pow2_den(exponent32(bits) as int),
        ),
{
    lemma_f32_fields(bits);
    let q = exponent32(bits);
    lemma_k32_range(q);
    lemma_k32_brackets(q);
    let k = decimal32(bits).k;
    if f32_sig(bits) != 0 {
        assert(k == ((q * 1233) as i64) >> 12i64);
        lemma_pow2_decimal_exponent(k as int, q as int);
    } else {
        assert(k == (((q * 1233) - 512) as i64) >> 12i64);
        lemma_pow2_decimal_exponent_irregular(k as int, q as int);
    }
}

/// The `f32` table entry for `10^j` is the exact power scaled into `[2^63, 2^64)` and rounded
/// up: `x <= phi <= x + 1` for `x = 10^j * 2^(63 - e)` and `e = floor(log2(10^j))`.
pub open spec fn pow10_float_accurate(j: int) -> bool {
    let phi = pow10_float_reverse_spec((44 - j) as nat) as int;
    let e = floor_log2_pow10(j);
    let xn = pow10_num(j) * pow2_num(63 - e);
    let xd = pow10_den(j) * pow2_den(63 - e);
    xn <= phi * xd && phi * xd <= xn + xd
}

/// The estimates and shifts of `f32` in exact arithmetic: the regular `k` is
/// `floor(q * 1233 / 2^12)`, and both shifts are `q + floor(log2(10^-(k + 1))) + 37`.
proof fn lemma_shift32(q: i64)
    requires
        -149 <= q <= 104,
    ensures
        (((q * 1233) as i64) >> 12i64) as int == (q * 1233) / 4096,
        ({
            let k = (((q * 1233) - 512) as i64) >> 12i64;
            ((((k * -1701) - 1701) as i64) >> 9i64) as int == floor_log2_pow10(-(k + 1))
        }),
        ({
            let q32 = q as i32;
            let k = ((q32 * 1233) as i32) >> 12i32;
            &&& k as int == (q * 1233) / 4096
            &&& ((((k * -1701) - 1701) as i32) >> 9i32) as int == floor_log2_pow10(-(k + 1))
        }),
{
    let k = ((q * 1233) as i64) >> 12i64;
    let ki = (((q * 1233) - 512) as i64) >> 12i64;
    let ti = (((ki * -1701) - 1701) as i64) >> 9i64;
    let xi = (((-ki - 1) * 217706) - 116) as i64;
    assert(-50 <= k <= 50 && -50 <= ki <= 50 && -200 <= ti <= 200 && ((k * 4096) as i64) <= ((q
        * 1233) as i64) && ((q * 1233) as i64) < (((k * 4096) + 4096) as i64) && (ki == -1 ==> ti
        == 0) && (ki != -1 ==> ((ti * 65536) as i64) <= xi && xi < (((ti * 65536) + 65536)
        as i64))) by (bit_vector)
        requires
            -149 <= q <= 104,
            k == ((q * 1233) as i64) >> 12i64,
            ki == (((q * 1233) - 512) as i64) >> 12i64,
            ti == (((ki * -1701) - 1701) as i64) >> 9i64,
            xi == (((-ki - 1) * 217706) - 116) as i64,
    ;
    lemma_fundamental_div_mod_converse(q * 1233, 4096, k as int, q * 1233 - k * 4096);
    if ki != -1 {
        lemma_fundamental_div_mod_converse(xi as int, 65536, ti as int, xi - ti * 65536);
    }
    let q32 = q as i32;
    let k32 = ((q32 * 1233) as i32) >> 12i32;
    let t32 = (((k32 * -1701) - 1701) as i32) >> 9i32;
    let x32 = (((-k32 - 1) * 217706) - 116) as i32;
    assert(-50 <= k32 <= 50 && -200 <= t32 <= 200 && ((k32 * 4096) as i32) <= ((q32 * 1233) as i32)
        && ((q32 * 1233) as i32) < (((k32 * 4096) + 4096) as i32) && (k32 == -1 ==> t32 == 0) && (
    k32 != -1 ==> ((t32 * 65536) as i32) <= x32 && x32 < (((t32 * 65536) + 65536) as i32)))
        by (bit_vector)
        requires
            -149 <= q32 <= 104,
            k32 == ((q32 * 1233) as i32) >> 12i32,
            t32 == (((k32 * -1701) - 1701) as i32) >> 9i32,
            x32 == (((-k32 - 1) * 217706) - 116) as i32,
    ;
    lemma_fundamental_div_mod_converse(q * 1233, 4096, k32 as int, q * 1233 - k32 * 4096);
    if k32 != -1 {
        lemma_fundamental_div_mod_converse(x32 as int, 65536, t32 as int, x32 - t32 * 65536);
    }
}

/// The words of the `f32` computation in exact arithmetic: `hi64` is `cb * phi / 2^64`
/// rounded down, `half_ulp` is `phi / 2^(65 - h37)` rounded down plus at most one, and
/// `m_up * 2^36` is at most `hi64 + half_ulp`.
#[verifier::rlimit(60)]
proof fn lemma_words32(c: u64, h37: u64, phi: u64, par: u64)
    requires
        c < 0x100_0000,
        33 <= h37 <= 37,
        par <= 1,
    ensures
        ({
            let cb = (c << h37) as u64;
            let hi64 = ((cb as u128 * phi as u128) as u128 >> 64u128) as u64;
            let hf = phi >> ((65 - h37) as u64);
            let half_ulp = ((phi >> ((65 - h37) as u64)) + par) as u64;
            let m_up = (((hi64 + half_ulp) as u64) >> 36u64) as u32;
            &&& cb == c * pow2(h37 as nat)
            &&& cb < 0x2000_0000_0000_0000
            &&& hi64 * 0x1_0000_0000_0000_0000 <= cb * phi
            &&& cb * phi < (hi64 + 1) * 0x1_0000_0000_0000_0000
            &&& hi64 < 0x2000_0000_0000_0000
            &&& hf * pow2((65 - h37) as nat) <= phi
            &&& phi < (hf + 1) * pow2((65 - h37) as nat)
            &&& half_ulp == hf + par
            &&& m_up * 0x10_0000_0000 <= hi64 + half_ulp
            &&& hi64 + half_ulp < (m_up + 1) * 0x10_0000_0000
            &&& (half_ulp >> 1u64) * 2 <= half_ulp < (half_ulp >> 1u64) * 2 + 2
        }),
{
    lemma2_to64();
    lemma2_to64_rest();
    assert(0x2_0000_0000 <= pow2(h37 as nat) <= 0x20_0000_0000) by {
        if h37 == 33 {
        } else if h37 == 34 {
        } else if h37 == 35 {
        } else if h37 == 36 {
        } else {
        }
    }
    assert(c * pow2(h37 as nat) < 0x2000_0000_0000_0000) by (nonlinear_arith)
        requires
            c < 0x100_0000,
            pow2(h37 as nat) <= 0x20_0000_0000,
    ;
    vstd::bits::lemma_u64_shl_is_mul(c, h37);
    let cb = (c << h37) as u64;
    let b: int = 0x1_0000_0000_0000_0000;
    assert(cb * phi < 0x2000_0000_0000_0000 * b) by (nonlinear_arith)
        requires
            cb < 0x2000_0000_0000_0000u64,
            phi < b,
            b == 0x1_0000_0000_0000_0000int,
    ;
    let x = (cb as u128 * phi as u128) as u128;
    vstd::bits::lemma_u128_shr_is_div(x, 64);
    vstd::arithmetic::div_mod::lemma_fundamental_div_mod(x as int, b);
    vstd::arithmetic::div_mod::lemma_mod_pos_bound(x as int, b);
    let hi64 = (x >> 64u128) as u64;
    assert(x >> 64u128 < 0x2000_0000_0000_0000);
    let s = (65 - h37) as u64;
    let gg = pow2(s as nat);
    assert(0x1000_0000 <= gg <= 0x1_0000_0000) by {
        if h37 == 33 {
        } else if h37 == 34 {
        } else if h37 == 35 {
        } else if h37 == 36 {
        } else {
        }
    }
    vstd::bits::lemma_u64_shr_is_div(phi, s);
    vstd::arithmetic::div_mod::lemma_fundamental_div_mod(phi as int, gg as int);
    vstd::arithmetic::div_mod::lemma_mod_pos_bound(phi as int, gg as int);
    let hf = phi >> s;
    assert(hf * gg <= phi < (hf + 1) * gg);
    assert(hf < 0x10_0000_0000) by (nonlinear_arith)
        requires
            hf * gg <= phi,
            gg >= 0x1000_0000,
            phi < 0x1_0000_0000_0000_0000int,
    ;
    let half_ulp = (hf + par) as u64;
    let z = (hi64 + half_ulp) as u64;
    vstd::bits::lemma_u64_shr_is_div(z, 36);
    vstd::arithmetic::div_mod::lemma_fundamental_div_mod(z as int, 0x10_0000_0000);
    vstd::arithmetic::div_mod::lemma_mod_pos_bound(z as int, 0x10_0000_0000);
    assert(z >> 36u64 < 0x1_0000_0000);
    vstd::bits::lemma_u64_shr_is_div(half_ulp, 1);
}

/// Round trip for a finite nonzero `f32` `v = c * 2^q`, whose rounding interval reaches
/// `2^(q - 1)` above it and as far below it, or half as far for a power of two, given that
/// the table entry for `10^-(k + 1)` is accurate: when the scaling step keeps the
/// significand alone (`up_down != 0`), `m_up * 10^(k + 1)` lies in that interval, up to
/// `10^(k + 1) / 2^34`; otherwise neither `m_up` nor `m_up + 1` does, up to the same, and,
/// when `v` is not a power of two, the significand extended by its digit is `v` rounded to a
/// multiple of `10^k`, up to `10^k / 2^30`.
#[verifier::rlimit(60)]
pub proof fn lemma_decimal32_interval(bits: u32)
    requires
        f32_exp(bits) < 255,
        f32_exp(bits) != 0 || f32_sig(bits) != 0,
        pow10_float_accurate(-(decimal32(bits).k + 1)),
    ensures
        decimal32(bits).up_down != 0 ==> near_rounding_interval32(
            decimal32(bits).m_up as int,
            significand32(bits) as int,
            if f32_sig(bits) == 0 {
                1
            } else {
                2
            },
            (pow2_num(exponent32(bits) as int) * pow10_den(decimal32(bits).k + 1)) as int,
            (pow2_den(exponent32(bits) as int) * pow10_num(decimal32(bits).k + 1)) as int,
        ),
        decimal32(bits).up_down == 0 ==> outside_rounding_interval32(
            decimal32(bits).m_up as int,
            significand32(bits) as int,
            if f32_sig(bits) == 0 {
                1
            } else {
                2
            },
            (pow2_num(exponent32(bits) as int) * pow10_den(decimal32(bits).k + 1)) as int,
            (pow2_den(exponent32(bits) as int) * pow10_num(decimal32(bits).k + 1)) as int,
        ),
        decimal32(bits).up_down == 0 && f32_sig(bits) != 0 ==> near_nearest_digit32(
            10 * decimal32(bits).m_up + ((decimal32(bits).one as u8) - 48),
            significand32(bits) as int,
            (pow2_num(exponent32(bits) as int) * pow10_den(decimal32(bits).k + 1)) as int,
            (pow2_den(exponent32(bits) as int) * pow10_num(decimal32(bits).k + 1)) as int,
        ),
{
    lemma_f32_fields(bits);
    let sig = f32_sig(bits);
    let exp = f32_exp(bits);
    let q = exponent32(bits);
    lemma_k32_range(q);
    lemma_shift32(q);
    let d = decimal32(bits);
    let k = d.k;
    let j = -(k + 1);
    let h37 = shift32(bits);
    let ee = floor_log2_pow10(j);
    if sig == 0 {
        assert(k == (((q * 1233) - 512) as i64) >> 12i64);
    } else {
        let eb = (exp - 150 + (if exp == 0 {
            1int
        } else {
            0int
        })) as i32;
        assert(eb == q as i32);
        assert(h37 == h37_spec(exp as u64));
    }
    assert(h37 == q + ee + 37);
    let c = significand32(bits);
    let phi = pow10_float_reverse_spec((45 + k) as nat);
    assert((45 + k) as nat == (44 - j) as nat);
    let par = ((sig + 1) as u32 & 1u32) as u64;
    lemma_and_le(((sig + 1) as u32 & 1u32) as u64, 1);
    lemma_words32(c, h37, phi, par);
    lemma_pow10_float_bound((45 + k) as nat);
    let cb = (c << h37) as u64;
    let hi64 = ((cb as u128 * phi as u128) as u128 >> 64u128) as u64;
    let half_ulp = ((phi >> ((65 - h37) as u64)) + par) as u64;
    let low = if sig == 0 {
        half_ulp >> 1u64
    } else {
        half_ulp
    };
    let m_up = (((hi64 + half_ulp) as u64) >> 36u64) as u32;
    assert(d.m_up == m_up);
    let xn = pow10_num(j) * pow2_num(63 - ee);
    let xd = pow10_den(j) * pow2_den(63 - ee);
    let gg = pow2((65 - h37) as nat);
    lemma_pow_fracs_positive(63 - ee, j);
    lemma_pow_fracs_positive(q as int, j);
    assert(xd > 0 && xn > 0) by (nonlinear_arith)
        requires
            xd == pow10_den(j) * pow2_den(63 - ee),
            xn == pow10_num(j) * pow2_num(63 - ee),
            pow10_den(j) > 0,
            pow2_den(63 - ee) > 0,
            pow10_num(j) > 0,
            pow2_num(63 - ee) > 0,
    ;
    lemma2_to64();
    lemma2_to64_rest();
    lemma_pow2_adds(h37 as nat, (65 - h37) as nat);
    lemma_pow2_adds(64, 1);
    assert(pow2(65) == 2 * 0x1_0000_0000_0000_0000);
    assert(cb * gg == 2 * c * 0x1_0000_0000_0000_0000) by (nonlinear_arith)
        requires
            cb == c * pow2(h37 as nat),
            pow2(h37 as nat) * gg == 2 * 0x1_0000_0000_0000_0000,
    ;
    let bb = (100 - h37) as int;
    lemma_pow2_frac_shift(q as int, bb);
    assert(q + bb == 63 - ee);
    lemma_pow2_adds((65 - h37) as nat, 35);
    let wn = pow2_num(q as int) * pow10_num(j);
    let wd = pow2_den(q as int) * pow10_den(j);
    assert(xn * wd == wn * xd * gg * 0x8_0000_0000) by (nonlinear_arith)
        requires
            pow2_num(63 - ee) * pow2_den(q as int) == pow2_num(q as int) * pow2(bb as nat)
                * pow2_den(63 - ee),
            pow2(bb as nat) == gg * 0x8_0000_0000,
            wn == pow2_num(q as int) * pow10_num(j),
            wd == pow2_den(q as int) * pow10_den(j),
            xn == pow10_num(j) * pow2_num(63 - ee),
            xd == pow10_den(j) * pow2_den(63 - ee),
    ;
    assert(wd > 0) by (nonlinear_arith)
        requires
            wd == pow2_den(q as int) * pow10_den(j),
            pow10_den(j) > 0,
            pow2_den(q as int) > 0,
    ;
    if d.up_down != 0 {
        assert(m_up > ((((hi64 - low) as u64) >> 36u64) as u32));
        if hi64 >= low {
            let z = (hi64 - low) as u64;
            vstd::bits::lemma_u64_shr_is_div(z, 36);
            vstd::arithmetic::div_mod::lemma_fundamental_div_mod(z as int, 0x10_0000_0000);
            vstd::arithmetic::div_mod::lemma_mod_pos_bound(z as int, 0x10_0000_0000);
            lemma_shr_range(z, 36, 0, 0x2000_0000);
            assert(z >> 36u64 < 0x1_0000_0000);
            assert(m_up * 0x10_0000_0000 >= ((z >> 36u64) + 1) * 0x10_0000_0000);
        }
        lemma_candidate_near32(
            m_up as int,
            c as int,
            if sig == 0 {
                1
            } else {
                2
            },
            hi64 as int,
            half_ulp as int,
            low as int,
            cb as int,
            phi as int,
            (phi >> ((65 - h37) as u64)) as int,
            gg as int,
            xn as int,
            xd as int,
            wn as int,
            wd as int,
        );
    } else {
        let hf = phi >> ((65 - h37) as u64);
        let pp = pow2(h37 as nat);
        if c == 1 {
            assert(sig == 1);
            assert((2u32 & 1u32) == 0) by (bit_vector);
            assert(par == 0);
        }
        assert(hi64 >= half_ulp) by (nonlinear_arith)
            requires
                hi64 * 0x1_0000_0000_0000_0000 + 0x1_0000_0000_0000_0000 > cb * phi,
                cb == c * pp,
                c >= 1,
                phi >= 0x8000_0000_0000_0000u64,
                pp * gg == 2 * 0x1_0000_0000_0000_0000,
                pp >= 0x2_0000_0000,
                pp % 2 == 0,
                hf * gg <= phi,
                phi < 0x1_0000_0000_0000_0000int,
                half_ulp == hf + par,
                c == 1 ==> par == 0,
                par <= 1,
        ;
        let z = (hi64 - low) as u64;
        vstd::bits::lemma_u64_shr_is_div(z, 36);
        vstd::arithmetic::div_mod::lemma_fundamental_div_mod(z as int, 0x10_0000_0000);
        vstd::arithmetic::div_mod::lemma_mod_pos_bound(z as int, 0x10_0000_0000);
        lemma_shr_range(z, 36, 0, 0x2000_0000);
        assert(m_up * 0x10_0000_0000 <= hi64 - low);
        lemma_gap_near32(
            m_up as int,
            c as int,
            if sig == 0 {
                1
            } else {
                2
            },
            hi64 as int,
            half_ulp as int,
            low as int,
            cb as int,
            phi as int,
            hf as int,
            gg as int,
            xn as int,
            xd as int,
            wn as int,
            wd as int,
        );
        if sig != 0 {
            let dot = hi64 & 0xF_FFFF_FFFFu64;
            assert(hi64 == (hi64 >> 36u64) * 0x10_0000_0000u64 + dot && dot < 0x10_0000_0000u64
                && (dot >> 32u64) < 16) by (bit_vector)
                requires
                    dot == hi64 & 0xF_FFFF_FFFFu64,
            ;
            assert(m_up == hi64 >> 36u64);
            let w = (dot * 5 + C1 + (dot >> 32u64)) as u64;
            vstd::bits::lemma_u64_shr_is_div(w, 35);
            vstd::arithmetic::div_mod::lemma_fundamental_div_mod(w as int, 0x8_0000_0000);
            vstd::arithmetic::div_mod::lemma_mod_pos_bound(w as int, 0x8_0000_0000);
            let one0 = (w >> 35u64) as u32;
            assert(0x3030 <= w >> 35u64 <= 0x303B);
            assert(d.one == one0);
            assert(((one0 as u8) as u32) == (one0 - 0x3000u32) as u32) by (bit_vector)
                requires
                    0x3030 <= one0 <= 0x303B,
            ;
            lemma_digit_near32(
                hi64 as int,
                m_up as int,
                dot as int,
                (one0 - 0x3030) as int,
                cb as int,
                phi as int,
                gg as int,
                xn as int,
                xd as int,
                c as int,
                wn as int,
                wd as int,
            );
        }
    }
    assert(pow10(0) == 1);
    assert(pow10_num(j) == pow10_den(k + 1) && pow10_den(j) == pow10_num(k + 1));
}

/// Runs the scaling step for a finite nonzero `f32`.
pub fn decimal_float(table: Option<&Pow10Float>, bits: u32) -> (d: Decimal32)
    requires
        table matches Some(t) ==> t.wf(),
        f32_exp(bits) < 255,
        f32_exp(bits) != 0 || f32_sig(bits) != 0,
    ensures
        d == decimal32(bits),
        d.m_up <= 0x200_0001u32,
        f32_exp(bits) != 0 ==> d.m_up >= 0x8_0000u32,
        f32_exp(bits) == 0 ==> d.k == -45,
        -45 <= d.k <= 31,
        d.one == 48 || 0x3030 <= d.one <= 0x303B,
        d.up_down != 0 ==> d.one == 48,
        f32_sig(bits) != 0 ==> decimal_exponent_of(
            d.k as int,
            pow2_num(exponent32(bits) as int),
            pow2_den(exponent32(bits) as int),
        ),
        f32_sig(bits) == 0 ==> decimal_exponent_of(
            d.k as int,
            3 * pow2_num(exponent32(bits) as int),
            4 * pow2_den(exponent32(bits) as int),
        ),
{
    let sig = bits & 0x7F_FFFF;
    let exp = ((bits << 1) >> 24) as u64;
    proof {
        lemma_f32_fields(bits);
        lemma2_to64();
        lemma2_to64_rest();
    }
    let mut sig_bin = sig as u64 | 0x80_0000;
    let mut exp_bin = exp as i64 - 150;
    if exp == 0 {
        exp_bin = 1 - 150;
        sig_bin = sig as u64;
    }
    let mut h37_precalc = h37(exp) as u32;
    let irregular = sig == 0;
    proof {
        lemma_k32_range(exp_bin);
    }
    let mut k = (exp_bin * 1233) >> 12;
    if irregular {
        k = (exp_bin * 1233 - 512) >> 12;
        let t = (k * -1701 - 1701) >> 9;
        h37_precalc = ((BIT + 1) as i64 + exp_bin + t) as u32;
    }
    let pow10_hi = match table {
        Some(t) => t.get((45 + k) as usize),
        None => pow10_float_reverse((45 + k) as usize),
    };
    let sh = h37_precalc as u64;
    proof {
        assert(33 <= sh <= 37);
        assert(sig_bin < 0x100_0000u64);
        assert(0x2_0000_0000 <= pow2(sh as nat) <= 0x20_0000_0000) by {
            if sh == 33 {
            } else if sh == 34 {
            } else if sh == 35 {
            } else if sh == 36 {
            } else {
            }
        }
        assert(sig_bin * pow2(sh as nat) < 0x2000_0000_0000_0000) by (nonlinear_arith)
            requires
                sig_bin < 0x100_0000u64,
                pow2(sh as nat) <= 0x20_0000_0000,
        ;
        vstd::bits::lemma_u64_shl_is_mul(sig_bin, sh);
    }
    let cb = sig_bin << sh;
    proof {
        assert((cb as u128) * (pow10_hi as u128) < 0x2000_0000_0000_0000_0000_0000_0000_0000u128)
            by (nonlinear_arith)
            requires
                cb < 0x2000_0000_0000_0000u64,
        ;
    }
    let hi64 = (cb as u128 * pow10_hi as u128 >> 64) as u64;
    proof {
        let x = (cb as u128 * pow10_hi as u128) as u128;
        let ph = pow2((sh - 1) as nat);
        vstd::arithmetic::power2::lemma_pow2_unfold(sh as nat);
        vstd::arithmetic::power2::lemma_pow2_adds((sh - 1) as nat, (65 - sh) as nat);
        assert(x >= pow2(sh as nat) * 0x8000_0000_0000_0000) by (nonlinear_arith)
            requires
                x == cb * pow10_hi,
                cb == sig_bin * pow2(sh as nat),
                sig_bin >= 1,
                pow10_hi >= 0x8000_0000_0000_0000u64,
        ;
        lemma_shr_range128(x, 64, ph as int, 0x2000_0000_0000_0000);
        lemma_shr_range(pow10_hi, (65 - sh) as u64, 0, ph as int);
        if exp != 0 {
            assert(x >= 0x80_0000_0000_0000_0000_0000_0000_0000) by (nonlinear_arith)
                requires
                    x == cb * pow10_hi,
                    cb == sig_bin * pow2(sh as nat),
                    sig_bin >= 0x80_0000,
                    pow2(sh as nat) >= 0x2_0000_0000,
                    pow10_hi >= 0x8000_0000_0000_0000u64,
            ;
            lemma_shr_range128(x, 64, 0x80_0000_0000_0000, 0x2000_0000_0000_0000);
        }
    }
    let half_ulp = (pow10_hi >> (65 - h37_precalc)) + ((sig + 1) & 1) as u64;
    let dot_one_36bit = hi64 & 0xF_FFFF_FFFF;
    let m_up = ((hi64 + half_ulp) >> BIT) as u32;
    proof {
        lemma_shr_range((hi64 + half_ulp) as u64, 36, 0, 0x200_0002);
        if exp != 0 {
            lemma_shr_range((hi64 + half_ulp) as u64, 36, 0x8_0000, 0x200_0002);
        }
        lemma_and_le(hi64, 0xF_FFFF_FFFF);
        lemma_shr_range(dot_one_36bit, 32, 0, 16);
        lemma_shr_range(
            (dot_one_36bit * 5 + C1 + (dot_one_36bit >> 32u64)) as u64,
            35,
            0x3030,
            0x303B,
        );
    }
    let mut up_down = (m_up > ((hi64 - half_ulp) >> BIT) as u32) as u32;
    let mut one = ((dot_one_36bit * 5 + C1 + (dot_one_36bit >> (BIT - 4))) >> (BIT - 1)) as u32;
    if irregular {
        if exp_bin == 31 - 150 || exp_bin == 214 - 150 || exp_bin == 217 - 150 {
            one += 1;
        }
        proof {
            lemma_shr_range(half_ulp, 1, 0, half_ulp + 1);
        }
        up_down = (m_up > ((hi64 - (half_ulp >> 1)) >> BIT) as u32) as u32;
    }
    if E10_UP >= MAX_DEC_SIG_LEN as i64 - 2 {
        one = if up_down != 0 {
            48
        } else {
            one
        };
    }
    proof {
        lemma_decimal32_exponent(bits);
    }
    Decimal32 { m_up, up_down, one, k }
}

/// Digits the table of positions for `f32` provides for.
pub const MAX_DEC_SIG_LEN: usize = 9;

/// Leading zeros the significand `m_up` of an `f32` has among eight digits, up to two.
pub open spec fn lz_of(m_up: u32) -> nat {
    (if m_up < E7 {
        1nat
    } else {
        0nat
    }) + (if m_up < E6 {
        1nat
    } else {
        0nat
    })
}

/// The significant digits printed for the decimal `d`, most significant first.
pub open spec fn sig_digits32(d: Decimal32) -> Seq<u8> {
    let n = (8 - lz_of(d.m_up)) as nat;
    if d.up_down != 0 {
        trim_trailing_zeros(dec_digits(d.m_up as nat, n))
    } else {
        dec_digits(d.m_up as nat, n).push(d.one as u8)
    }
}

/// The weight exponent of the first of `sig_digits32(d)`.
pub open spec fn first_e10_32(d: Decimal32) -> int {
    d.k + 8 - lz_of(d.m_up)
}

/// The significant digits the algorithm prints for a finite nonzero `f32`.
pub open spec fn digits32(bits: u32) -> Seq<u8> {
    sig_digits32(decimal32(bits))
}

/// The weight exponent of the first of `digits32(bits)`.
pub open spec fn e10_32(bits: u32) -> int {
    first_e10_32(decimal32(bits))
}

/// The text `xjb32` writes for the `f32` with bit pattern `bits`.
///
/// `0.0`, `inf` and `NaN` are fixed; other values are their digits rendered with
/// `render_digits`. A set sign bit puts `-` in front, also of zero and NaN.
pub open spec fn format32(bits: u32) -> Seq<u8> {
    let exp = f32_exp(bits);
    let sig = f32_sig(bits);
    sign_text(f32_neg(bits)) + if exp == 0 && sig == 0 {
        seq![48u8, 46u8, 48u8]
    } else if exp == 255 {
        if sig == 0 {
            seq![105u8, 110u8, 102u8]
        } else {
            seq![78u8, 97u8, 78u8]
        }
    } else {
        render_digits(digits32(bits), e10_32(bits))
    }
}

/// Facts about the significant digits of `d`.
proof fn lemma_sig_digits32(d: Decimal32)
    requires
        d.m_up <= 0x200_0001u32,
        d.one == 48 || 0x3030 <= d.one <= 0x303B,
        d.up_down != 0 ==> d.one == 48,
    ensures
        1 <= sig_digits32(d).len() <= 9,
        forall|i: int|
            0 <= i < sig_digits32(d).len() ==> 0x30 <= #[trigger] sig_digits32(d)[i] <= 0x3B,
        d.m_up >= 100000 ==> sig_digits32(d)[0] != 48u8,
        d.m_up < 100000 ==> sig_digits32(d)[0] == 48u8 && lz_of(d.m_up) == 2,
        (d.one as u8) == (if d.up_down != 0 {
            48u8
        } else {
            d.one as u8
        }),
        0x30 <= (d.one as u8) <= 0x3B,
{
    crate::digits::lemma_pow10_values();
    let m = d.m_up;
    let n = (8 - lz_of(m)) as nat;
    let digits = dec_digits(m as nat, n);
    crate::text::lemma_dec_digits_len(m as nat, n);
    crate::text::lemma_dec_digits_chars(m as nat, n);
    crate::text::lemma_trim_trailing_zeros_prefix(digits);
    let one = d.one;
    assert(0x30 <= (one as u8) <= 0x3B) by (bit_vector)
        requires
            one == 48 || 0x3030 <= one <= 0x303B,
    ;
    crate::text::lemma_dec_digits_split(m as nat, 1, (n - 1) as nat);
    let x = m as nat / pow10((n - 1) as nat);
    assert(dec_digits(x, 1) == seq![crate::text::digit_char(x % 10)]) by {
        reveal_with_fuel(dec_digits, 2);
    }
    assert(digits[0] == crate::text::digit_char(x % 10));
    if m >= E7 {
        assert(1 <= x < 10) by (nonlinear_arith)
            requires
                x == m as nat / 10000000nat,
                10000000 <= m <= 0x200_0001u32,
        ;
    } else if m >= E6 {
        assert(1 <= x < 10) by (nonlinear_arith)
            requires
                x == m as nat / 1000000nat,
                1000000 <= m < 10000000,
        ;
    } else if m >= 100000 {
        assert(1 <= x < 10) by (nonlinear_arith)
            requires
                x == m as nat / 100000nat,
                100000 <= m < 1000000,
        ;
    } else {
        assert(x == 0) by (nonlinear_arith)
            requires
                x == m as nat / 100000nat,
                m < 100000,
        ;
    }
    assert(sig_digits32(d)[0] == digits[0]);
    assert forall|i: int|
        0 <= i < sig_digits32(d).len() implies 0x30 <= #[trigger] sig_digits32(d)[i] <= 0x3B by {
        if d.up_down == 0 && i == n {
        } else {
            assert(sig_digits32(d)[i] == digits[i]);
        }
    }
}

/// The decimal the scaling step settles on, as `(n, x)` for `n * 10^x`: the significand
/// followed by the rounded next digit, or the significand alone when `up_down` is set.
pub open spec fn decimal32_value(d: Decimal32) -> (int, int) {
    if d.up_down != 0 {
        (d.m_up as int, d.k + 1)
    } else {
        (10 * d.m_up + ((d.one as u8) - 48), d.k as int)
    }
}

/// The significant digits printed for `d` spell its value, with the first digit of
/// weight `10^first_e10_32(d)`.
pub proof fn lemma_sig_digits32_value(d: Decimal32)
    requires
        d.m_up <= 0x200_0001u32,
        d.one == 48 || 0x3030 <= d.one <= 0x303B,
        d.up_down != 0 ==> d.one == 48,
    ensures
        1 <= sig_digits32(d).len() <= 9,
        rounded_digit_chars(sig_digits32(d)),
        same_decimal(
            (digits_value(sig_digits32(d)), first_e10_32(d) + 1 - sig_digits32(d).len()),
            decimal32_value(d),
        ),
{
    lemma_sig_digits32(d);
    let m = d.m_up as nat;
    let n = (8 - lz_of(d.m_up)) as nat;
    crate::digits::lemma_pow10_values();
    crate::text::lemma_dec_digits_len(m, n);
    assert(m < pow10(n)) by {
        if lz_of(d.m_up) == 0 {
        } else if lz_of(d.m_up) == 1 {
        } else {
        }
    }
    if d.up_down != 0 {
        crate::text::lemma_trim_trailing_zeros_prefix(dec_digits(m, n));
        lemma_trimmed_digits_value(m, n, d.k as int);
    } else {
        lemma_extended_digits_value(m, n, d.one as u8, d.k as int);
    }
}

/// Writes the significant digits of `d` into the 24 bytes at `base`, shifted right by the
/// offset their decimal exponent calls for, and works out the layout positions.
#[verifier::rlimit(60)]
fn place_digits32(buf: &mut [u8], base: usize, d: &Decimal32) -> (r: (
    usize,
    u8,
    u8,
    u8,
    usize,
    u64,
))
    requires
        base <= 1,
        old(buf)@.len() >= 32,
        d.m_up <= 0x200_0001u32,
        d.one == 48 || 0x3030 <= d.one <= 0x303B,
        d.up_down != 0 ==> d.one == 48,
        -45 <= d.k <= 31,
    ensures
        final(buf)@.len() == old(buf)@.len(),
        forall|i: int| 0 <= i < base ==> #[trigger] final(buf)@[i] == old(buf)@[i],
        forall|i: int| 32 <= i < final(buf)@.len() ==> #[trigger] final(buf)@[i] == old(buf)@[i],
        r.4 == sig_digits32(*d).len(),
        1 <= r.4 <= 9,
        r.0 as int == crate::tables::first_sig_pos_spec(first_e10_32(*d)),
        r.1 as int == crate::tables::dot_pos_spec(first_e10_32(*d)),
        r.2 as int == crate::tables::move_pos_spec(first_e10_32(*d)),
        r.3 as int == crate::tables::exp_pos_spec(first_e10_32(*d), r.4 as int),
        r.5 == if E10_DN <= first_e10_32(*d) <= E10_UP {
            0
        } else {
            crate::text::exponent_text(first_e10_32(*d)).len()
        },
        final(buf)@.subrange(base as int, base + 24) == crate::text::zeros(r.0 as nat)
            + sig_digits32(*d) + crate::text::zeros((24 - r.0 - r.4) as nat),
{
    let m_up = d.m_up;
    let up_down = d.up_down;
    let one = d.one;
    let lz = (m_up < E7) as u32 + (m_up < E6) as u32;
    proof {
        crate::digits::lemma_pow10_values();
        lemma_sig_digits32(*d);
    }
    fill(buf, base, 24, 48u8);
    let s = to_ascii8(m_up as u64, up_down, lz);
    let e10 = d.k + (8 - lz as i64);
    let interval: u64 = (E10_UP - E10_DN + 1) as u64;
    let e10_3 = (e10 + -E10_DN) as u64;
    let e10_data_ofs = if e10_3 < interval {
        e10_3
    } else {
        interval
    };
    proof {
        if e10 < -6 {
            crate::bytes::lemma_negative_as_u64((e10 + 6) as i64);
        }
        if e10 < 0 {
            crate::bytes::lemma_negative_as_u64(e10);
        }
        crate::bytes::lemma_negative_as_u64(-9i64);
        let t = crate::text::exponent_text(e10 as int);
        let a = (if e10 < 0 {
            -(e10 as int)
        } else {
            e10 as int
        }) as nat;
        crate::text::lemma_decimal_text_small(a);
    }
    let exp_len: u64 = if e10_3 >= interval {
        if (e10 as u64) < (-9i64) as u64 {
            4
        } else {
            3
        }
    } else {
        0
    };
    let ghost n = (8 - lz) as nat;
    let ghost digits = dec_digits(m_up as nat, n);
    let ghost sd = sig_digits32(*d);
    proof {
        crate::text::lemma_dec_digits_len(m_up as nat, n);
        crate::text::lemma_trim_trailing_zeros_prefix(digits);
        assert(s.dec_sig_len + 1 == sd.len());
    }
    let (first_sig_pos, dot_pos, move_pos, exp_pos) = e10_variable_data(
        e10_data_ofs,
        s.dec_sig_len,
    );
    let p = base + first_sig_pos as usize;
    write_u64_le(buf, p, s.ascii);
    buf[p + 8 - lz as usize] = one as u8;
    proof {
        let fsp = first_sig_pos as int;
        let len = sd.len() as int;
        let expected = crate::text::zeros(fsp as nat) + sd + crate::text::zeros(
            (24 - fsp - len) as nat,
        );
        assert(fsp <= 7);
        let dd = le_bytes(s.ascii);
        assert(dd == digits + crate::text::zeros(lz as nat));
        assert forall|j: int| 0 <= j < 24 implies #[trigger] buf@[base + j] == expected[j] by {
            if j < fsp {
            } else if j < fsp + n {
                assert(buf@[base + j] == dd[j - fsp]);
                assert(dd[j - fsp] == digits[j - fsp]);
                if up_down != 0 {
                    if j - fsp >= len {
                        assert(digits[j - fsp] == 48u8);
                    } else {
                        assert(sd[j - fsp] == digits[j - fsp]);
                    }
                }
            } else if j < fsp + 8 {
                if j > fsp + n {
                    assert(buf@[base + j] == dd[j - fsp]);
                }
            } else {
            }
        }
        assert(expected.len() == 24);
        assert forall|j: int| 0 <= j < 24 implies #[trigger] buf@.subrange(
            base as int,
            base + 24,
        )[j] == expected[j] by {
            assert(buf@[base + j] == expected[j]);
        }
        assert(buf@.subrange(base as int, base + 24) =~= expected);
    }
    (first_sig_pos as usize, dot_pos, move_pos, exp_pos, s.dec_sig_len as usize + 1, exp_len)
}

/// The bytes of a word with the high nibble of each byte cleared; for the characters
/// `'0'..=';'` that leaves zero exactly for `'0'`.
proof fn lemma_low_nibbles(x: u64, i: int)
    requires
        0 <= i < 8,
    ensures
        byte_of(x & 0x0F0F_0F0F_0F0F_0F0Fu64, i) == byte_of(x, i) & 0x0Fu8,
        0x30 <= byte_of(x, i) <= 0x3B ==> ((byte_of(x, i) & 0x0Fu8 == 0) <==> byte_of(x, i)
            == 48u8),
{
    let j = i as u64;
    assert((((x & 0x0F0F_0F0F_0F0F_0F0Fu64) >> ((8 * j) as u64)) & 0xffu64) as u8 == (((x >> ((8
        * j) as u64)) & 0xffu64) as u8) & 0x0Fu8 && (0x30 <= (((x >> ((8 * j) as u64)) & 0xffu64)
        as u8) <= 0x3B ==> (((((x >> ((8 * j) as u64)) & 0xffu64) as u8) & 0x0Fu8 == 0) <==> (((x
        >> ((8 * j) as u64)) & 0xffu64) as u8) == 48u8))) by (bit_vector)
        requires
            j < 8,
    ;
}

/// The leading `'0'` digits of a subnormal's significand, counted from the trailing zero
/// bits of the low nibbles of the word that holds the digits after the first.
proof fn lemma_leading_zero_run(tmp: u64, c: int, t: Seq<u8>, sd: Seq<u8>, sig_len: int)
    requires
        t.len() == 24,
        2 <= sig_len <= 9,
        sd.len() == sig_len,
        sd[0] == 48u8,
        forall|j: int| 0 <= j < 8 ==> #[trigger] le_bytes(tmp)[j] == t[1 + j],
        forall|i: int| 0 <= i < 24 ==> 0x30 <= #[trigger] t[i] <= 0x3B,
        forall|i: int| 0 <= i < sig_len ==> #[trigger] t[i] == sd[i],
        forall|i: int| sig_len <= i < 24 ==> #[trigger] t[i] == 48u8,
        c == vstd::std_specs::bits::u64_trailing_zeros(tmp & 0x0F0F_0F0F_0F0F_0F0Fu64) / 8,
    ensures
        crate::text::leading_zero_count(sd) == if c + 2 < sig_len {
            c + 1
        } else {
            sig_len - 1
        },
{
    let masked = tmp & 0x0F0F_0F0F_0F0F_0F0Fu64;
    let tz = vstd::std_specs::bits::u64_trailing_zeros(masked);
    vstd::std_specs::bits::axiom_u64_trailing_zeros(masked);
    assert forall|j: int| 0 <= j < 8 implies (#[trigger] byte_of(masked, j) == 0) == (t[1 + j]
        == 48u8) by {
        lemma_low_nibbles(tmp, j);
        assert(le_bytes(tmp)[j] == byte_of(tmp, j));
    }
    let tt = tz as u64;
    vstd::bits::lemma_u64_shr_is_div(tt, 3);
    lemma2_to64();
    assert forall|j: int| 0 <= j < 8 && j < c implies #[trigger] t[1 + j] == 48u8 by {
        crate::digits::lemma_trailing_zero_bytes(masked, tt, j as u64);
        assert(byte_of(masked, j) == 0);
    }
    if c < 8 {
        crate::digits::lemma_trailing_zero_bytes(masked, tt, c as u64);
        assert(byte_of(masked, c as int) != 0);
        assert(t[1 + c] != 48u8);
    }
    if c + 2 < sig_len {
        assert forall|j: int| 0 <= j < c + 1 implies #[trigger] sd[j] == 48u8 by {
            if j > 0 {
                assert(t[1 + (j - 1)] == 48u8);
            }
        }
        assert(sd[c + 1] == t[c + 1]);
        crate::text::lemma_leading_zero_count(sd, (c + 1) as nat);
    } else {
        assert forall|j: int| 0 <= j < sig_len - 1 implies #[trigger] sd[j] == 48u8 by {
            if j > 0 {
                assert(t[1 + (j - 1)] == 48u8);
            }
        }
        crate::text::lemma_leading_zero_count(sd, (sig_len - 1) as nat);
    }
}

/// Puts the decimal point in, drops leading zeros of subnormal values, and appends the
/// exponent suffix; returns the length of the text from `base` on.
#[verifier::rlimit(80)]
fn finish_layout32(
    buf: &mut [u8],
    base: usize,
    d: &Decimal32,
    first_sig_pos: usize,
    dot_pos: u8,
    move_pos: u8,
    exp_pos0: u8,
    sig_len: usize,
    exp_len: u64,
) -> (body_len: usize)
    requires
        base <= 1,
        old(buf)@.len() >= 32,
        d.m_up <= 0x200_0001u32,
        d.one == 48 || 0x3030 <= d.one <= 0x303B,
        d.up_down != 0 ==> d.one == 48,
        -45 <= d.k <= 31,
        d.m_up < 100000 ==> d.k == -45,
        sig_len == sig_digits32(*d).len(),
        1 <= sig_len <= 9,
        first_sig_pos as int == crate::tables::first_sig_pos_spec(first_e10_32(*d)),
        dot_pos as int == crate::tables::dot_pos_spec(first_e10_32(*d)),
        move_pos as int == crate::tables::move_pos_spec(first_e10_32(*d)),
        exp_pos0 as int == crate::tables::exp_pos_spec(first_e10_32(*d), sig_len as int),
        exp_len == if E10_DN <= first_e10_32(*d) <= E10_UP {
            0
        } else {
            crate::text::exponent_text(first_e10_32(*d)).len()
        },
        old(buf)@.subrange(base as int, base + 24) == crate::text::zeros(first_sig_pos as nat)
            + sig_digits32(*d) + crate::text::zeros((24 - first_sig_pos - sig_len) as nat),
    ensures
        final(buf)@.len() == old(buf)@.len(),
        forall|i: int| 0 <= i < base ==> #[trigger] final(buf)@[i] == old(buf)@[i],
        forall|i: int| 32 <= i < final(buf)@.len() ==> #[trigger] final(buf)@[i] == old(buf)@[i],
        base + body_len <= final(buf)@.len(),
        final(buf)@.subrange(base as int, base + body_len) == render_digits(
            sig_digits32(*d),
            first_e10_32(*d),
        ),
        base + body_len < final(buf)@.len(),
        final(buf)@[base + body_len] == 0,
{
    let ghost sd = sig_digits32(*d);
    let ghost e = first_e10_32(*d);
    let ghost b0 = buf@;
    let ghost len = sig_len as int;
    let ghost fsp = first_sig_pos as int;
    let ghost t = crate::text::zeros(fsp as nat) + sd + crate::text::zeros((24 - fsp - len) as nat);
    proof {
        lemma_sig_digits32(*d);
        assert forall|i: int| 0 <= i < 24 implies #[trigger] b0[base + i] == t[i] by {
            assert(b0.subrange(base as int, base + 24)[i] == t[i]);
        }
        assert forall|i: int| 0 <= i < 24 implies 0x30 <= #[trigger] t[i] <= 0x3B by {
            if fsp <= i < fsp + len {
                assert(t[i] == sd[i - fsp]);
            }
        }
        if d.m_up < 100000 {
            assert(e == -39);
        }
    }
    let lz0 = (d.m_up < E7) as u32 + (d.m_up < E6) as u32;
    let mut e10 = d.k + (8 - lz0 as i64);
    let mut exp_pos = exp_pos0;
    let buf_origin = base;
    let p = base + first_sig_pos;
    copy_within(buf, p + dot_pos as usize, p + move_pos as usize, 8);
    buf[buf_origin + dot_pos as usize] = 46;
    let ghost b2 = buf@;
    let ghost dot = dot_pos as int;
    let ghost mv = move_pos as int;
    proof {
        assert forall|i: int| 0 <= i < 32 - base implies #[trigger] b2[base + i] == if i == dot {
            46u8
        } else if fsp + mv <= i < fsp + mv + 8 {
            b0[base + i - (mv - dot)]
        } else {
            b0[base + i]
        } by {}
    }
    let ghost mut sd2 = sd;
    if d.m_up < 100000 && sig_len >= 2 {
        let tmp = read_u64_le(buf, p + 2);
        let masked = tmp & 0x0F0F_0F0F_0F0F_0F0F;
        let c = (masked.trailing_zeros() / 8) as usize;
        proof {
            assert(p == base);
            assert forall|j: int| 0 <= j < 8 implies #[trigger] le_bytes(tmp)[j] == t[1 + j] by {
                assert(le_bytes(tmp)[j] == b2[base + 2 + j]);
                let i = 2 + j;
                assert(b2[base + i] == b0[base + i - 1]);
                assert(b0[base + (1 + j)] == t[1 + j]);
            }
            lemma_leading_zero_run(tmp, c as int, t, sd, sig_len as int);
        }
        let lz = if c + 2 < sig_len {
            c + 2
        } else {
            sig_len
        };
        e10 -= lz as i64 - 1;
        let ch = buf[p + lz];
        buf[p] = ch;
        copy_within(buf, p + lz + 1, p + 2, 8);
        exp_pos = exp_pos - lz as u8 + (exp_pos - lz as u8 != 1) as u8;
        proof {
            let z = (lz - 1) as int;
            sd2 = sd.skip(z);
            let i = lz as int;
            assert(b2[base + i] == b0[base + i - 1]);
            assert(b0[base + (i - 1)] == t[i - 1]);
            assert forall|j: int| 0 <= j < sd2.len() - 1 implies #[trigger] buf@[base + 2 + j]
                == sd2[1 + j] by {
                assert(buf@[base + 2 + j] == b2[base + lz + 1 + j]);
                let i = lz + 1 + j;
                assert(b2[base + i] == b0[base + i - 1]);
                assert(b0[base + (lz + j)] == t[lz + j]);
            }
        }
    } else {
        proof {
            if !(E10_DN <= e <= E10_UP) {
                assert forall|j: int| 0 <= j < sd2.len() - 1 implies #[trigger] buf@[base + 2 + j]
                    == sd2[1 + j] by {
                    let i = 2 + j;
                    assert(b2[base + i] == b0[base + i - 1]);
                    assert(b0[base + (1 + j)] == t[1 + j]);
                }
            }
        }
    }
    let ghost b3 = buf@;
    let ghost e2 = e10 as int;
    proof {
        assert(sd2 == sd.skip(crate::text::leading_zero_count(sd) as int));
        assert(e2 == e - crate::text::leading_zero_count(sd));
    }
    let exp_result = exp_result_float(e10) as u64;
    let q = p + exp_pos as usize;
    write_u64_le(buf, q, exp_result);
    proof {
        if E10_DN <= e <= E10_UP {
            assert forall|i: int| 0 <= i < fsp + exp_pos implies #[trigger] buf@[base + i] == if i
                == dot {
                46u8
            } else if fsp + mv <= i < fsp + mv + 8 {
                b0[base + i - (mv - dot)]
            } else {
                b0[base + i]
            } by {
                assert(buf@[base + i] == b2[base + i]);
            }
            crate::double::lemma_layout_positional(
                b0,
                buf@,
                base as int,
                fsp,
                dot,
                mv,
                exp_pos as int,
                sd,
                e,
                24,
                8,
            );
            assert(crate::text::leading_zero_count(sd) == 0);
            assert(sd.skip(0) =~= sd);
        } else {
            crate::double::lemma_layout_scientific(
                b3,
                buf@,
                base as int,
                exp_pos as int,
                sd2,
                e2,
                exp_result,
            );
            assert(fsp == 0);
            let a = (if e2 < 0 {
                -e2
            } else {
                e2
            }) as nat;
            let a0 = (if e < 0 {
                -e
            } else {
                e
            }) as nat;
            crate::text::lemma_decimal_text_small(a);
            crate::text::lemma_decimal_text_small(a0);
            assert(crate::text::exponent_text(e2).len() == exp_len);
        }
        assert(le_bytes(exp_result)[exp_len as int] == 0) by {
            if E10_DN <= e <= E10_UP {
                lemma_word_bytes(exp_result, 0, 0, 0, 0, 0, 0, 0, 0);
            }
        }
        crate::bytes::lemma_splice_read_byte(b3, q as int, le_bytes(exp_result), exp_len as int);
    }
    exp_len as usize + (q - buf_origin)
}

/// The body of `xjb32` and `xjb32_with_table`.
fn write32(table: Option<&Pow10Float>, bits: u32, buf: &mut [u8]) -> (len: usize)
    requires
        table matches Some(t) ==> t.wf(),
        old(buf)@.len() >= 32,
    ensures
        final(buf)@.len() == old(buf)@.len(),
        len <= 24,
        len < final(buf)@.len(),
        final(buf)@.take(len as int) == format32(bits),
        final(buf)@[len as int] == 0,
        forall|i: int| 32 <= i < final(buf)@.len() ==> #[trigger] final(buf)@[i] == old(buf)@[i],
        f32_exp(bits) < 255 && (f32_exp(bits) != 0 || f32_sig(bits) != 0) ==> same_decimal(
            text_decimal(format32(bits).skip(sign_text(f32_neg(bits)).len() as int)),
            decimal32_value(decimal32(bits)),
        ),
{
    let is_neg = (bits >> 31) as usize;
    proof {
        lemma_f32_fields(bits);
    }
    buf[0] = 45;
    let p = is_neg;
    let ghost prefix = sign_text(f32_neg(bits));
    let sig = bits & 0x7F_FFFF;
    let exp = ((bits << 1) >> 24) as u64;
    proof {
        assert(prefix.len() == is_neg);
        assert(is_neg == 1 ==> prefix[0] == 45u8);
    }
    if exp == 0 && sig == 0 {
        let ghost b = buf@;
        write_u32_le(buf, p, 0x30_2E30);
        proof {
            crate::bytes::lemma_splice_read(b, p as int, le_bytes(0x30_2E30u32 as u64).take(4), 3);
            crate::bytes::lemma_splice_read_byte(
                b,
                p as int,
                le_bytes(0x30_2E30u32 as u64).take(4),
                3,
            );
            assert(le_bytes(0x30_2E30u32 as u64).take(4).take(3) =~= le_bytes(
                0x30_2E30u32 as u64,
            ).take(3));
            lemma_word_bytes(0x30_2E30, 48, 46, 48, 0, 0, 0, 0, 0);
            crate::double::lemma_text_word(0x30_2E30, seq![48u8, 46u8, 48u8]);
            crate::double::lemma_prefixed(buf@, prefix, seq![48u8, 46u8, 48u8]);
        }
        return is_neg + 3;
    }
    if exp == 255 {
        let src: u32 = if sig == 0 {
            0x66_6E69
        } else {
            0x4E_614E
        };
        let ghost b = buf@;
        write_u32_le(buf, p, src);
        proof {
            crate::bytes::lemma_splice_read(b, p as int, le_bytes(src as u64).take(4), 3);
            crate::bytes::lemma_splice_read_byte(b, p as int, le_bytes(src as u64).take(4), 3);
            assert(le_bytes(src as u64).take(4).take(3) =~= le_bytes(src as u64).take(3));
            if sig == 0 {
                lemma_word_bytes(0x66_6E69, 105, 110, 102, 0, 0, 0, 0, 0);
                crate::double::lemma_text_word(0x66_6E69, seq![105u8, 110u8, 102u8]);
                crate::double::lemma_prefixed(buf@, prefix, seq![105u8, 110u8, 102u8]);
            } else {
                lemma_word_bytes(0x4E_614E, 78, 97, 78, 0, 0, 0, 0, 0);
                crate::double::lemma_text_word(0x4E_614E, seq![78u8, 97u8, 78u8]);
                crate::double::lemma_prefixed(buf@, prefix, seq![78u8, 97u8, 78u8]);
            }
        }
        return is_neg + 3;
    }
    let d = decimal_float(table, bits);
    let (first_sig_pos, dot_pos, move_pos, exp_pos, sig_len, exp_len) = place_digits32(buf, p, &d);
    let body_len = finish_layout32(
        buf,
        p,
        &d,
        first_sig_pos,
        dot_pos,
        move_pos,
        exp_pos,
        sig_len,
        exp_len,
    );
    proof {
        crate::double::lemma_prefixed(buf@, prefix, render_digits(digits32(bits), e10_32(bits)));
        crate::text::lemma_render_digits_len(digits32(bits), e10_32(bits));
        let sd = digits32(bits);
        let e = e10_32(bits);
        lemma_sig_digits32_value(d);
        crate::value::lemma_render_digits_value(sd, e);
        crate::value::lemma_same_decimal_trans(
            text_decimal(render_digits(sd, e)),
            (digits_value(sd), e + 1 - sd.len()),
            decimal32_value(d),
        );
        assert(format32(bits).skip(prefix.len() as int) =~= render_digits(sd, e));
    }
    is_neg + body_len
}

/// Writes the decimal text of the `f32` with bit pattern `bits` to the start of `buf`,
/// followed by a NUL byte, and returns the length of the text. The algorithm uses the first
/// 32 bytes of `buf` as scratch space: bytes past the text and the NUL among them may be
/// overwritten, and bytes from 32 on are left alone.
pub fn xjb32(bits: u32, buf: &mut [u8]) -> (len: usize)
    requires
        old(buf)@.len() >= 32,
    ensures
        final(buf)@.len() == old(buf)@.len(),
        len <= 24,
        len < final(buf)@.len(),
        final(buf)@.take(len as int) == format32(bits),
        final(buf)@[len as int] == 0,
        forall|i: int| 32 <= i < final(buf)@.len() ==> #[trigger] final(buf)@[i] == old(buf)@[i],
        f32_exp(bits) < 255 && (f32_exp(bits) != 0 || f32_sig(bits) != 0) ==> same_decimal(
            text_decimal(format32(bits).skip(sign_text(f32_neg(bits)).len() as int)),
            decimal32_value(decimal32(bits)),
        ),
{
    write32(None, bits, buf)
}

/// Writes the decimal text of the `f32` with bit pattern `bits` to the start of `buf`,
/// followed by a NUL byte, and returns the length of the text, reading powers of ten from
/// `table`. The algorithm uses the first 32 bytes of `buf` as scratch space: bytes past the
/// text and the NUL among them may be overwritten, and bytes from 32 on are left alone.
pub fn xjb32_with_table(table: &Pow10Float, bits: u32, buf: &mut [u8]) -> (len: usize)
    requires
        table.wf(),
        old(buf)@.len() >= 32,
    ensures
        final(buf)@.len() == old(buf)@.len(),
        len <= 24,
        len < final(buf)@.len(),
        final(buf)@.take(len as int) == format32(bits),
        final(buf)@[len as int] == 0,
        forall|i: int| 32 <= i < final(buf)@.len() ==> #[trigger] final(buf)@[i] == old(buf)@[i],
        f32_exp(bits) < 255 && (f32_exp(bits) != 0 || f32_sig(bits) != 0) ==> same_decimal(
            text_decimal(format32(bits).skip(sign_text(f32_neg(bits)).len() as int)),
            decimal32_value(decimal32(bits)),
        ),
{
    write32(Some(table), bits, buf)
}

/// Negating a value only puts a minus sign in front of its text: the text of any bit
/// pattern is its sign followed by the text of the pattern with the sign bit cleared.
pub proof fn lemma_format32_sign(bits: u32)
    ensures
        !f32_neg(bits & 0x7FFF_FFFFu32),
        format32(bits) == sign_text(f32_neg(bits)) + format32(bits & 0x7FFF_FFFFu32),
{
    let a = bits & 0x7FFF_FFFFu32;
    lemma_f32_fields(bits);
    assert(significand32(a) == significand32(bits));
    assert(exponent32(a) == exponent32(bits));
    assert(k32(a) == k32(bits));
    assert(shift32(a) == shift32(bits));
    assert(decimal32(a) == decimal32(bits));
    assert(format32(bits) =~= sign_text(f32_neg(bits)) + format32(a));
}

} // verus!
