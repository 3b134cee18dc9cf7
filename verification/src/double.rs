//! Decimal text of an `f64`, given its bit pattern: the text of the decimal the scaling step
//! picks, laid out positionally or in scientific notation.
use crate::bytes::{byte_of, copy_within, le_bytes, splice, write_u32_le, write_u64_le};
use crate::digits::{to_ascii16, ZERO};
use crate::tables::{
    e10_variable_data, exp_result_double, h7, h7_spec, lemma_pow10_double_hi_bound, pow10_double,
    pow10_double_hi,
    pow10_double_lo, Pow10Double,
};
use crate::text::{
    dec_digits, pow10, render_digits, sign_text, trim_trailing_zeros, E10_DN, E10_UP,
};
use crate::bytes::{lemma_and_le, lemma_shr_range, lemma_shr_range128, lemma_word_bytes};
use vstd::arithmetic::power2::{lemma2_to64, lemma2_to64_rest, pow2};
use crate::magnitude::{
    decimal_exponent_of, floor_log2_pow10, lemma_near_interval_same_fraction,
    lemma_pow2_decimal_exponent, lemma_pow2_decimal_exponent_irregular, lemma_pow2_frac_shift,
    lemma_pow_fracs_positive, lemma_power_of_two_candidate, near_power_of_two_interval, pow10_den,
    pow10_num, pow2_den, pow2_num, lemma_candidate_bounds, lemma_candidate_near,
    lemma_candidate_interval, near_rounding_interval, lemma_digit_near, near_nearest_digit,
    lemma_gap_near, lemma_scaled_to_w, outside_rounding_interval,
};
use vstd::arithmetic::power2::lemma_pow2_adds;
use vstd::arithmetic::div_mod::lemma_fundamental_div_mod_converse;
use crate::value::{
    rounded_digit_chars, digits_value, lemma_extended_digits_value, lemma_trimmed_digits_value,
    same_decimal, text_decimal,
};
use vstd::prelude::*;

verus! {

/// Biased exponent field of an `f64` bit pattern.
pub open spec fn f64_exp(bits: u64) -> u64 {
    (bits << 1u64) >> 53u64
}

/// Significand field of an `f64` bit pattern.
pub open spec fn f64_sig(bits: u64) -> u64 {
    bits & 0xF_FFFF_FFFF_FFFFu64
}

/// Sign bit of an `f64` bit pattern.
pub open spec fn f64_neg(bits: u64) -> bool {
    bits >> 63u64 == 1
}

/// `10^15 - 1`: significands above it have 16 digits of their own.
pub const C3: u64 = 999_999_999_999_999;

/// Rounding bias for the digit after the significand: one half, plus a little.
pub const C4: u64 = 0x8000_0000_0000_0006;

/// The decimal the `f64` algorithm settles on, before it becomes text.
pub struct Decimal64 {
    /// The significand rounded up to the upper end of the rounding interval.
    pub m_up: u64,
    /// Nonzero when the significand alone identifies the value: then the digit after it
    /// is dropped.
    pub up_down: u64,
    /// The digit after the significand, rounded.
    pub one: u64,
    /// `10^k` is the weight of the last digit of `m_up` when `m_up` has 15 digits.
    pub k: i64,
}

/// The integer significand `c` of a finite `f64`, with its value `c * 2^q`.
pub open spec fn significand64(bits: u64) -> u64 {
    if f64_exp(bits) == 0 {
        f64_sig(bits)
    } else {
        (0x10_0000_0000_0000u64 | f64_sig(bits)) as u64
    }
}

/// The binary exponent `q` of a finite `f64`, with its value `c * 2^q`.
pub open spec fn exponent64(bits: u64) -> i64 {
    if f64_exp(bits) == 0 {
        -1074i64
    } else {
        (f64_exp(bits) - 1075) as i64
    }
}

/// The decimal exponent estimate `floor(q * log10(2))` used to pick the power of ten.
pub open spec fn k_regular64(bits: u64) -> i64 {
    (((f64_exp(bits) - 1075) * 78913) as i64) >> 18i64
}

/// The regular case: the significand scaled by the chosen power of ten, with the
/// rounding interval of half an ulp on each side.
pub open spec fn decimal64_regular(bits: u64) -> Decimal64 {
    let c = significand64(bits);
    let h7 = h7_spec(f64_exp(bits)) as u64;
    let k = k_regular64(bits);
    let n = (292 - k) as nat;
    let pow10_hi = pow10_double_hi(n);
    let pow10_lo = pow10_double_lo(n);
    let cb = (c << h7) as u64;
    let hi128 = (cb as u128 * pow10_hi as u128 + ((cb as u128 * pow10_lo as u128) as u128
        >> 64u128)) as u128;
    let hi64 = (hi128 >> 64u128) as u64;
    let lo64 = hi128 as u64;
    let dot_one = (hi64 << 55u64) | (lo64 >> 9u64);
    let half_ulp = ((pow10_hi >> ((10 - h7) as u64)) + ((c + 1) as u64 & 1u64)) as u64;
    let up = half_ulp > u64::MAX - dot_one;
    let down = half_ulp > dot_one;
    let one = ((dot_one as u128 * 10 + C4 as u128) as u128 >> 64u128) as u64;
    Decimal64 {
        m_up: ((hi64 >> 9u64) + if up {
            1u64
        } else {
            0u64
        }) as u64,
        up_down: ((if up {
            1u64
        } else {
            0u64
        }) + (if down {
            1u64
        } else {
            0u64
        })) as u64,
        one: if dot_one == 0x4000_0000_0000_0000u64 {
            2
        } else {
            one
        },
        k,
    }
}

/// The irregular case, a power of two with a narrower rounding interval below it.
pub open spec fn decimal64_irregular(bits: u64) -> Decimal64 {
    let q = exponent64(bits);
    let k = ((q * 315653 - 131072) as i64) >> 20i64;
    let h = (q + ((((k * -217707) - 217707) as i64) >> 16i64)) as i64;
    let phi = pow10_double_hi((292 - k) as nat);
    let hulp = phi >> ((-h) as u64);
    let dot = phi << ((53 + h) as u64);
    let irr_up = hulp > u64::MAX - dot;
    let irr_down = (hulp >> 1u64) > dot;
    let one0 = ((((dot >> ((53 + h) as u64)) * 5) as u64 + (1u64 << ((9 - h) as u64))) as u64)
        >> ((10 - h) as u64);
    let one1 = if ((((dot >> 54u64) * 5) as u64) & 0x1FFu64) > (((hulp >> 55u64) * 5) as u64) {
        (((((dot >> 54u64) * 5) as u64) >> 9u64) + 1) as u64
    } else {
        one0
    };
    let dot_one = decimal64_regular_dot_one(bits);
    Decimal64 {
        m_up: ((phi >> ((11 - h) as u64)) + if irr_up {
            1u64
        } else {
            0u64
        }) as u64,
        up_down: ((if irr_up {
            1u64
        } else {
            0u64
        }) + (if irr_down {
            1u64
        } else {
            0u64
        })) as u64,
        one: if dot_one == 0x4000_0000_0000_0000u64 {
            2
        } else {
            one1
        },
        k,
    }
}

/// The fraction below the significand in the regular computation.
pub open spec fn decimal64_regular_dot_one(bits: u64) -> u64 {
    let c = significand64(bits);
    let h7 = h7_spec(f64_exp(bits)) as u64;
    let n = (292 - k_regular64(bits)) as nat;
    let cb = (c << h7) as u64;
    let hi128 = (cb as u128 * pow10_double_hi(n) as u128 + ((cb as u128 * pow10_double_lo(n)
        as u128) as u128 >> 64u128)) as u128;
    (((hi128 >> 64u128) as u64) << 55u64) | ((hi128 as u64) >> 9u64)
}

/// The decimal for a finite nonzero `f64` other than the smallest subnormal.
pub open spec fn decimal64(bits: u64) -> Decimal64 {
    if f64_sig(bits) == 0 {
        decimal64_irregular(bits)
    } else {
        decimal64_regular(bits)
    }
}


/// Entry `n` of the `f64` power-of-ten table: read from `table` when there is one, else
/// computed.
fn pow10_lookup(table: Option<&Pow10Double>, n: usize) -> (r: (u64, u64))
    requires
        table matches Some(t) ==> t.wf(),
        n < 617,
    ensures
        r.0 == pow10_double_hi(n as nat),
        r.1 == pow10_double_lo(n as nat),
        r.0 >= 0x8000_0000_0000_0000u64,
{
    match table {
        Some(t) => t.get(n),
        None => pow10_double(n),
    }
}

/// The fields of an `f64` bit pattern, and those of its absolute value.
pub proof fn lemma_f64_fields(bits: u64)
    ensures
        f64_exp(bits) <= 2047,
        f64_sig(bits) <= 0xF_FFFF_FFFF_FFFFu64,
        bits >> 63u64 <= 1,
        0x10_0000_0000_0000u64 | f64_sig(bits) == 0x10_0000_0000_0000u64 + f64_sig(bits),
        f64_exp(bits & 0x7FFF_FFFF_FFFF_FFFFu64) == f64_exp(bits),
        f64_sig(bits & 0x7FFF_FFFF_FFFF_FFFFu64) == f64_sig(bits),
        (bits & 0x7FFF_FFFF_FFFF_FFFFu64) >> 63u64 == 0,
{
    assert((bits << 1u64) >> 53u64 <= 2047 && bits & 0xF_FFFF_FFFF_FFFFu64
        <= 0xF_FFFF_FFFF_FFFFu64 && bits >> 63u64 <= 1 && 0x10_0000_0000_0000u64 | (bits
        & 0xF_FFFF_FFFF_FFFFu64) == 0x10_0000_0000_0000u64 + (bits & 0xF_FFFF_FFFF_FFFFu64) && ((
    bits & 0x7FFF_FFFF_FFFF_FFFFu64) << 1u64) >> 53u64 == (bits << 1u64) >> 53u64 && (bits
        & 0x7FFF_FFFF_FFFF_FFFFu64) & 0xF_FFFF_FFFF_FFFFu64 == bits & 0xF_FFFF_FFFF_FFFFu64 && (
    bits & 0x7FFF_FFFF_FFFF_FFFFu64) >> 63u64 == 0) by (bit_vector);
}

/// The ranges of the decimal exponent estimates and of the shift of the irregular case,
/// over the binary exponents of finite `f64` values.
proof fn lemma_k64_range(e: i64, q: i64)
    requires
        -1075 <= e <= 971,
        -1074 <= q <= 971,
    ensures
        -324 <= ((e * 78913) as i64) >> 18i64 <= 292,
        e == -1075 ==> ((e * 78913) as i64) >> 18i64 == -324,
        -324 <= (((q * 315653) - 131072) as i64) >> 20i64 <= 292,
        -3 <= q + ((((((((q * 315653) - 131072) as i64) >> 20i64) * -217707) - 217707) as i64)
            >> 16i64) <= 0,
{
    assert(-324 <= ((e * 78913) as i64) >> 18i64 <= 292 && (e == -1075 ==> ((e * 78913) as i64)
        >> 18i64 == -324) && -324 <= (((q * 315653) - 131072) as i64) >> 20i64 <= 292 && -3 <= q
        + ((((((((q * 315653) - 131072) as i64) >> 20i64) * -217707) - 217707) as i64) >> 16i64)
        <= 0) by (bit_vector)
        requires
            -1075 <= e <= 971,
            -1074 <= q <= 971,
    ;
}

/// The decimal exponent estimates set against the brackets of the powers of ten: `k` picks
/// the `10^k` at or below `2^q`, and the irregular estimate the `10^k` at or below
/// `3/4 * 2^q`.
proof fn lemma_k64_brackets(e: i64, q: i64)
    requires
        -1075 <= e <= 971,
        -1074 <= q <= 971,
        e == q || (e == -1075 && q == -1074),
    ensures
        ((((((e * 78913) as i64) >> 18i64) * 217706) - 116) as i64) < ((q * 65536) as i64),
        ((q * 65536) as i64) <= (((((((e * 78913) as i64) >> 18i64) + 1) * 217706) - 116)
            as i64),
        ((((((q * 315653) - 131072) as i64) >> 20i64) * 217705 + 26970) as i64) < ((q * 65536)
            as i64),
        ((q * 65536) as i64) <= ((((((((q * 315653) - 131072) as i64) >> 20i64) + 1) * 217705)
            + 26970) as i64),
{
    assert(((((((e * 78913) as i64) >> 18i64) * 217706) - 116) as i64) < ((q * 65536) as i64)
        && ((q * 65536) as i64) <= (((((((e * 78913) as i64) >> 18i64) + 1) * 217706) - 116)
        as i64) && ((((((q * 315653) - 131072) as i64) >> 20i64) * 217705 + 26970) as i64) < ((q
        * 65536) as i64) && ((q * 65536) as i64) <= ((((((((q * 315653) - 131072) as i64)
        >> 20i64) + 1) * 217705) + 26970) as i64)) by (bit_vector)
        requires
            -1075 <= e <= 971,
            -1074 <= q <= 971,
            e == q || (e == -1075 && q == -1074),
    ;
}

/// The decimal exponent the scaling step picks for a finite nonzero `f64` is that of its
/// binary scale: `10^k <= 2^q < 10^(k + 1)`, and `10^k <= 3/4 * 2^q < 10^(k + 1)` for a
/// power of two, whose rounding interval reaches only half as far below it.
pub proof fn lemma_decimal64_exponent(bits: u64)
    requires
        f64_exp(bits) < 2047,
        f64_exp(bits) != 0 || f64_sig(bits) != 0,
    ensures
        f64_sig(bits) != 0 ==> decimal_exponent_of(
            decimal64(bits).k as int,
            pow2_num(exponent64(bits) as int),
            pow2_den(exponent64(bits) as int),
        ),
        f64_sig(bits) == 0 ==> decimal_exponent_of(
            decimal64(bits).k as int,
            3 * pow2_num(exponent64(bits) as int),
            4 * pow2_den(exponent64(bits) as int),
        ),
{
    lemma_f64_fields(bits);
    let e = (f64_exp(bits) - 1075) as i64;
    let q = exponent64(bits);
    lemma_k64_range(e, q);
    lemma_k64_brackets(e, q);
    if f64_sig(bits) != 0 {
        let k = decimal64(bits).k;
        assert(k == ((e * 78913) as i64) >> 18i64);
        lemma_pow2_decimal_exponent(k as int, q as int);
    } else {
        let k = decimal64(bits).k;
        assert(k == (((q * 315653) - 131072) as i64) >> 20i64);
        lemma_pow2_decimal_exponent_irregular(k as int, q as int);
    }
}

/// The high word of the `f64` table entry for `10^j` is within one unit of the exact power
/// scaled into `[2^63, 2^64)`: `|phi - 10^j * 2^(63 - e)| <= 1` with `e = floor(log2(10^j))`.
pub open spec fn pow10_double_hi_accurate(j: int) -> bool {
    let phi = pow10_double_hi((j + 293) as nat) as int;
    let e = floor_log2_pow10(j);
    let xn = pow10_num(j) * pow2_num(63 - e);
    let xd = pow10_den(j) * pow2_den(63 - e);
    (phi - 1) * xd <= xn && xn <= (phi + 1) * xd
}

/// The shift of the irregular case: `q` plus the exponent of the power of two at or below
/// `10^-(k + 1)`.
proof fn lemma_h64(k: i64)
    requires
        -324 <= k <= 292,
    ensures
        ((((k * -217707) - 217707) as i64) >> 16i64) as int == floor_log2_pow10(-(k + 1)),
{
    let t = (((k * -217707) - 217707) as i64) >> 16i64;
    let x = (((-k - 1) * 217706) - 116) as i64;
    assert(-1100 <= t <= 1100 && (k == -1 ==> t == 0) && (k != -1 ==> ((t * 65536) as i64) <= x
        && x < (((t * 65536) + 65536) as i64))) by (bit_vector)
        requires
            -324 <= k <= 292,
            t == (((k * -217707) - 217707) as i64) >> 16i64,
            x == (((-k - 1) * 217706) - 116) as i64,
    ;
    if k != -1 {
        lemma_fundamental_div_mod_converse(x as int, 65536, t as int, x - t * 65536);
    }
}

/// The rounding flags of the irregular case in exact arithmetic: with `s = 11 - h` and
/// `phi = m * 2^s + r`, the lower flag gives `r * 2^54 < phi` and the upper flag
/// `(2^s - r) * 2^53 <= phi`.
#[verifier::rlimit(60)]
proof fn lemma_irregular_flags(phi: u64, h: i64)
    requires
        -3 <= h <= 0,
        phi >= 0x8000_0000_0000_0000u64,
    ensures
        phi >> ((11 - h) as u64) < 0x20_0000_0000_0000,
        (phi >> ((11 - h) as u64)) * pow2((11 - h) as nat) <= phi,
        phi - (phi >> ((11 - h) as u64)) * pow2((11 - h) as nat) < pow2((11 - h) as nat),
        ((phi >> ((-h) as u64)) >> 1u64) > (phi << ((53 + h) as u64)) ==> (phi - (phi >> ((11
            - h) as u64)) * pow2((11 - h) as nat)) * 0x40_0000_0000_0000 < phi,
        (phi >> ((-h) as u64)) > u64::MAX - (phi << ((53 + h) as u64)) ==> (pow2(
            (11 - h) as nat) - (phi - (phi >> ((11 - h) as u64)) * pow2((11 - h) as nat)))
            * 0x20_0000_0000_0000 <= phi,
{
    let s = (11 - h) as u64;
    let m = phi >> s;
    assert(((-h) as u64) == (s - 11) as u64 && ((53 + h) as u64) == (64 - s) as u64);
    assert((m << s) <= phi && ((((phi >> ((s - 11) as u64)) >> 1u64) > (phi << ((64 - s) as u64)))
        ==> ((phi - (m << s)) as u64) <= (((phi - 1) as u64) >> 54u64)) && (((phi >> ((s
        - 11) as u64)) > ((0xFFFF_FFFF_FFFF_FFFFu64 - (phi << ((64 - s) as u64))) as u64))
        ==> (((1u64 << s) - ((phi - (m << s)) as u64)) as u64) <= (phi >> 53u64)))
        by (bit_vector)
        requires
            11 <= s <= 14,
            phi >= 0x8000_0000_0000_0000u64,
            m == phi >> s,
    ;
    lemma2_to64();
    lemma2_to64_rest();
    let p = pow2(s as nat);
    assert(2048 <= p <= 0x4000) by {
        if s == 11 {
        } else if s == 12 {
        } else if s == 13 {
        } else {
        }
    }
    vstd::bits::lemma_u64_shr_is_div(phi, s);
    vstd::arithmetic::div_mod::lemma_fundamental_div_mod(phi as int, p as int);
    vstd::arithmetic::div_mod::lemma_mod_pos_bound(phi as int, p as int);
    assert(m * p <= phi);
    assert(m < 0x20_0000_0000_0000) by (nonlinear_arith)
        requires
            m * p <= phi,
            phi <= 0xFFFF_FFFF_FFFF_FFFFu64,
            p >= 2048,
    ;
    vstd::bits::lemma_u64_shl_is_mul(m, s);
    vstd::bits::lemma_u64_shl_is_mul(1, s);
    vstd::bits::lemma_u64_shr_is_div((phi - 1) as u64, 54);
    vstd::bits::lemma_u64_shr_is_div(phi, 53);
    let r = phi - m * p;
    let a = ((phi - 1) as u64) >> 54u64;
    let b = phi >> 53u64;
    assert(a * 0x40_0000_0000_0000 <= phi - 1) by (nonlinear_arith)
        requires
            a == (phi - 1) / 0x40_0000_0000_0000int,
            phi >= 1,
    ;
    assert(b * 0x20_0000_0000_0000 <= phi) by (nonlinear_arith)
        requires
            b == (phi as int) / 0x20_0000_0000_0000int,
    ;
    if ((phi >> ((-h) as u64)) >> 1u64) > (phi << ((53 + h) as u64)) {
        assert(r <= a);
        assert(r * 0x40_0000_0000_0000 <= a * 0x40_0000_0000_0000) by (nonlinear_arith)
            requires
                r <= a,
        ;
    }
    if (phi >> ((-h) as u64)) > u64::MAX - (phi << ((53 + h) as u64)) {
        let z = p - r;
        assert(z <= b);
        assert(z * 0x20_0000_0000_0000 <= b * 0x20_0000_0000_0000) by (nonlinear_arith)
            requires
                z <= b,
        ;
    }
}

/// Round trip for a power of two `v = 2^(q + 52)`, whose rounding interval
/// `[v - 2^(q - 2), v + 2^(q - 1)]` reaches only half as far below it as above: when the
/// scaling step keeps the significand alone (`up_down != 0`), `m_up * 10^(k + 1)` lies in
/// that interval, up to `10^(k + 1) / 1024`, given that the table entry for `10^-(k + 1)` is
/// accurate to one unit.
#[verifier::rlimit(60)]
pub proof fn lemma_decimal64_irregular_interval(bits: u64)
    requires
        f64_sig(bits) == 0,
        0 < f64_exp(bits) < 2047,
        pow10_double_hi_accurate(-(decimal64(bits).k + 1)),
    ensures
        decimal64(bits).up_down != 0 ==> near_power_of_two_interval(
            decimal64(bits).m_up as int,
            (pow2_num(exponent64(bits) + 52) * pow10_den(decimal64(bits).k + 1)) as int,
            (pow2_den(exponent64(bits) + 52) * pow10_num(decimal64(bits).k + 1)) as int,
        ),
{
    lemma_f64_fields(bits);
    let q = exponent64(bits);
    lemma_k64_range((f64_exp(bits) - 1075) as i64, q);
    let d = decimal64(bits);
    let k = d.k;
    assert(k == (((q * 315653) - 131072) as i64) >> 20i64);
    let t = (((k * -217707) - 217707) as i64) >> 16i64;
    let h = (q + t) as i64;
    let j = -(k + 1);
    lemma_h64(k);
    let n = (292 - k) as nat;
    lemma_pow10_double_hi_bound(n);
    let phi = pow10_double_hi(n);
    assert(n == (j + 293) as nat);
    lemma_irregular_flags(phi, h);
    let s = (11 - h) as u64;
    let m = phi >> s;
    let r = phi - m * pow2(s as nat);
    let hulp = phi >> ((-h) as u64);
    let dot = phi << ((53 + h) as u64);
    let up = hulp > u64::MAX - dot;
    let down = (hulp >> 1u64) > dot;
    assert(d.m_up == m + (if up {
        1u64
    } else {
        0u64
    }));
    assert(d.up_down == (if up {
        1u64
    } else {
        0u64
    }) + (if down {
        1u64
    } else {
        0u64
    }));
    if d.up_down != 0 {
        let e = floor_log2_pow10(j);
        let xn = pow10_num(j) * pow2_num(63 - e);
        let xd = pow10_den(j) * pow2_den(63 - e);
        let ss = pow2(s as nat) as int;
        lemma2_to64();
        assert(ss >= 2048) by {
            if s == 11 {
            } else if s == 12 {
            } else if s == 13 {
            } else {
            }
        }
        lemma_pow_fracs_positive(63 - e, j);
        lemma_pow_fracs_positive(q + 52, j);
        assert(xd > 0) by (nonlinear_arith)
            requires
                xd == pow10_den(j) * pow2_den(63 - e),
                pow10_den(j) > 0,
                pow2_den(63 - e) > 0,
        ;
        lemma_power_of_two_candidate(
            phi as int,
            m as int,
            r,
            ss,
            xn as int,
            xd as int,
            up,
            down,
            d.m_up as int,
        );
        let a = q + 52;
        lemma_pow2_frac_shift(a, s as int);
        assert(a + s == 63 - e);
        let vn = pow2_num(a) * pow10_num(j);
        let vd = pow2_den(a) * pow10_den(j);
        assert(vn * (xd * ss) == xn * vd) by (nonlinear_arith)
            requires
                pow2_num(63 - e) * pow2_den(a) == pow2_num(a) * ss * pow2_den(63 - e),
                vn == pow2_num(a) * pow10_num(j),
                vd == pow2_den(a) * pow10_den(j),
                xn == pow10_num(j) * pow2_num(63 - e),
                xd == pow10_den(j) * pow2_den(63 - e),
        ;
        assert(vd > 0) by (nonlinear_arith)
            requires
                vd == pow2_den(a) * pow10_den(j),
                pow10_den(j) > 0,
                pow2_den(a) > 0,
        ;
        lemma_near_interval_same_fraction(
            d.m_up as int,
            xn as int,
            xd * ss,
            vn as int,
            vd as int,
        );
        assert(pow10(0) == 1);
        assert(pow10_num(j) == pow10_den(k + 1) && pow10_den(j) == pow10_num(k + 1));
    }
}

/// The `f64` table entry for `10^j`, read as the 128-bit number `p = hi * 2^64 + lo`, is the
/// exact power scaled into `[2^127, 2^128)` and rounded up: `x <= p <= x + 1` for
/// `x = 10^j * 2^(127 - e)` and `e = floor(log2(10^j))`.
pub open spec fn pow10_double_accurate(j: int) -> bool {
    let n = (j + 293) as nat;
    let p = pow10_double_hi(n) as int * 0x1_0000_0000_0000_0000 + pow10_double_lo(n) as int;
    let e = floor_log2_pow10(j);
    let xn = pow10_num(j) * pow2_num(127 - e);
    let xd = pow10_den(j) * pow2_den(127 - e);
    xn <= p * xd && p * xd <= xn + xd
}

/// The regular estimate `k` is `floor(e * 78913 / 2^18)`.
proof fn lemma_k64_floor(e: i64)
    requires
        -1075 <= e <= 971,
    ensures
        (((e * 78913) as i64) >> 18i64) as int == (e * 78913) / 262144,
{
    let k = ((e * 78913) as i64) >> 18i64;
    assert(-400 <= k <= 400 && ((k * 262144) as i64) <= ((e * 78913) as i64) && ((e * 78913)
        as i64) < (((k * 262144) + 262144) as i64)) by (bit_vector)
        requires
            -1075 <= e <= 971,
            k == ((e * 78913) as i64) >> 18i64,
    ;
    lemma_fundamental_div_mod_converse(e * 78913, 262144, k as int, e * 78913 - k * 262144);
}

/// The shift `h7` of the regular case is `q + floor(log2(10^-(k + 1))) + 10`, with
/// `k = floor(q * 78913 / 2^18)`.
proof fn lemma_h7_shift(q: i32)
    requires
        -1074 <= q <= 971,
    ensures
        (((q * 78913) as i32) >> 18i32) as int == (q * 78913) / 262144,
        ((((-(((q * 78913) as i32) >> 18i32) - 1) * 217707) as i32) >> 16i32) as int
            == floor_log2_pow10(-((((q * 78913) as i32) >> 18i32) + 1)),
{
    let k = ((q * 78913) as i32) >> 18i32;
    let t = (((-k - 1) * 217707) as i32) >> 16i32;
    let x = (((-k - 1) * 217706) - 116) as i32;
    assert(-400 <= k <= 400 && -1100 <= t <= 1100 && ((k * 262144) as i32) <= ((q * 78913) as i32)
        && ((q * 78913) as i32) < (((k * 262144) + 262144) as i32) && (k == -1 ==> t == 0) && (k
        != -1 ==> ((t * 65536) as i32) <= x && x < (((t * 65536) + 65536) as i32)))
        by (bit_vector)
        requires
            -1074 <= q <= 971,
            k == ((q * 78913) as i32) >> 18i32,
            t == (((-k - 1) * 217707) as i32) >> 16i32,
            x == (((-k - 1) * 217706) - 116) as i32,
    ;
    lemma_fundamental_div_mod_converse(q * 78913, 262144, k as int, q * 78913 - k * 262144);
    if k != -1 {
        lemma_fundamental_div_mod_converse(x as int, 65536, t as int, x - t * 65536);
    }
}

/// The words of the regular case in exact arithmetic: `y = hi128` is `cb * p / 2^64` rounded
/// down for `p = hi * 2^64 + lo`, it splits as `m * 2^73 + dot_one * 2^9 + rho`, and
/// `half_ulp` is `hi / 2^(10 - h7)` rounded down, plus at most one.
#[verifier::rlimit(60)]
proof fn lemma_regular_words(c: u64, h7: u64, hi: u64, lo: u64)
    requires
        c < 0x20_0000_0000_0000u64,
        6 <= h7 <= 9,
    ensures
        ({
            let cb = (c << h7) as u64;
            let hi128 = (cb as u128 * hi as u128 + ((cb as u128 * lo as u128) as u128 >> 64u128))
                as u128;
            let hi64 = (hi128 >> 64u128) as u64;
            let lo64 = hi128 as u64;
            let dot_one = (hi64 << 55u64) | (lo64 >> 9u64);
            let hf = hi >> ((10 - h7) as u64);
            let half_ulp = ((hi >> ((10 - h7) as u64)) + ((c + 1) as u64 & 1u64)) as u64;
            &&& cb == c * pow2(h7 as nat)
            &&& cb < 0x4000_0000_0000_0000
            &&& hi128 * 0x1_0000_0000_0000_0000 <= cb * (hi * 0x1_0000_0000_0000_0000 + lo)
            &&& cb * (hi * 0x1_0000_0000_0000_0000 + lo) < (hi128 + 1) * 0x1_0000_0000_0000_0000
            &&& hi128 == (hi64 >> 9u64) * 0x200_0000_0000_0000_0000 + dot_one * 512 + (lo64
                & 0x1FFu64)
            &&& (lo64 & 0x1FFu64) < 512
            &&& hf * pow2((10 - h7) as nat) <= hi
            &&& hi < (hf + 1) * pow2((10 - h7) as nat)
            &&& hf <= half_ulp <= hf + 1
        }),
{
    lemma2_to64();
    lemma2_to64_rest();
    assert(64 <= pow2(h7 as nat) <= 512) by {
        if h7 == 6 {
        } else if h7 == 7 {
        } else if h7 == 8 {
        } else {
        }
    }
    assert(c * pow2(h7 as nat) < 0x4000_0000_0000_0000) by (nonlinear_arith)
        requires
            c < 0x20_0000_0000_0000u64,
            pow2(h7 as nat) <= 512,
    ;
    vstd::bits::lemma_u64_shl_is_mul(c, h7);
    let cb = (c << h7) as u64;
    let b: int = 0x1_0000_0000_0000_0000;
    assert(cb * hi < 0x4000_0000_0000_0000 * b && cb * lo < 0x4000_0000_0000_0000 * b)
        by (nonlinear_arith)
        requires
            cb < 0x4000_0000_0000_0000u64,
            hi < b,
            lo < b,
            b == 0x1_0000_0000_0000_0000int,
    ;
    let x = (cb as u128 * lo as u128) as u128;
    vstd::bits::lemma_u128_shr_is_div(x, 64);
    vstd::arithmetic::div_mod::lemma_fundamental_div_mod(x as int, b);
    vstd::arithmetic::div_mod::lemma_mod_pos_bound(x as int, b);
    let xs = x >> 64u128;
    assert(xs * b <= x < (xs + 1) * b);
    assert(xs < 0x4000_0000_0000_0000);
    let hi128 = (cb as u128 * hi as u128 + xs) as u128;
    assert(hi128 == cb * hi + xs);
    assert(hi128 * b <= cb * (hi * b + lo) && cb * (hi * b + lo) < (hi128 + 1) * b)
        by (nonlinear_arith)
        requires
            hi128 == cb * hi + xs,
            xs * b <= x,
            x < (xs + 1) * b,
            x == cb * lo,
    ;
    let hi64 = (hi128 >> 64u128) as u64;
    let lo64 = hi128 as u64;
    assert(hi128 == ((hi128 >> 64u128) as u64 as u128) * 0x1_0000_0000_0000_0000u128 + ((hi128
        as u64) as u128)) by (bit_vector);
    assert(((hi64 << 55u64) | (lo64 >> 9u64)) == (hi64 & 0x1FFu64) * 0x80_0000_0000_0000u64 + (
    lo64 >> 9u64) && hi64 == (hi64 >> 9u64) * 512u64 + (hi64 & 0x1FFu64) && lo64 == (lo64
        >> 9u64) * 512u64 + (lo64 & 0x1FFu64) && (hi64 & 0x1FFu64) < 512 && (lo64 & 0x1FFu64) < 512
        && (lo64 >> 9u64) < 0x80_0000_0000_0000u64) by (bit_vector);
    let s = (10 - h7) as u64;
    let g = pow2(s as nat);
    assert(2 <= g <= 16) by {
        if h7 == 6 {
        } else if h7 == 7 {
        } else if h7 == 8 {
        } else {
        }
    }
    vstd::bits::lemma_u64_shr_is_div(hi, s);
    vstd::arithmetic::div_mod::lemma_fundamental_div_mod(hi as int, g as int);
    vstd::arithmetic::div_mod::lemma_mod_pos_bound(hi as int, g as int);
    let hf = hi >> s;
    assert(hf * g <= hi < (hf + 1) * g);
    assert(hf < 0x8000_0000_0000_0000) by (nonlinear_arith)
        requires
            hf * g <= hi,
            g >= 2,
            hi < 0x1_0000_0000_0000_0000int,
    ;
    lemma_and_le((c + 1) as u64, 1);
}

/// Round trip for a value `v = c * 2^q` that is not a power of two, given that the table
/// entry for `10^-(k + 1)` is accurate: when the scaling step keeps the significand alone
/// (`up_down != 0`), `m_up * 10^(k + 1)` lies in the rounding interval
/// `[v - 2^(q - 1), v + 2^(q - 1)]`, up to `10^(k + 1) / 2^62`; otherwise neither `m_up` nor
/// `m_up + 1` lies in that interval, up to the same, and the significand extended by its
/// digit, `(10 * m_up + one) * 10^k`, is `v` rounded to a multiple of `10^k`, up to
/// `10^k / 2^50`.
#[verifier::rlimit(60)]
pub proof fn lemma_decimal64_regular_interval(bits: u64)
    requires
        f64_exp(bits) < 2047,
        f64_sig(bits) != 0,
        pow10_double_accurate(-(decimal64(bits).k + 1)),
    ensures
        decimal64(bits).up_down != 0 ==> near_rounding_interval(
            decimal64(bits).m_up as int,
            significand64(bits) as int,
            (pow2_num(exponent64(bits) as int) * pow10_den(decimal64(bits).k + 1)) as int,
            (pow2_den(exponent64(bits) as int) * pow10_num(decimal64(bits).k + 1)) as int,
        ),
        decimal64(bits).up_down == 0 ==> near_nearest_digit(
            10 * decimal64(bits).m_up + decimal64(bits).one,
            significand64(bits) as int,
            (pow2_num(exponent64(bits) as int) * pow10_den(decimal64(bits).k + 1)) as int,
            (pow2_den(exponent64(bits) as int) * pow10_num(decimal64(bits).k + 1)) as int,
        ),
        decimal64(bits).up_down == 0 ==> outside_rounding_interval(
            decimal64(bits).m_up as int,
            significand64(bits) as int,
            (pow2_num(exponent64(bits) as int) * pow10_den(decimal64(bits).k + 1)) as int,
            (pow2_den(exponent64(bits) as int) * pow10_num(decimal64(bits).k + 1)) as int,
        ),
{
    lemma_f64_fields(bits);
    let exp = f64_exp(bits);
    let q = exponent64(bits);
    let e = (exp - 1075) as i64;
    lemma_k64_range(e, q);
    lemma_k64_floor(e);
    let d = decimal64(bits);
    let k = d.k;
    assert(k == k_regular64(bits));
    let q32 = (exp - 1075 + (if exp == 0 {
        1int
    } else {
        0int
    })) as i32;
    assert(q32 == q);
    lemma_h7_shift(q32);
    let k32 = ((q32 * 78913) as i32) >> 18i32;
    assert(k32 == k);
    let j = -(k + 1);
    let h7 = h7_spec(exp) as u64;
    let ee = floor_log2_pow10(j);
    assert(h7 == q + ee + 10);
    let c = significand64(bits);
    let n = (292 - k) as nat;
    let hi = pow10_double_hi(n);
    let lo = pow10_double_lo(n);
    assert(n == (j + 293) as nat);
    lemma_regular_words(c, h7, hi, lo);
    let cb = (c << h7) as u64;
    let hi128 = (cb as u128 * hi as u128 + ((cb as u128 * lo as u128) as u128 >> 64u128))
        as u128;
    let hi64 = (hi128 >> 64u128) as u64;
    let lo64 = hi128 as u64;
    let dot_one = (hi64 << 55u64) | (lo64 >> 9u64);
    let half_ulp = ((hi >> ((10 - h7) as u64)) + ((c + 1) as u64 & 1u64)) as u64;
    let up = half_ulp > u64::MAX - dot_one;
    let down = half_ulp > dot_one;
    assert(d.m_up == (hi64 >> 9u64) + (if up {
        1u64
    } else {
        0u64
    }));
    assert(d.up_down == (if up {
        1u64
    } else {
        0u64
    }) + (if down {
        1u64
    } else {
        0u64
    }));
    let p = hi as int * 0x1_0000_0000_0000_0000 + lo as int;
    let xn = pow10_num(j) * pow2_num(127 - ee);
    let xd = pow10_den(j) * pow2_den(127 - ee);
    let g = pow2((10 - h7) as nat);
    lemma_pow_fracs_positive(127 - ee, j);
    lemma_pow_fracs_positive(q as int, j);
    assert(xd > 0 && xn > 0) by (nonlinear_arith)
        requires
            xd == pow10_den(j) * pow2_den(127 - ee),
            xn == pow10_num(j) * pow2_num(127 - ee),
            pow10_den(j) > 0,
            pow2_den(127 - ee) > 0,
            pow10_num(j) > 0,
            pow2_num(127 - ee) > 0,
    ;
    lemma2_to64();
    lemma2_to64_rest();
    assert(2 <= g <= 16) by {
        if h7 == 6 {
        } else if h7 == 7 {
        } else if h7 == 8 {
        } else {
        }
    }
    lemma_pow2_adds(h7 as nat, (10 - h7) as nat);
    assert(cb * g == 1024 * c) by (nonlinear_arith)
        requires
            cb == c * pow2(h7 as nat),
            pow2(h7 as nat) * g == 1024,
    ;
    let bb = (137 - h7) as int;
    lemma_pow2_frac_shift(q as int, bb);
    assert(q + bb == 127 - ee);
    lemma_pow2_adds((10 - h7) as nat, 127);
    lemma_pow2_adds(64, 63);
    assert(pow2(127) == 0x8000_0000_0000_0000_0000_0000_0000_0000) by (nonlinear_arith)
        requires
            pow2(127) == pow2(64) * pow2(63),
            pow2(64) == 0x1_0000_0000_0000_0000,
            pow2(63) == 0x8000_0000_0000_0000,
    ;
    let wn = pow2_num(q as int) * pow10_num(j);
    let wd = pow2_den(q as int) * pow10_den(j);
    assert(xn * wd == wn * xd * g * 0x8000_0000_0000_0000_0000_0000_0000_0000) by (nonlinear_arith)
        requires
            pow2_num(127 - ee) * pow2_den(q as int) == pow2_num(q as int) * pow2(bb as nat)
                * pow2_den(127 - ee),
            pow2(bb as nat) == g * 0x8000_0000_0000_0000_0000_0000_0000_0000,
            wn == pow2_num(q as int) * pow10_num(j),
            wd == pow2_den(q as int) * pow10_den(j),
            xn == pow10_num(j) * pow2_num(127 - ee),
            xd == pow10_den(j) * pow2_den(127 - ee),
    ;
    assert(wd > 0) by (nonlinear_arith)
        requires
            wd == pow2_den(q as int) * pow10_den(j),
            pow10_den(j) > 0,
            pow2_den(q as int) > 0,
    ;
    if d.up_down != 0 {
        lemma_candidate_bounds(
            hi128 as int,
            (hi64 >> 9u64) as int,
            dot_one as int,
            (lo64 & 0x1FFu64) as int,
            half_ulp as int,
            up,
            down,
            d.m_up as int,
        );
        lemma_candidate_near(
            hi128 as int,
            half_ulp as int,
            d.m_up as int,
            cb as int,
            p,
            hi as int,
            (hi >> ((10 - h7) as u64)) as int,
            g as int,
            xn as int,
            xd as int,
        );
        lemma_candidate_interval(
            d.m_up as int,
            c as int,
            cb as int,
            g as int,
            xn as int,
            xd as int,
            wn as int,
            wd as int,
        );
    } else {
        let m = (hi64 >> 9u64) as int;
        let bd = xd * 0x1_0000_0000_0000_0000 * g;
        lemma_gap_near(
            hi128 as int,
            m,
            dot_one as int,
            (lo64 & 0x1FFu64) as int,
            half_ulp as int,
            cb as int,
            p,
            hi as int,
            (hi >> ((10 - h7) as u64)) as int,
            g as int,
            xn as int,
            xd as int,
        );
        let m1 = m * 0x200_0000_0000_0000_0000;
        let m2 = (m + 1) * 0x200_0000_0000_0000_0000;
        assert(m1 * bd < (cb * g + 512 * -1) * xn + 0x800 * bd && (cb * g + 512 * 1) * xn + -0x800
            * bd < m2 * bd) by (nonlinear_arith)
            requires
                m * 0x200_0000_0000_0000_0000 * (xd * 0x1_0000_0000_0000_0000 * g) < (cb * g
                    - 512) * xn + 0x800 * (xd * 0x1_0000_0000_0000_0000 * g),
                (cb * g + 512) * xn - 0x800 * (xd * 0x1_0000_0000_0000_0000 * g) < (m + 1)
                    * 0x200_0000_0000_0000_0000 * (xd * 0x1_0000_0000_0000_0000 * g),
                bd == xd * 0x1_0000_0000_0000_0000 * g,
                m1 == m * 0x200_0000_0000_0000_0000,
                m2 == (m + 1) * 0x200_0000_0000_0000_0000,
        ;
        lemma_scaled_to_w(m1, -1, 0x800, true, c as int, cb as int, g as int, xn as int, xd as int,
            wn as int, wd as int);
        lemma_scaled_to_w(m2, 1, -0x800, false, c as int, cb as int, g as int, xn as int, xd
            as int, wn as int, wd as int);
        assert(outside_rounding_interval(m, c as int, wn as int, wd as int)) by (nonlinear_arith)
            requires
                m1 * wd < (2 * c + -1) * wn * 0x100_0000_0000_0000_0000 + 0x800 * wd,
                (2 * c + 1) * wn * 0x100_0000_0000_0000_0000 + -0x800 * wd < m2 * wd,
                m1 == m * 0x200_0000_0000_0000_0000,
                m2 == (m + 1) * 0x200_0000_0000_0000_0000,
        ;
        lemma_one_digit(dot_one);
        lemma_digit_near(
            hi128 as int,
            (hi64 >> 9u64) as int,
            dot_one as int,
            (lo64 & 0x1FFu64) as int,
            d.one as int,
            cb as int,
            p,
            g as int,
            xn as int,
            xd as int,
            c as int,
            wn as int,
            wd as int,
        );
    }
    assert(pow10(0) == 1);
    assert(pow10_num(j) == pow10_den(k + 1) && pow10_den(j) == pow10_num(k + 1));
}

/// The digit after the significand, `10 * dot / 2^64` rounded to nearest with ties to even
/// for the one tie that can occur, lies within a half (and a little) of `10 * dot / 2^64`.
proof fn lemma_one_digit(dot: u64)
    ensures
        ({
            let one = if dot == 0x4000_0000_0000_0000u64 {
                2
            } else {
                ((dot as u128 * 10 + C4 as u128) as u128 >> 64u128) as u64
            };
            &&& one * 0x1_0000_0000_0000_0000 <= 10 * dot + 0x8000_0000_0000_0006
            &&& 10 * dot <= one * 0x1_0000_0000_0000_0000 + 0x8000_0000_0000_0006
        }),
{
    if dot != 0x4000_0000_0000_0000u64 {
        let x = (dot as u128 * 10 + C4 as u128) as u128;
        assert(x == dot * 10 + 0x8000_0000_0000_0006);
        vstd::bits::lemma_u128_shr_is_div(x, 64);
        lemma2_to64_rest();
        vstd::arithmetic::div_mod::lemma_fundamental_div_mod(x as int, 0x1_0000_0000_0000_0000);
        vstd::arithmetic::div_mod::lemma_mod_pos_bound(x as int, 0x1_0000_0000_0000_0000);
        assert(x >> 64u128 < 16);
    }
}

/// Runs the scaling step of the algorithm for a finite `f64` that is neither zero nor the
/// smallest subnormal.
pub fn decimal_double(table: Option<&Pow10Double>, bits: u64) -> (d: Decimal64)
    requires
        table matches Some(t) ==> t.wf(),
        f64_exp(bits) < 2047,
        f64_exp(bits) != 0 || f64_sig(bits) > 1,
    ensures
        d == decimal64(bits),
        d.m_up <= 0x20_0000_0000_0001u64,
        f64_exp(bits) != 0 ==> d.m_up >= 0x1_0000_0000_0000u64,
        f64_exp(bits) == 0 ==> d.k == -324,
        -324 <= d.k <= 292,
        d.one <= 11,
        f64_sig(bits) != 0 ==> decimal_exponent_of(
            d.k as int,
            pow2_num(exponent64(bits) as int),
            pow2_den(exponent64(bits) as int),
        ),
        f64_sig(bits) == 0 ==> decimal_exponent_of(
            d.k as int,
            3 * pow2_num(exponent64(bits) as int),
            4 * pow2_den(exponent64(bits) as int),
        ),
{
    let sig = bits & 0xF_FFFF_FFFF_FFFF;
    let exp = (bits << 1) >> 53;
    proof {
        lemma_f64_fields(bits);
        lemma2_to64();
        lemma2_to64_rest();
    }
    let mut q = exp as i64 - 1075;
    let mut c = 0x10_0000_0000_0000 | sig;
    if exp == 0 {
        c = sig;
        q = 1 - 1075;
    }
    let offset: u64 = 9;
    let h7_precalc = h7(exp) as u64;
    let irregular = sig == 0;
    proof {
        lemma_k64_range((exp - 1075) as i64, q);
    }
    let mut k = ((exp as i64 - 1075) * 78913) >> 18;
    let get_e10 = -1 - k;
    let (pow10_hi, pow10_lo) = pow10_lookup(table, (293 + get_e10) as usize);
    proof {
        assert(c < 0x20_0000_0000_0000u64);
        assert(64 <= pow2(h7_precalc as nat) <= 512) by {
            if h7_precalc == 6 {
            } else if h7_precalc == 7 {
            } else if h7_precalc == 8 {
            } else {
            }
        }
        assert(c * pow2(h7_precalc as nat) < 0x4000_0000_0000_0000) by (nonlinear_arith)
            requires
                c < 0x20_0000_0000_0000u64,
                pow2(h7_precalc as nat) <= 512,
        ;
        vstd::bits::lemma_u64_shl_is_mul(c, h7_precalc);
    }
    let cb = c << h7_precalc;
    proof {
        assert((cb as u128) * (pow10_hi as u128) < 0x4000_0000_0000_0000_0000_0000_0000_0000u128)
            by (nonlinear_arith)
            requires
                cb < 0x4000_0000_0000_0000u64,
        ;
        assert((cb as u128) * (pow10_lo as u128) < 0x4000_0000_0000_0000_0000_0000_0000_0000u128)
            by (nonlinear_arith)
            requires
                cb < 0x4000_0000_0000_0000u64,
        ;
        lemma_and_le((c + 1) as u64, 1);
        lemma_shr_range128((cb as u128 * pow10_lo as u128) as u128, 64, 0, 0x4000_0000_0000_0000);
        assert(pow2((10 - h7_precalc) as nat) >= 2) by {
            if h7_precalc == 6 {
            } else if h7_precalc == 7 {
            } else if h7_precalc == 8 {
            } else {
            }
        }
        assert(0x8000_0000_0000_0000 * pow2((10 - h7_precalc) as nat) >= 0x1_0000_0000_0000_0000)
            by (nonlinear_arith)
            requires
                pow2((10 - h7_precalc) as nat) >= 2,
        ;
        lemma_shr_range(pow10_hi, (10 - h7_precalc) as u64, 0, 0x8000_0000_0000_0000);
    }
    let hi128: u128 = cb as u128 * pow10_hi as u128 + ((cb as u128 * pow10_lo as u128) >> 64);
    let (hi64, lo64) = ((hi128 >> 64) as u64, hi128 as u64);
    let dot_one = (hi64 << (64 - offset)) | (lo64 >> offset);
    let half_ulp = (pow10_hi >> ((1 + offset) - h7_precalc)) + ((c + 1) & 1);
    let up = half_ulp > u64::MAX - dot_one;
    let down = half_ulp > dot_one;
    proof {
        lemma_shr_range128(hi128, 64, 0, 0x4000_0000_0000_0001);
        lemma_shr_range(hi64, 9, 0, 0x20_0000_0000_0001);
    }
    let mut m_up = (hi64 >> offset) + up as u64;
    let mut up_down = up as u64 + down as u64;
    let mut one = ((dot_one as u128 * 10 + C4 as u128) >> 64) as u64;
    proof {
        lemma_shr_range128((dot_one as u128 * 10 + C4 as u128) as u128, 64, 0, 11);
        if exp != 0 {
            assert(c >= 0x10_0000_0000_0000u64);
            assert(cb >= 0x400_0000_0000_0000) by (nonlinear_arith)
                requires
                    c >= 0x10_0000_0000_0000u64,
                    cb == c * pow2(h7_precalc as nat),
                    pow2(h7_precalc as nat) >= 64,
            ;
            assert((cb as u128) * (pow10_hi as u128) >= 0x200_0000_0000_0000_0000_0000_0000_0000)
                by (nonlinear_arith)
                requires
                    cb >= 0x400_0000_0000_0000u64,
                    pow10_hi >= 0x8000_0000_0000_0000u64,
            ;
            lemma_shr_range128(hi128, 64, 0x200_0000_0000_0000, 0x4000_0000_0000_0001);
            lemma_shr_range(hi64, 9, 0x1_0000_0000_0000, 0x20_0000_0000_0001);
        }
    }
    if irregular {
        k = (q * 315653 - 131072) >> 20;
        let t = (k * -217707 - 217707) >> 16;
        let h = q + t;
        let phi = pow10_lookup(table, (292 - k) as usize).0;
        let hulp = phi >> -h;
        let dot = phi << (53 + h);
        let irr_up = hulp > u64::MAX - dot;
        let irr_down = (hulp >> 1) > dot;
        proof {
            let s = (11 - h) as u64;
            assert(0x1_0000_0000_0000 * pow2(s as nat) <= 0x8000_0000_0000_0000
                && 0x1_0000_0000_0000_0000 <= 0x20_0000_0000_0001 * pow2(s as nat)) by {
                if h == 0 {
                } else if h == -1 {
                } else if h == -2 {
                } else {
                }
            }
            lemma_shr_range(phi, s, 0x1_0000_0000_0000, 0x20_0000_0000_0001);
            let u = (53 + h) as u64;
            assert(0x1_0000_0000_0000_0000 <= 0x4000 * pow2(u as nat)) by {
                if h == 0 {
                } else if h == -1 {
                } else if h == -2 {
                } else {
                }
            }
            lemma_shr_range(dot, u, 0, 0x4000);
            vstd::bits::lemma_u64_shl_is_mul(1, (9 - h) as u64);
            assert(pow2((9 - h) as nat) <= 0x1000) by {
                if h == 0 {
                } else if h == -1 {
                } else if h == -2 {
                } else {
                }
            }
            let a = dot >> u;
            let x = ((a * 5) as u64 + (1u64 << ((9 - h) as u64))) as u64;
            assert(x < 11 * pow2((10 - h) as nat)) by {
                if h == 0 {
                    lemma_shr_range(dot, u, 0, 0x800);
                } else if h == -1 {
                    lemma_shr_range(dot, u, 0, 0x1000);
                } else if h == -2 {
                    lemma_shr_range(dot, u, 0, 0x2000);
                } else {
                    lemma_shr_range(dot, u, 0, 0x4000);
                }
            }
            lemma_shr_range(x, (10 - h) as u64, 0, 11);
            lemma_shr_range(dot, 54, 0, 0x400);
            lemma_shr_range(hulp, 55, 0, 0x200);
            lemma_shr_range(((dot >> 54u64) * 5) as u64, 9, 0, 10);
        }
        m_up = (phi >> (11 - h)) + irr_up as u64;
        up_down = irr_up as u64 + irr_down as u64;
        one = ((dot >> (53 + h)) * 5 + (1 << (9 - h))) >> (10 - h);
        if (((dot >> 54) * 5) & 0x1FF) > ((hulp >> 55) * 5) {
            one = (((dot >> 54) * 5) >> 9) + 1
        }
    }
    if dot_one == 0x4000_0000_0000_0000 {
        one = 2
    }
    proof {
        lemma_decimal64_exponent(bits);
    }
    Decimal64 { m_up, up_down, one, k }
}

/// Whether the significand `m_up` has 16 digits of its own.
pub open spec fn d17_of(m_up: u64) -> bool {
    m_up > C3
}

/// How many digits of `m_up` are printed before the rounded next digit.
pub open spec fn sig_width(m_up: u64) -> nat {
    if d17_of(m_up) {
        16
    } else {
        15
    }
}

/// The character the rounded next digit `one` is printed as.
pub open spec fn one_char(one: u64) -> u8 {
    ((one | 0x30u64) & 0xffu64) as u8
}

/// The significant digits printed for the decimal `d`, most significant first: the digits
/// of `m_up` without trailing zeros when `up_down` is set, else followed by the rounded
/// next digit.
pub open spec fn sig_digits(d: Decimal64) -> Seq<u8> {
    if d.up_down != 0 {
        trim_trailing_zeros(dec_digits(d.m_up as nat, sig_width(d.m_up)))
    } else {
        dec_digits(d.m_up as nat, sig_width(d.m_up)).push(one_char(d.one))
    }
}

/// The weight exponent of the first of `sig_digits(d)`.
pub open spec fn first_e10(d: Decimal64) -> int {
    d.k + sig_width(d.m_up)
}

/// The significant digits the algorithm prints for a finite `f64`.
pub open spec fn digits64(bits: u64) -> Seq<u8> {
    sig_digits(decimal64(bits))
}

/// The weight exponent of the first of `digits64(bits)`.
pub open spec fn e10_64(bits: u64) -> int {
    first_e10(decimal64(bits))
}

/// The decimal the scaling step settles on, as `(n, x)` for `n * 10^x`: the significand
/// followed by the rounded next digit, or the significand alone when `up_down` is set.
pub open spec fn decimal64_value(d: Decimal64) -> (int, int) {
    if d.up_down != 0 {
        (d.m_up as int, d.k + 1)
    } else {
        (10 * d.m_up + d.one, d.k as int)
    }
}

/// The significant digits printed for `d` spell its value, with the first digit of
/// weight `10^first_e10(d)`.
pub proof fn lemma_sig_digits_value(d: Decimal64)
    requires
        d.m_up <= 0x20_0000_0000_0001u64,
        d.one <= 11,
    ensures
        1 <= sig_digits(d).len() <= 17,
        rounded_digit_chars(sig_digits(d)),
        same_decimal(
            (digits_value(sig_digits(d)), first_e10(d) + 1 - sig_digits(d).len()),
            decimal64_value(d),
        ),
{
    let m = d.m_up as nat;
    let n = sig_width(d.m_up);
    crate::digits::lemma_pow10_values();
    crate::text::lemma_dec_digits_len(m, n);
    if d.up_down != 0 {
        crate::text::lemma_trim_trailing_zeros_prefix(dec_digits(m, n));
        lemma_trimmed_digits_value(m, n, d.k as int);
    } else {
        lemma_or_zero_small(d.one);
        assert(one_char(d.one) == 48 + d.one);
        lemma_extended_digits_value(m, n, one_char(d.one), d.k as int);
    }
}

/// The text `xjb64` writes for the `f64` with bit pattern `bits`.
///
/// `0.0`, `5e-324` (the smallest subnormal), `inf` and `NaN` are fixed; other values are
/// their digits rendered with `render_digits`. A set sign bit puts `-` in front, also of
/// zero and NaN.
pub open spec fn format64(bits: u64) -> Seq<u8> {
    let exp = f64_exp(bits);
    let sig = f64_sig(bits);
    sign_text(f64_neg(bits)) + if exp == 0 && sig == 0 {
        seq![48u8, 46u8, 48u8]
    } else if exp == 0 && sig == 1 {
        seq![53u8, 101u8, 45u8, 51u8, 50u8, 52u8]
    } else if exp == 2047 {
        if sig == 0 {
            seq![105u8, 110u8, 102u8]
        } else {
            seq![78u8, 97u8, 78u8]
        }
    } else {
        render_digits(digits64(bits), e10_64(bits))
    }
}

/// Digits the table of positions for `f64` provides for.
pub const MAX_DEC_SIG_LEN: usize = 17;

/// The digits of `10 * m` are those of `m` followed by `'0'`.
proof fn lemma_dec_digits_times_ten(m: nat, n: nat)
    ensures
        dec_digits(10 * m, n + 1) == dec_digits(m, n).push(48u8),
{
    assert((10 * m) / 10 == m);
    assert((10 * m) % 10 == 0);
}

/// `'0'` characters or'ed over a value below sixteen.
proof fn lemma_or_zero_small(x: u64)
    requires
        x < 16,
    ensures
        x | ZERO == ZERO + x,
        (x | ZERO) | 0x3030_3030u64 == ZERO + x,
        ((x | 0x30u64) & 0xffu64) == 0x30 + x,
{
    assert(x | 0x3030_3030_3030_3030u64 == 0x3030_3030_3030_3030u64 + x && (x
        | 0x3030_3030_3030_3030u64) | 0x3030_3030u64 == 0x3030_3030_3030_3030u64 + x && ((x
        | 0x30u64) & 0xffu64) == 0x30 + x) by (bit_vector)
        requires
            x < 16,
    ;
}

/// The word written after the digits: the rounded next digit, or `'0'` when it is dropped,
/// followed by `'0'` characters.
proof fn lemma_one_word(one0: u64, up_down: u64, one: u64, w: u64)
    requires
        one0 <= 11,
        one == if up_down != 0 {
            ZERO
        } else {
            one0 | ZERO
        },
        w == one | 0x3030_3030u64,
    ensures
        le_bytes(w)[0] == if up_down != 0 {
            48u8
        } else {
            one_char(one0)
        },
        forall|i: int| 1 <= i < 8 ==> #[trigger] le_bytes(w)[i] == 48u8,
{
    lemma_or_zero_small(one0);
    lemma_or_zero_small(0);
    let x = if up_down != 0 {
        0u64
    } else {
        one0
    };
    assert(w == ZERO + x);
    lemma_word_bytes(w, (0x30 + x) as u64, 0x30, 0x30, 0x30, 0x30, 0x30, 0x30, 0x30);
    assert forall|i: int| 1 <= i < 8 implies #[trigger] le_bytes(w)[i] == 48u8 by {
        assert(i == 1 || i == 2 || i == 3 || i == 4 || i == 5 || i == 6 || i == 7);
    }
}

/// Writes the significant digits of `d` into the 32 bytes at `base`, shifted right by
/// the offset their decimal exponent calls for, and works out the layout positions.
#[verifier::rlimit(60)]
fn place_digits64(buf: &mut [u8], base: usize, d: &Decimal64) -> (r: (usize, u8, u8, u8, usize))
    requires
        base <= 1,
        old(buf)@.len() >= 39,
        d.m_up <= 0x20_0000_0000_0001u64,
        d.one <= 11,
        -324 <= d.k <= 292,
    ensures
        final(buf)@.len() == old(buf)@.len(),
        forall|i: int| 0 <= i < base ==> #[trigger] final(buf)@[i] == old(buf)@[i],
        forall|i: int| 39 <= i < final(buf)@.len() ==> #[trigger] final(buf)@[i] == old(buf)@[i],
        r.4 == sig_digits(*d).len(),
        1 <= r.4 <= 17,
        r.0 as int == crate::tables::first_sig_pos_spec(first_e10(*d)),
        r.1 as int == crate::tables::dot_pos_spec(first_e10(*d)),
        r.2 as int == crate::tables::move_pos_spec(first_e10(*d)),
        r.3 as int == crate::tables::exp_pos_spec(first_e10(*d), r.4 as int),
        final(buf)@.subrange(base as int, base + 32) == crate::text::zeros(r.0 as nat) + sig_digits(
            *d,
        ) + crate::text::zeros((32 - r.0 - r.4) as nat),
{
    let m_up = d.m_up;
    let up_down = d.up_down;
    let k = d.k;
    let mut one = d.one;
    let d17 = m_up > C3;
    let mr = if d17 {
        m_up
    } else {
        m_up * 10
    };
    proof {
        crate::digits::lemma_pow10_values();
    }
    let s = to_ascii16(buf, base, mr, up_down, d17 as u64);
    let e10 = k + 15 + d17 as i64;
    let e10_dn = E10_DN;
    let e10_up = E10_UP;
    let interval = (e10_up - e10_dn + 1) as u64;
    if e10_up >= MAX_DEC_SIG_LEN as i64 - 1 {
        one = if up_down != 0 {
            ZERO
        } else {
            one | ZERO
        };
    }
    let e10_3 = (e10 + -e10_dn) as u64;
    let e10_data_ofs = if e10_3 < interval {
        e10_3
    } else {
        interval
    };
    proof {
        if e10 < -6 {
            crate::bytes::lemma_negative_as_u64((e10 + 6) as i64);
        }
    }
    let ghost n = sig_width(m_up);
    let ghost digits = dec_digits(m_up as nat, n);
    let ghost sd = sig_digits(*d);
    proof {
        crate::text::lemma_dec_digits_len(m_up as nat, n);
        crate::text::lemma_dec_digits_len(mr as nat, 16);
        crate::text::lemma_trim_trailing_zeros_prefix(digits);
        if !d17 {
            lemma_dec_digits_times_ten(m_up as nat, 15);
            if up_down != 0 {
                crate::text::lemma_trim_trailing_zeros_push_zero(digits);
            }
        }
        assert(s.dec_sig_len + 1 == sd.len());
    }
    let (first_sig_pos, dot_pos, move_pos, exp_pos) = e10_variable_data(
        e10_data_ofs,
        s.dec_sig_len,
    );
    let p = base + first_sig_pos as usize;
    write_u64_le(buf, p, s.ascii16.0);
    write_u64_le(buf, p + 8, s.ascii16.1);
    let ghost before = buf@;
    write_u64_le(buf, p + 15 + d17 as usize, one | 0x3030_3030);
    proof {
        lemma_one_word(d.one, up_down, one, one | 0x3030_3030u64);
        let fsp = first_sig_pos as int;
        let len = sd.len() as int;
        let expected = crate::text::zeros(fsp as nat) + sd + crate::text::zeros(
            (32 - fsp - len) as nat,
        );
        let dd = le_bytes(s.ascii16.0) + le_bytes(s.ascii16.1);
        assert(fsp <= 7);
        assert forall|j: int| 0 <= j < 32 implies #[trigger] buf@[base + j] == expected[j] by {
            if j < fsp {
            } else if j < fsp + n {
                assert(buf@[base + j] == dd[j - fsp]);
                assert(dd[j - fsp] == digits[j - fsp]);
                if up_down != 0 {
                    if j - fsp >= len {
                        assert(digits[j - fsp] == 48u8);
                    } else {
                        assert(sd[j - fsp] == digits[j - fsp]);
                    }
                }
            } else if j < fsp + n + 8 {
                assert(buf@[base + j] == le_bytes(one | 0x3030_3030u64)[j - fsp - n]);
            } else {
            }
        }
        assert(expected.len() == 32);
        assert forall|j: int| 0 <= j < 32 implies #[trigger] buf@.subrange(
            base as int,
            base + 32,
        )[j] == expected[j] by {
            assert(buf@[base + j] == expected[j]);
        }
        assert(buf@.subrange(base as int, base + 32) =~= expected);
    }
    (first_sig_pos as usize, dot_pos, move_pos, exp_pos, s.dec_sig_len as usize + 1)
}


/// The first significant digit is `'0'` exactly when `m_up` is below `10^14`.
proof fn lemma_sig_digits_first(d: Decimal64)
    requires
        d.m_up <= 0x20_0000_0000_0001u64,
    ensures
        sig_digits(d).len() >= 1,
        d.m_up >= 100_000_000_000_000 ==> sig_digits(d)[0] != 48u8,
        d.m_up < 100_000_000_000_000 ==> sig_digits(d)[0] == 48u8 && !d17_of(d.m_up),
{
    crate::digits::lemma_pow10_values();
    let n = sig_width(d.m_up);
    let digits = dec_digits(d.m_up as nat, n);
    crate::text::lemma_dec_digits_len(d.m_up as nat, n);
    crate::text::lemma_dec_digits_split(d.m_up as nat, 1, (n - 1) as nat);
    let x = d.m_up as nat / pow10((n - 1) as nat);
    assert(dec_digits(x, 1) == seq![crate::text::digit_char(x % 10)]) by {
        reveal_with_fuel(dec_digits, 2);
    }
    assert(digits[0] == crate::text::digit_char(x % 10));
    if d17_of(d.m_up) {
        assert(1 <= x < 10) by (nonlinear_arith)
            requires
                x == d.m_up as nat / 1000000000000000nat,
                1000000000000000 <= d.m_up <= 0x20_0000_0000_0001u64,
        ;
    } else if d.m_up >= 100_000_000_000_000 {
        assert(1 <= x < 10) by (nonlinear_arith)
            requires
                x == d.m_up as nat / 100000000000000nat,
                100000000000000 <= d.m_up < 1000000000000000,
        ;
    } else {
        assert(x == 0) by (nonlinear_arith)
            requires
                x == d.m_up as nat / 100000000000000nat,
                d.m_up < 100000000000000,
        ;
    }
    crate::text::lemma_trim_trailing_zeros_prefix(digits);
    if d.up_down != 0 {
        assert(sig_digits(d)[0] == digits[0]);
    } else {
        assert(sig_digits(d)[0] == digits[0]);
    }
}

/// The text of a number written positionally, read off the buffer after the point went in.
pub proof fn lemma_layout_positional(
    b0: Seq<u8>,
    b4: Seq<u8>,
    base: int,
    fsp: int,
    dot: int,
    mv: int,
    exp_pos: int,
    sd: Seq<u8>,
    e: int,
    rs: int,
    w: int,
)
    requires
        b0.len() >= base + rs,
        b4.len() >= base + rs,
        0 <= base <= 1,
        24 <= rs <= 32,
        rs == 32 || w == 8,
        w == 8 || w == 16,
        E10_DN <= e <= E10_UP,
        1 <= sd.len() <= w + 1,
        sd[0] != 48u8,
        fsp == crate::tables::first_sig_pos_spec(e),
        dot == crate::tables::dot_pos_spec(e),
        mv == crate::tables::move_pos_spec(e),
        exp_pos == crate::tables::exp_pos_spec(e, sd.len() as int),
        b0.subrange(base, base + rs) == crate::text::zeros(fsp as nat) + sd + crate::text::zeros(
            (rs - fsp - sd.len()) as nat,
        ),
        forall|i: int|
            0 <= i < fsp + exp_pos ==> #[trigger] b4[base + i] == if i == dot {
                46u8
            } else if fsp + mv <= i < fsp + mv + w {
                b0[base + i - (mv - dot)]
            } else {
                b0[base + i]
            },
    ensures
        b4.subrange(base, base + fsp + exp_pos) == crate::text::render(sd, e),
{
    let t = crate::text::zeros(fsp as nat) + sd + crate::text::zeros((rs - fsp - sd.len()) as nat);
    let len = sd.len() as int;
    assert forall|i: int| 0 <= i < rs implies #[trigger] b0[base + i] == t[i] by {
        assert(b0.subrange(base, base + rs)[i] == t[i]);
    }
    let out = crate::text::render(sd, e);
    if e <= -1 {
        assert(out.len() == fsp + exp_pos);
        assert forall|i: int| 0 <= i < fsp + exp_pos implies #[trigger] b4.subrange(
            base,
            base + fsp + exp_pos,
        )[i] == out[i] by {
            assert(b4.subrange(base, base + fsp + exp_pos)[i] == b4[base + i]);
            assert(b4[base + i] == if i == 1 {
                46u8
            } else {
                t[i]
            });
            if i >= fsp {
                assert(out[i] == sd[i - fsp]);
                assert(t[i] == sd[i - fsp]);
            }
            if i >= 2 && i < fsp {
                assert(out[i] == crate::text::zeros((-e - 1) as nat)[i - 2]);
            }
        }
        assert(b4.subrange(base, base + fsp + exp_pos) =~= out);
    } else {
        assert(fsp == 0);
        if len <= e + 1 {
            assert(out.len() == exp_pos);
            assert forall|i: int| 0 <= i < exp_pos implies #[trigger] b4.subrange(
                base,
                base + exp_pos,
            )[i] == out[i] by {
                assert(b4.subrange(base, base + exp_pos)[i] == b4[base + i]);
                if i < dot {
                    assert(b4[base + i] == t[i]);
                    if i >= len {
                        assert(out[i] == crate::text::zeros((e + 1 - len) as nat)[i - len]);
                    }
                } else if i > dot {
                    assert(b4[base + i] == t[i - 1]);
                }
            }
            assert(b4.subrange(base, base + exp_pos) =~= out);
        } else {
            assert(out.len() == exp_pos);
            assert forall|i: int| 0 <= i < exp_pos implies #[trigger] b4.subrange(
                base,
                base + exp_pos,
            )[i] == out[i] by {
                assert(b4.subrange(base, base + exp_pos)[i] == b4[base + i]);
                if i < dot {
                    assert(b4[base + i] == t[i]);
                } else if i > dot {
                    assert(b4[base + i] == t[i - 1]);
                }
            }
            assert(b4.subrange(base, base + exp_pos) =~= out);
        }
    }
}

/// The text of a number in scientific notation, read off the buffer once its digits sit
/// around the point and the exponent suffix follows them.
pub proof fn lemma_layout_scientific(
    b3: Seq<u8>,
    b4: Seq<u8>,
    base: int,
    exp_pos: int,
    sd: Seq<u8>,
    e: int,
    r: u64,
)
    requires
        b3.len() >= base + exp_pos + 8,
        0 <= base <= 1,
        !(E10_DN <= e <= E10_UP),
        1 <= sd.len() <= 17,
        exp_pos == sd.len() + 1 - if sd.len() == 1 {
            1int
        } else {
            0int
        },
        b3[base] == sd[0],
        b3[base + 1] == 46u8,
        forall|j: int| 0 <= j < sd.len() - 1 ==> #[trigger] b3[base + 2 + j] == sd[1 + j],
        b4 == splice(b3, base + exp_pos, le_bytes(r)),
        le_bytes(r).take(crate::text::exponent_text(e).len() as int) == crate::text::exponent_text(
            e,
        ),
        crate::text::exponent_text(e).len() <= 8,
    ensures
        b4.subrange(base, base + exp_pos + crate::text::exponent_text(e).len())
            == crate::text::render(sd, e),
{
    let text = crate::text::exponent_text(e);
    let out = crate::text::render(sd, e);
    let n = exp_pos + text.len();
    assert(out.len() == n);
    assert forall|i: int| 0 <= i < n implies #[trigger] b4.subrange(base, base + n)[i] == out[i] by {
        if i >= exp_pos {
            assert(b4[base + i] == le_bytes(r)[i - exp_pos]);
            assert(le_bytes(r).take(text.len() as int)[i - exp_pos] == text[i - exp_pos]);
        } else if i >= 2 {
            assert(b3[base + 2 + (i - 2)] == sd[1 + (i - 2)]);
        }
    }
    assert(b4.subrange(base, base + n) =~= out);
}

/// Puts the decimal point in, drops leading zeros of subnormal values, and appends the
/// exponent suffix; returns the length of the text from `base` on.
#[verifier::rlimit(60)]
fn finish_layout64(
    buf: &mut [u8],
    base: usize,
    d: &Decimal64,
    first_sig_pos: usize,
    dot_pos: u8,
    move_pos: u8,
    exp_pos0: u8,
    sig_len: usize,
) -> (body_len: usize)
    requires
        base <= 1,
        old(buf)@.len() >= 39,
        d.m_up <= 0x20_0000_0000_0001u64,
        -324 <= d.k <= 292,
        d.m_up < 100_000_000_000_000 ==> d.k == -324,
        sig_len == sig_digits(*d).len(),
        1 <= sig_len <= 17,
        first_sig_pos as int == crate::tables::first_sig_pos_spec(first_e10(*d)),
        dot_pos as int == crate::tables::dot_pos_spec(first_e10(*d)),
        move_pos as int == crate::tables::move_pos_spec(first_e10(*d)),
        exp_pos0 as int == crate::tables::exp_pos_spec(first_e10(*d), sig_len as int),
        old(buf)@.subrange(base as int, base + 32) == crate::text::zeros(first_sig_pos as nat)
            + sig_digits(*d) + crate::text::zeros((32 - first_sig_pos - sig_len) as nat),
    ensures
        final(buf)@.len() == old(buf)@.len(),
        forall|i: int| 0 <= i < base ==> #[trigger] final(buf)@[i] == old(buf)@[i],
        forall|i: int| 39 <= i < final(buf)@.len() ==> #[trigger] final(buf)@[i] == old(buf)@[i],
        base + body_len <= final(buf)@.len(),
        final(buf)@.subrange(base as int, base + body_len) == render_digits(
            sig_digits(*d),
            first_e10(*d),
        ),
        base + body_len < final(buf)@.len(),
        final(buf)@[base + body_len] == 0,
{
    let ghost sd = sig_digits(*d);
    let ghost e = first_e10(*d);
    let ghost b0 = buf@;
    let ghost len = sig_len as int;
    let ghost fsp = first_sig_pos as int;
    let ghost t = crate::text::zeros(fsp as nat) + sd + crate::text::zeros((32 - fsp - len) as nat);
    proof {
        lemma_sig_digits_first(*d);
        assert forall|i: int| 0 <= i < 32 implies #[trigger] b0[base + i] == t[i] by {
            assert(b0.subrange(base as int, base + 32)[i] == t[i]);
        }
        if d.m_up < 100_000_000_000_000 {
            assert(!d17_of(d.m_up));
            assert(e == -309);
        }
    }
    let mut e10 = d.k + 15 + (d.m_up > C3) as i64;
    let mut exp_pos = exp_pos0;
    let buf_origin = base;
    let p = base + first_sig_pos;
    copy_within(buf, p + dot_pos as usize, p + move_pos as usize, 16);
    buf[buf_origin + dot_pos as usize] = 46;
    let ghost b2 = buf@;
    let ghost dot = dot_pos as int;
    let ghost mv = move_pos as int;
    proof {
        assert forall|i: int| 0 <= i < 39 - base implies #[trigger] b2[base + i] == if i == dot {
            46u8
        } else if fsp + mv <= i < fsp + mv + 16 {
            b0[base + i - (mv - dot)]
        } else {
            b0[base + i]
        } by {}
    }
    let ghost mut sd2 = sd;
    if d.m_up < 100_000_000_000_000 && sig_len >= 2 {
        let mut lz: usize = 0;
        while lz + 2 < sig_len && buf[p + 2 + lz] == 48
            invariant
                lz + 2 <= sig_len,
                sig_len == len,
                len <= 17,
                p == base,
                base <= 1,
                fsp == 0,
                dot == 1,
                mv == 2,
                buf@ == b2,
                b2.len() >= 39,
                forall|i: int| 0 <= i < 32 ==> #[trigger] b0[base + i] == t[i],
                forall|i: int| 0 <= i < 39 - base ==> #[trigger] b2[base + i] == if i == dot {
                    46u8
                } else if fsp + mv <= i < fsp + mv + 16 {
                    b0[base + i - (mv - dot)]
                } else {
                    b0[base + i]
                },
                t == crate::text::zeros(fsp as nat) + sd + crate::text::zeros(
                    (32 - fsp - len) as nat,
                ),
                sd.len() == len,
                forall|j: int| 1 <= j <= lz ==> #[trigger] sd[j] == 48u8,
            decreases sig_len - lz,
        {
            proof {
                let i = 2 + lz;
                assert(b2[base + i] == b0[base + i - 1]);
                assert(b0[base + (1 + lz)] == t[1 + lz]);
            }
            lz += 1;
        }
        proof {
            if lz + 2 < sig_len {
                let i = 2 + lz;
                assert(b2[base + i] == b0[base + i - 1]);
                assert(b0[base + (1 + lz)] == t[1 + lz]);
            }
            crate::text::lemma_leading_zero_count(sd, (lz + 1) as nat);
        }
        lz += 2;
        e10 -= lz as i64 - 1;
        let c = buf[p + lz];
        buf[p] = c;
        copy_within(buf, p + lz + 1, p + 2, 16);
        exp_pos = exp_pos - lz as u8 + (exp_pos - lz as u8 != 1) as u8;
        proof {
            let z = (lz - 1) as int;
            sd2 = sd.skip(z);
            let i = lz as int;
            assert(b2[base + i] == b0[base + i - 1]);
            assert(b0[base + (i - 1)] == t[i - 1]);
            assert forall|j: int| 0 <= j < sd2.len() - 1 implies #[trigger] buf@[base + 2 + j]
                == sd2[1 + j] by {
                assert(buf@[base + 2 + j] == b2[base + lz + 1 + j]);
                let i = lz + 1 + j;
                assert(b2[base + i] == b0[base + i - 1]);
                assert(b0[base + (lz + j)] == t[lz + j]);
            }
        }
    } else {
        proof {
            if !(E10_DN <= e <= E10_UP) {
                assert forall|j: int| 0 <= j < sd2.len() - 1 implies #[trigger] buf@[base + 2 + j]
                    == sd2[1 + j] by {
                    let i = 2 + j;
                    assert(b2[base + i] == b0[base + i - 1]);
                    assert(b0[base + (1 + j)] == t[1 + j]);
                }
            }
        }
    }
    let ghost b3 = buf@;
    let ghost e2 = e10 as int;
    proof {
        assert(sd2 == sd.skip(crate::text::leading_zero_count(sd) as int));
        assert(e2 == e - crate::text::leading_zero_count(sd));
    }
    let exp_result = exp_result_double(e10);
    let exp_len = exp_result >> 56;
    let q = p + exp_pos as usize;
    write_u64_le(buf, q, exp_result);
    proof {
        if E10_DN <= e <= E10_UP {
            assert forall|i: int| 0 <= i < fsp + exp_pos implies #[trigger] buf@[base + i] == if i
                == dot {
                46u8
            } else if fsp + mv <= i < fsp + mv + 16 {
                b0[base + i - (mv - dot)]
            } else {
                b0[base + i]
            } by {
                assert(buf@[base + i] == b2[base + i]);
            }
            lemma_layout_positional(
                b0,
                buf@,
                base as int,
                fsp,
                dot,
                mv,
                exp_pos as int,
                sd,
                e,
                32,
                16,
            );
            assert(exp_result == 0);
            assert(exp_len == 0) by {
                lemma2_to64_rest();
                lemma_shr_range(0, 56, 0, 1);
            }
            assert(crate::text::leading_zero_count(sd) == 0);
            assert(sd.skip(0) =~= sd);
        } else {
            lemma_layout_scientific(b3, buf@, base as int, exp_pos as int, sd2, e2, exp_result);
            assert(fsp == 0);
        }
        assert(le_bytes(exp_result)[exp_len as int] == 0) by {
            if E10_DN <= e <= E10_UP {
                lemma_word_bytes(exp_result, 0, 0, 0, 0, 0, 0, 0, 0);
            }
        }
        crate::bytes::lemma_splice_read_byte(b3, q as int, le_bytes(exp_result), exp_len as int);
    }
    exp_len as usize + (q - buf_origin)
}


/// The body of `xjb64` and `xjb64_with_table`.
fn write64(table: Option<&Pow10Double>, bits: u64, buf: &mut [u8]) -> (len: usize)
    requires
        table matches Some(t) ==> t.wf(),
        old(buf)@.len() >= 39,
    ensures
        final(buf)@.len() == old(buf)@.len(),
        len <= 25,
        len < final(buf)@.len(),
        final(buf)@.take(len as int) == format64(bits),
        final(buf)@[len as int] == 0,
        forall|i: int| 39 <= i < final(buf)@.len() ==> #[trigger] final(buf)@[i] == old(buf)@[i],
        f64_exp(bits) < 2047 && (f64_exp(bits) != 0 || f64_sig(bits) > 1) ==> same_decimal(
            text_decimal(format64(bits).skip(sign_text(f64_neg(bits)).len() as int)),
            decimal64_value(decimal64(bits)),
        ),
{
    let is_neg = (bits >> 63) as usize;
    proof {
        lemma_f64_fields(bits);
    }
    buf[0] = 45;
    let p = is_neg;
    let ghost prefix = sign_text(f64_neg(bits));
    let sig = bits & 0xF_FFFF_FFFF_FFFF;
    let exp = (bits << 1) >> 53;
    proof {
        assert(prefix.len() == is_neg);
        assert(is_neg == 1 ==> prefix[0] == 45u8);
    }
    if exp == 0 && sig <= 1 {
        if sig == 0 {
            let ghost b = buf@;
            write_u64_le(buf, p, 0x30_2E30);
            proof {
                lemma_word_bytes(0x30_2E30, 48, 46, 48, 0, 0, 0, 0, 0);
                lemma_text_word(0x30_2E30, seq![48u8, 46u8, 48u8]);
                crate::bytes::lemma_splice_read(b, p as int, le_bytes(0x30_2E30), 3);
                crate::bytes::lemma_splice_read_byte(b, p as int, le_bytes(0x30_2E30), 3);
                lemma_prefixed(buf@, prefix, seq![48u8, 46u8, 48u8]);
            }
            return is_neg + 3;
        } else {
            let ghost b = buf@;
            write_u64_le(buf, p, 0x3432_332D_6535);
            proof {
                lemma_word_bytes(0x3432_332D_6535, 53, 101, 45, 51, 50, 52, 0, 0);
                lemma_text_word(0x3432_332D_6535, seq![53u8, 101u8, 45u8, 51u8, 50u8, 52u8]);
                crate::bytes::lemma_splice_read(b, p as int, le_bytes(0x3432_332D_6535), 6);
                crate::bytes::lemma_splice_read_byte(b, p as int, le_bytes(0x3432_332D_6535), 6);
                lemma_prefixed(buf@, prefix, seq![53u8, 101u8, 45u8, 51u8, 50u8, 52u8]);
            }
            return is_neg + 6;
        }
    }
    if exp == 2047 {
        let src: u32 = if sig == 0 {
            0x66_6E69
        } else {
            0x4E_614E
        };
        let ghost b = buf@;
        write_u32_le(buf, p, src);
        proof {
            crate::bytes::lemma_splice_read(b, p as int, le_bytes(src as u64).take(4), 3);
            crate::bytes::lemma_splice_read_byte(b, p as int, le_bytes(src as u64).take(4), 3);
            assert(le_bytes(src as u64).take(4).take(3) =~= le_bytes(src as u64).take(3));
            if sig == 0 {
                lemma_word_bytes(0x66_6E69, 105, 110, 102, 0, 0, 0, 0, 0);
                lemma_text_word(0x66_6E69, seq![105u8, 110u8, 102u8]);
                lemma_prefixed(buf@, prefix, seq![105u8, 110u8, 102u8]);
            } else {
                lemma_word_bytes(0x4E_614E, 78, 97, 78, 0, 0, 0, 0, 0);
                lemma_text_word(0x4E_614E, seq![78u8, 97u8, 78u8]);
                lemma_prefixed(buf@, prefix, seq![78u8, 97u8, 78u8]);
            }
        }
        return is_neg + 3;
    }
    let d = decimal_double(table, bits);
    let (first_sig_pos, dot_pos, move_pos, exp_pos, sig_len) = place_digits64(buf, p, &d);
    let body_len = finish_layout64(buf, p, &d, first_sig_pos, dot_pos, move_pos, exp_pos, sig_len);
    proof {
        lemma_prefixed(buf@, prefix, render_digits(digits64(bits), e10_64(bits)));
        crate::text::lemma_render_digits_len(digits64(bits), e10_64(bits));
        let sd = digits64(bits);
        let e = e10_64(bits);
        lemma_sig_digits_value(d);
        crate::value::lemma_render_digits_value(sd, e);
        crate::value::lemma_same_decimal_trans(
            text_decimal(render_digits(sd, e)),
            (digits_value(sd), e + 1 - sd.len()),
            decimal64_value(d),
        );
        assert(format64(bits).skip(prefix.len() as int) =~= render_digits(sd, e));
    }
    is_neg + body_len
}

/// Writes the decimal text of the `f64` with bit pattern `bits` to the start of `buf`,
/// followed by a NUL byte, and returns the length of the text. The algorithm uses the first
/// 39 bytes of `buf` as scratch space: bytes past the text and the NUL among them may be
/// overwritten, and bytes from 39 on are left alone.
pub fn xjb64(bits: u64, buf: &mut [u8]) -> (len: usize)
    requires
        old(buf)@.len() >= 39,
    ensures
        final(buf)@.len() == old(buf)@.len(),
        len <= 25,
        len < final(buf)@.len(),
        final(buf)@.take(len as int) == format64(bits),
        final(buf)@[len as int] == 0,
        forall|i: int| 39 <= i < final(buf)@.len() ==> #[trigger] final(buf)@[i] == old(buf)@[i],
        f64_exp(bits) < 2047 && (f64_exp(bits) != 0 || f64_sig(bits) > 1) ==> same_decimal(
            text_decimal(format64(bits).skip(sign_text(f64_neg(bits)).len() as int)),
            decimal64_value(decimal64(bits)),
        ),
{
    write64(None, bits, buf)
}

/// Writes the decimal text of the `f64` with bit pattern `bits` to the start of `buf`,
/// followed by a NUL byte, and returns the length of the text, reading powers of ten from
/// `table`. The algorithm uses the first 39 bytes of `buf` as scratch space: bytes past the
/// text and the NUL among them may be overwritten, and bytes from 39 on are left alone.
pub fn xjb64_with_table(table: &Pow10Double, bits: u64, buf: &mut [u8]) -> (len: usize)
    requires
        table.wf(),
        old(buf)@.len() >= 39,
    ensures
        final(buf)@.len() == old(buf)@.len(),
        len <= 25,
        len < final(buf)@.len(),
        final(buf)@.take(len as int) == format64(bits),
        final(buf)@[len as int] == 0,
        forall|i: int| 39 <= i < final(buf)@.len() ==> #[trigger] final(buf)@[i] == old(buf)@[i],
        f64_exp(bits) < 2047 && (f64_exp(bits) != 0 || f64_sig(bits) > 1) ==> same_decimal(
            text_decimal(format64(bits).skip(sign_text(f64_neg(bits)).len() as int)),
            decimal64_value(decimal64(bits)),
        ),
{
    write64(Some(table), bits, buf)
}

/// Negating a value only puts a minus sign in front of its text: the text of any bit
/// pattern is its sign followed by the text of the pattern with the sign bit cleared.
pub proof fn lemma_format64_sign(bits: u64)
    ensures
        !f64_neg(bits & 0x7FFF_FFFF_FFFF_FFFFu64),
        format64(bits) == sign_text(f64_neg(bits)) + format64(bits & 0x7FFF_FFFF_FFFF_FFFFu64),
{
    let a = bits & 0x7FFF_FFFF_FFFF_FFFFu64;
    lemma_f64_fields(bits);
    assert(significand64(a) == significand64(bits));
    assert(exponent64(a) == exponent64(bits));
    assert(k_regular64(a) == k_regular64(bits));
    assert(decimal64_regular_dot_one(a) == decimal64_regular_dot_one(bits));
    assert(decimal64_regular(a) == decimal64_regular(bits));
    assert(decimal64_irregular(a) == decimal64_irregular(bits));
    assert(decimal64(a) == decimal64(bits));
    assert(format64(bits) =~= sign_text(f64_neg(bits)) + format64(a));
}

/// The first bytes of a word spell `text`.
pub proof fn lemma_text_word(w: u64, text: Seq<u8>)
    requires
        text.len() <= 8,
        forall|i: int| 0 <= i < text.len() ==> #[trigger] byte_of(w, i) == text[i],
    ensures
        le_bytes(w).take(text.len() as int) == text,
{
    assert(le_bytes(w).take(text.len() as int) =~= text);
}

/// A buffer that starts with `prefix` and continues with `body` starts with their
/// concatenation.
pub proof fn lemma_prefixed(b: Seq<u8>, prefix: Seq<u8>, body: Seq<u8>)
    requires
        prefix.len() + body.len() <= b.len(),
        forall|i: int| 0 <= i < prefix.len() ==> #[trigger] b[i] == prefix[i],
        b.subrange(prefix.len() as int, (prefix.len() + body.len()) as int) == body,
    ensures
        b.take((prefix.len() + body.len()) as int) == prefix + body,
{
    assert forall|i: int| 0 <= i < prefix.len() + body.len() implies #[trigger] b.take(
        (prefix.len() + body.len()) as int,
    )[i] == (prefix + body)[i] by {
        if i >= prefix.len() {
            assert(b.subrange(prefix.len() as int, (prefix.len() + body.len()) as int)[i - prefix.len()]
                == b[i]);
        }
    }
    assert(b.take((prefix.len() + body.len()) as int) =~= prefix + body);
}

} // verus!
