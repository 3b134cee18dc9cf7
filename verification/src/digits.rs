//! Conversion of a decimal significand to ASCII digits, eight digits per machine word.
use crate::bytes::{byte_of, fill, le_bytes, lemma_wrapping_u64, lemma_word_bytes, splice};
use crate::text::{
    dec_digits, digit_char, lemma_dec_digits_split, pow10, trim_trailing_zeros, zeros,
};
use vstd::arithmetic::div_mod::{lemma_fundamental_div_mod, lemma_fundamental_div_mod_converse};
use vstd::arithmetic::power2::{lemma2_to64, lemma2_to64_rest, pow2};
use vstd::bits::lemma_u64_shr_is_div;
use vstd::prelude::*;

verus! {

/// Division by `d` as multiplication by `mul` followed by division by `p`: exact as long
/// as the rounding error `err` of `mul` stays small against `x`.
pub proof fn lemma_magic_div(x: nat, d: nat, mul: nat, p: nat, err: nat)
    requires
        d > 0,
        p > 0,
        mul * d == p + err,
        x * err < p,
    ensures
        (x * mul) / p == x / d,
{
    let q = x / d;
    let t = x % d;
    lemma_fundamental_div_mod(x as int, d as int);
    let rem = x * mul - q * p;
    assert(rem * d == t * p + x * err) by (nonlinear_arith)
        requires
            rem == x * mul - q * p,
            mul * d == p + err,
            x == d * q + t,
    ;
    assert(0 <= rem < p) by (nonlinear_arith)
        requires
            rem * d == t * p + x * err,
            0 <= t < d,
            x * err < p,
            d > 0,
            p > 0,
    ;
    lemma_fundamental_div_mod_converse((x * mul) as int, p as int, q as int, rem as int);
}

/// `(x * mul) >> s` as a quotient, for a product that stays in the word.
proof fn lemma_mul_shr(x: u64, mul: u64, s: u64)
    requires
        s < 64,
        x * mul <= u64::MAX,
    ensures
        ((x * mul) as u64) >> s == (x * mul) / (pow2(s as nat) as int),
{
    lemma_u64_shr_is_div((x * mul) as u64, s);
}

/// The word arithmetic of the first step of `to_ascii8`: the quotient by `10^4` moves to
/// the low half, the remainder to the high half.
proof fn lemma_ascii8_merge1(m: u64, q: u64, r: u64, a: u64)
    requires
        m == 10000 * q + r,
        q < 10000,
        r < 10000,
        a == ((m << 32u64) + (((1u64 - (10000u64 << 32u64)) as u64) * q) as u64) as u64,
    ensures
        a == r * 0x1_0000_0000 + q,
{
    assert(a == r * 0x1_0000_0000 + q) by (bit_vector)
        requires
            m == 10000 * q + r,
            q < 10000,
            r < 10000,
            a == ((m << 32u64) + (((1u64 - (10000u64 << 32u64)) as u64) * q) as u64) as u64,
    ;
}

/// Splitting eight digits into two halves of four, for the word layout of `to_ascii8`.
proof fn lemma_ascii8_stage1(m: u64, q: u64, a: u64)
    requires
        m < 100000000,
        q == ((m * 109951163) as u64) >> 40u64,
        a == ((m << 32u64) + (((1u64 - (10000u64 << 32u64)) as u64) * q) as u64) as u64,
    ensures
        q == m / 10000,
        a == (m % 10000) * 0x1_0000_0000 + q,
{
    lemma_mul_shr(m, 109951163, 40);
    lemma2_to64_rest();
    lemma_magic_div(m as nat, 10000, 109951163, 0x100_0000_0000, 2224);
    lemma_fundamental_div_mod(m as int, 10000);
    lemma_ascii8_merge1(m, q, (m % 10000) as u64, a);
}

/// The word arithmetic of the second step of `to_ascii8`: each four-digit half splits
/// into two-digit groups.
proof fn lemma_ascii8_merge2(
    q: u64,
    r: u64,
    x: u64,
    t: u64,
    y: u64,
    qh: u64,
    ql: u64,
    rh: u64,
    rl: u64,
)
    requires
        q < 10000,
        r < 10000,
        x == r * 0x1_0000_0000 + q,
        qh == ((q * 10486) as u64) >> 20u64,
        rh == ((r * 10486) as u64) >> 20u64,
        q == 100 * qh + ql,
        r == 100 * rh + rl,
        qh < 100,
        rh < 100,
        ql < 100,
        rl < 100,
        t == (((x * 10486) as u64) >> 20u64) & ((0x7Fu64 << 32u64) | 0x7Fu64),
        y == ((x << 16u64) + (((1u64 - (100u64 << 16u64)) as u64) * t) as u64) as u64,
    ensures
        y == rl * 0x1_0000_0000_0000 + rh * 0x1_0000_0000 + ql * 0x1_0000 + qh,
{
    assert(y == rl * 0x1_0000_0000_0000 + rh * 0x1_0000_0000 + ql * 0x1_0000 + qh)
        by (bit_vector)
        requires
            q < 10000,
            r < 10000,
            x == r * 0x1_0000_0000 + q,
            qh == ((q * 10486) as u64) >> 20u64,
            rh == ((r * 10486) as u64) >> 20u64,
            q == 100 * qh + ql,
            r == 100 * rh + rl,
            qh < 100,
            rh < 100,
            ql < 100,
            rl < 100,
            t == (((x * 10486) as u64) >> 20u64) & ((0x7Fu64 << 32u64) | 0x7Fu64),
            y == ((x << 16u64) + (((1u64 - (100u64 << 16u64)) as u64) * t) as u64) as u64,
    ;
}

/// The four two-digit groups of a word holding two four-digit numbers, one per half.
proof fn lemma_ascii8_stage2(q: u64, r: u64, x: u64, t: u64, y: u64)
    requires
        q < 10000,
        r < 10000,
        x == r * 0x1_0000_0000 + q,
        t == (((x * 10486) as u64) >> 20u64) & ((0x7Fu64 << 32u64) | 0x7Fu64),
        y == ((x << 16u64) + (((1u64 - (100u64 << 16u64)) as u64) * t) as u64) as u64,
    ensures
        y == (r % 100) * 0x1_0000_0000_0000 + (r / 100) * 0x1_0000_0000 + (q % 100) * 0x1_0000
            + q / 100,
{
    lemma_mul_shr(q, 10486, 20);
    lemma_mul_shr(r, 10486, 20);
    lemma2_to64();
    lemma_magic_div(q as nat, 100, 10486, 0x10_0000, 24);
    lemma_magic_div(r as nat, 100, 10486, 0x10_0000, 24);
    lemma_fundamental_div_mod(q as int, 100);
    lemma_fundamental_div_mod(r as int, 100);
    lemma_ascii8_merge2(
        q,
        r,
        x,
        t,
        y,
        q / 100,
        q % 100,
        r / 100,
        r % 100,
    );
}

/// The word arithmetic of the last step of `to_ascii8`: each two-digit group splits into
/// its digits, the first in the lower byte.
proof fn lemma_ascii8_merge3(
    w0: u64,
    w1: u64,
    w2: u64,
    w3: u64,
    a0: u64,
    a1: u64,
    a2: u64,
    a3: u64,
    b0: u64,
    b1: u64,
    b2: u64,
    b3: u64,
    y: u64,
    t: u64,
    z: u64,
)
    requires
        a0 == ((w0 * 103) as u64) >> 10u64,
        a1 == ((w1 * 103) as u64) >> 10u64,
        a2 == ((w2 * 103) as u64) >> 10u64,
        a3 == ((w3 * 103) as u64) >> 10u64,
        w0 == 10 * a0 + b0,
        w1 == 10 * a1 + b1,
        w2 == 10 * a2 + b2,
        w3 == 10 * a3 + b3,
        a0 < 10,
        a1 < 10,
        a2 < 10,
        a3 < 10,
        b0 < 10,
        b1 < 10,
        b2 < 10,
        b3 < 10,
        y == w3 * 0x1_0000_0000_0000 + w2 * 0x1_0000_0000 + w1 * 0x1_0000 + w0,
        t == (((y * 103) as u64) >> 10u64) & ((0xFu64 << 48u64) | (0xFu64 << 32u64) | (0xFu64
            << 16u64) | 0xFu64),
        z == ((y << 8u64) + (((1u64 - (10u64 << 8u64)) as u64) * t) as u64) as u64,
    ensures
        z == a0 + b0 * 0x100 + a1 * 0x1_0000 + b1 * 0x100_0000 + a2 * 0x1_0000_0000 + b2
            * 0x100_0000_0000 + a3 * 0x1_0000_0000_0000 + b3 * 0x100_0000_0000_0000,
{
    assert(z == a0 + b0 * 0x100 + a1 * 0x1_0000 + b1 * 0x100_0000 + a2 * 0x1_0000_0000 + b2
        * 0x100_0000_0000 + a3 * 0x1_0000_0000_0000 + b3 * 0x100_0000_0000_0000) by (bit_vector)
        requires
            a0 == ((w0 * 103) as u64) >> 10u64,
            a1 == ((w1 * 103) as u64) >> 10u64,
            a2 == ((w2 * 103) as u64) >> 10u64,
            a3 == ((w3 * 103) as u64) >> 10u64,
            w0 == 10 * a0 + b0,
            w1 == 10 * a1 + b1,
            w2 == 10 * a2 + b2,
            w3 == 10 * a3 + b3,
            a0 < 10,
            a1 < 10,
            a2 < 10,
            a3 < 10,
            b0 < 10,
            b1 < 10,
            b2 < 10,
            b3 < 10,
            y == w3 * 0x1_0000_0000_0000 + w2 * 0x1_0000_0000 + w1 * 0x1_0000 + w0,
            t == (((y * 103) as u64) >> 10u64) & ((0xFu64 << 48u64) | (0xFu64 << 32u64) | (
            0xFu64 << 16u64) | 0xFu64),
            z == ((y << 8u64) + (((1u64 - (10u64 << 8u64)) as u64) * t) as u64) as u64,
    ;
}

/// Quotient and remainder by ten of the four two-digit groups, the quotients computed as
/// `(w * 103) >> 10`.
proof fn lemma_groups_by_ten(w0: u64, w1: u64, w2: u64, w3: u64)
    requires
        w0 < 100,
        w1 < 100,
        w2 < 100,
        w3 < 100,
    ensures
        ((w0 * 103) as u64) >> 10u64 == w0 / 10,
        ((w1 * 103) as u64) >> 10u64 == w1 / 10,
        ((w2 * 103) as u64) >> 10u64 == w2 / 10,
        ((w3 * 103) as u64) >> 10u64 == w3 / 10,
        w0 == 10 * (w0 / 10) + w0 % 10,
        w1 == 10 * (w1 / 10) + w1 % 10,
        w2 == 10 * (w2 / 10) + w2 % 10,
        w3 == 10 * (w3 / 10) + w3 % 10,
{
    lemma_mul_shr(w0, 103, 10);
    lemma_mul_shr(w1, 103, 10);
    lemma_mul_shr(w2, 103, 10);
    lemma_mul_shr(w3, 103, 10);
    lemma2_to64();
    lemma_magic_div(w0 as nat, 10, 103, 1024, 6);
    lemma_magic_div(w1 as nat, 10, 103, 1024, 6);
    lemma_magic_div(w2 as nat, 10, 103, 1024, 6);
    lemma_magic_div(w3 as nat, 10, 103, 1024, 6);
    lemma_fundamental_div_mod(w0 as int, 10);
    lemma_fundamental_div_mod(w1 as int, 10);
    lemma_fundamental_div_mod(w2 as int, 10);
    lemma_fundamental_div_mod(w3 as int, 10);
}

/// The eight single digits of a word holding four two-digit numbers, one per 16-bit lane.
proof fn lemma_ascii8_stage3(w0: u64, w1: u64, w2: u64, w3: u64, y: u64, t: u64, z: u64)
    requires
        w0 < 100,
        w1 < 100,
        w2 < 100,
        w3 < 100,
        y == w3 * 0x1_0000_0000_0000 + w2 * 0x1_0000_0000 + w1 * 0x1_0000 + w0,
        t == (((y * 103) as u64) >> 10u64) & ((0xFu64 << 48u64) | (0xFu64 << 32u64) | (0xFu64
            << 16u64) | 0xFu64),
        z == ((y << 8u64) + (((1u64 - (10u64 << 8u64)) as u64) * t) as u64) as u64,
    ensures
        byte_of(z, 0) == w0 / 10,
        byte_of(z, 1) == w0 % 10,
        byte_of(z, 2) == w1 / 10,
        byte_of(z, 3) == w1 % 10,
        byte_of(z, 4) == w2 / 10,
        byte_of(z, 5) == w2 % 10,
        byte_of(z, 6) == w3 / 10,
        byte_of(z, 7) == w3 % 10,
{
    lemma_groups_by_ten(w0, w1, w2, w3);
    lemma_ascii8_merge3(
        w0,
        w1,
        w2,
        w3,
        w0 / 10,
        w1 / 10,
        w2 / 10,
        w3 / 10,
        w0 % 10,
        w1 % 10,
        w2 % 10,
        w3 % 10,
        y,
        t,
        z,
    );
    lemma_word_bytes(z, w0 / 10, w0 % 10, w1 / 10, w1 % 10, w2 / 10, w2 % 10, w3 / 10, w3 % 10);
}

/// Byte `i` of a digit word shifted down by `lz` bytes and turned into ASCII, and the
/// small identities the shift amount and the last index come from.
proof fn lemma_shifted_ascii(z: u64, lz: u32, i: u64)
    requires
        lz <= 2,
        i < 8,
    ensures
        byte_of((z >> (lz << 3u32)) | 0x3030_3030_3030_3030u64, i as int) == if i + lz < 8 {
            byte_of(z, (i + lz) as int) | 0x30u8
        } else {
            0x30u8
        },
        lz << 3u32 == 8 * lz,
        7 ^ lz == 7 - lz,
{
    let w = (z >> (lz << 3u32)) | 0x3030_3030_3030_3030u64;
    assert((((w >> ((8 * i) as u64)) & 0xffu64) as u8) == (if i + lz < 8 {
        (((z >> ((8 * (i + lz)) as u64)) & 0xffu64) as u8) | 0x30u8
    } else {
        0x30u8
    }) && lz << 3u32 == 8 * lz && 7 ^ lz == 7 - lz) by (bit_vector)
        requires
            lz <= 2,
            i < 8,
            w == (z >> (lz << 3u32)) | 0x3030_3030_3030_3030u64,
    ;
}

/// Which bytes of `z` are zero, read off its count of leading zero bits `l`.
proof fn lemma_leading_zero_bytes(z: u64, l: u64, i: u64)
    requires
        l <= 64,
        l < 64 ==> (z >> ((63 - l) as u64)) & 1u64 != 0u64,
        z >> ((64 - l) as u64) == 0,
        i < 8,
    ensures
        i >= 8 - (l >> 3u64) ==> byte_of(z, i as int) == 0,
        i == 7 - (l >> 3u64) ==> byte_of(z, i as int) != 0,
{
    assert((i >= 8 - (l >> 3u64) ==> (((z >> ((8 * i) as u64)) & 0xffu64) as u8) == 0) && (i
        == 7 - (l >> 3u64) ==> (((z >> ((8 * i) as u64)) & 0xffu64) as u8) != 0)) by (bit_vector)
        requires
            l <= 64,
            l < 64 ==> (z >> ((63 - l) as u64)) & 1u64 != 0u64,
            z >> ((64 - l) as u64) == 0,
            i < 8,
    ;
}

/// Trailing `'0'` characters removed from a sequence whose last nonzero character is known.
pub proof fn lemma_trim_trailing_zeros(s: Seq<u8>, t: nat)
    requires
        t < s.len(),
        forall|j: int| s.len() - t <= j < s.len() ==> s[j] == 48u8,
        s[s.len() - 1 - t] != 48u8,
    ensures
        trim_trailing_zeros(s) == s.take(s.len() - t),
    decreases t,
{
    if t == 0 {
        assert(s.take(s.len() as int) =~= s);
    } else {
        lemma_trim_trailing_zeros(s.drop_last(), (t - 1) as nat);
        assert(s.drop_last().take(s.len() - 1 - (t - 1)) =~= s.take(s.len() - t));
    }
}

/// A sequence of `'0'` characters trims down to its first character.
pub proof fn lemma_trim_all_zeros(s: Seq<u8>)
    requires
        s.len() >= 1,
        forall|j: int| 0 <= j < s.len() ==> s[j] == 48u8,
    ensures
        trim_trailing_zeros(s) == s.take(1),
    decreases s.len(),
{
    if s.len() == 1 {
        assert(s.take(1) =~= s);
    } else {
        lemma_trim_all_zeros(s.drop_last());
        assert(s.drop_last().take(1) =~= s.take(1));
    }
}

/// The two digits of a number below one hundred.
pub proof fn lemma_dec_digits2(w: nat)
    requires
        w < 100,
    ensures
        dec_digits(w, 2) == seq![digit_char(w / 10), digit_char(w % 10)],
{
    reveal_with_fuel(dec_digits, 3);
    assert((w / 10) % 10 == w / 10);
    assert(dec_digits(w, 2) =~= seq![digit_char(w / 10), digit_char(w % 10)]);
}

/// The powers of ten up to `10^17`.
pub proof fn lemma_pow10_values()
    ensures
        pow10(0) == 1,
        pow10(1) == 10,
        pow10(2) == 100,
        pow10(3) == 1000,
        pow10(4) == 10000,
        pow10(5) == 100000,
        pow10(6) == 1000000,
        pow10(7) == 10000000,
        pow10(8) == 100000000,
        pow10(9) == 1000000000,
        pow10(10) == 10000000000,
        pow10(11) == 100000000000,
        pow10(12) == 1000000000000,
        pow10(13) == 10000000000000,
        pow10(14) == 100000000000000,
        pow10(15) == 1000000000000000,
        pow10(16) == 10000000000000000,
        pow10(17) == 100000000000000000,
{
    assert(pow10(0) == 1);
    assert(pow10(1) == 10);
    assert(pow10(2) == 100);
    assert(pow10(3) == 1000);
    assert(pow10(4) == 10000);
    assert(pow10(5) == 100000);
    assert(pow10(6) == 1000000);
    assert(pow10(7) == 10000000);
    assert(pow10(8) == 100000000);
    assert(pow10(9) == 1000000000);
    assert(pow10(10) == 10000000000);
    assert(pow10(11) == 100000000000);
    assert(pow10(12) == 1000000000000);
    assert(pow10(13) == 10000000000000);
    assert(pow10(14) == 100000000000000);
    assert(pow10(15) == 1000000000000000);
    assert(pow10(16) == 10000000000000000);
    assert(pow10(17) == 100000000000000000);
}

/// The four digits of a number below ten thousand, in two groups of two.
pub proof fn lemma_dec_digits4(x: nat)
    requires
        x < 10000,
    ensures
        dec_digits(x, 4) == seq![
            digit_char((x / 100) / 10),
            digit_char((x / 100) % 10),
            digit_char((x % 100) / 10),
            digit_char((x % 100) % 10),
        ],
{
    lemma_pow10_values();
    lemma_dec_digits_split(x, 2, 2);
    lemma_dec_digits2(x / 100);
    lemma_dec_digits2(x % 100);
    assert(dec_digits(x, 4) =~= seq![
        digit_char((x / 100) / 10),
        digit_char((x / 100) % 10),
        digit_char((x % 100) / 10),
        digit_char((x % 100) % 10),
    ]);
}


/// ASCII `'0'` in each byte of a word.
pub const ZERO: u64 = 0x3030_3030_3030_3030;

/// The significand of an `f32`, as ASCII digits packed in a word.
pub struct ShortestAscii8 {
    /// The digits, first digit in the lowest byte, padded with `'0'`.
    pub ascii: u64,
    /// Index of the last digit to print.
    pub dec_sig_len: u64,
}

/// Writes the `8 - lz` digits of `m` as ASCII into a word and finds the last significant
/// one: the last nonzero digit when `up_down` is set, else the digit position just past
/// them, which the caller fills with a rounding digit.
#[verifier::rlimit(40)]
pub fn to_ascii8(m: u64, up_down: u32, lz: u32) -> (s: ShortestAscii8)
    requires
        lz <= 2,
        m < pow10((8 - lz) as nat),
    ensures
        le_bytes(s.ascii) == dec_digits(m as nat, (8 - lz) as nat) + zeros(lz as nat),
        s.dec_sig_len == if up_down != 0 {
            (trim_trailing_zeros(dec_digits(m as nat, (8 - lz) as nat)).len() - 1) as u64
        } else {
            (8 - lz) as u64
        },
{
    proof {
        lemma_pow10_values();
        assert(m < 100000000) by {
            if lz == 1 {
            } else if lz == 2 {
            }
        }
    }
    let q = (m * 109_951_163) >> 40;
    let aabb_ccdd_merge = (m << 32).wrapping_add(1u64.wrapping_sub(10000 << 32).wrapping_mul(q));
    proof {
        lemma_wrapping_u64(1u64, 10000u64 << 32u64);
        lemma_wrapping_u64((1u64 - (10000u64 << 32u64)) as u64, q);
        lemma_wrapping_u64(m << 32u64, (((1u64 - (10000u64 << 32u64)) as u64) * q) as u64);
        lemma_ascii8_stage1(m, q, aabb_ccdd_merge);
    }
    let t2 = (aabb_ccdd_merge * 10_486 >> 20) & ((0x7F << 32) | 0x7F);
    let aa_bb_cc_dd_merge = (aabb_ccdd_merge << 16).wrapping_add(
        1u64.wrapping_sub(100 << 16).wrapping_mul(t2),
    );
    let ghost r = m % 10000;
    proof {
        lemma_wrapping_u64(1u64, 100u64 << 16u64);
        lemma_wrapping_u64((1u64 - (100u64 << 16u64)) as u64, t2);
        lemma_wrapping_u64(
            aabb_ccdd_merge << 16u64,
            (((1u64 - (100u64 << 16u64)) as u64) * t2) as u64,
        );
        lemma_ascii8_stage2(q, r, aabb_ccdd_merge, t2, aa_bb_cc_dd_merge);
        let w0 = q / 100;
        let w1 = q % 100;
        let w2 = (r / 100) as u64;
        let w3 = (r % 100) as u64;
        assert(aa_bb_cc_dd_merge < 0x100_0000_0000_0000u64);
    }
    let t3 = (aa_bb_cc_dd_merge * 103 >> 10) & ((0xF << 48) | (0xF << 32) | (0xF << 16) | 0xF);
    let abcdefgh_bcd = (aa_bb_cc_dd_merge << 8).wrapping_add(
        1u64.wrapping_sub(10 << 8).wrapping_mul(t3),
    );
    let ghost digits8 = dec_digits(m as nat, 8);
    proof {
        lemma_wrapping_u64(1u64, 10u64 << 8u64);
        lemma_wrapping_u64((1u64 - (10u64 << 8u64)) as u64, t3);
        lemma_wrapping_u64(
            aa_bb_cc_dd_merge << 8u64,
            (((1u64 - (10u64 << 8u64)) as u64) * t3) as u64,
        );
        let w0 = q / 100;
        let w1 = q % 100;
        let w2 = (r / 100) as u64;
        let w3 = (r % 100) as u64;
        lemma_ascii8_stage3(w0, w1, w2, w3, aa_bb_cc_dd_merge, t3, abcdefgh_bcd);
        lemma_dec_digits_split(m as nat, 4, 4);
        lemma_dec_digits4(q as nat);
        lemma_dec_digits4(r as nat);
        assert forall|i: int| 0 <= i < 8 implies #[trigger] digits8[i] == digit_char(
            byte_of(abcdefgh_bcd, i) as nat,
        ) && byte_of(abcdefgh_bcd, i) < 10 by {}
    }
    let tz = abcdefgh_bcd.leading_zeros() >> 3;
    let ghost n = (8 - lz) as nat;
    let ghost digits = dec_digits(m as nat, n);
    proof {
        lemma_dec_digits_split(m as nat, lz as nat, n);
        vstd::std_specs::bits::axiom_u64_leading_zeros(abcdefgh_bcd);
        let l = vstd::std_specs::bits::u64_leading_zeros(abcdefgh_bcd) as u64;
        assert(m as nat % pow10(n) == m as nat) by {
            vstd::arithmetic::div_mod::lemma_small_mod(m as nat, pow10(n));
        }
        assert(m as nat / pow10(n) == 0) by {
            vstd::arithmetic::div_mod::lemma_basic_div(m as int, pow10(n) as int);
        }
        crate::text::lemma_dec_digits_len(m as nat, n);
        crate::text::lemma_dec_digits_len(0, lz as nat);
        assert(digits8 == dec_digits(0, lz as nat) + digits);
        assert forall|i: int| 0 <= i < n implies #[trigger] digits[i] == digits8[i + lz] by {}
        assert forall|i: int| 0 <= i < lz implies digits8[i] == 48u8 by {
            lemma_dec_digits_zero(lz as nat);
            assert(digits8[i] == dec_digits(0, lz as nat)[i]);
        }
        assert(tz == l >> 3u64);
        assert forall|i: u64| i < 8 implies (i >= 8 - (l >> 3u64) ==> byte_of(
            abcdefgh_bcd,
            i as int,
        ) == 0) && (i == 7 - (l >> 3u64) ==> byte_of(abcdefgh_bcd, i as int) != 0) by {
            lemma_leading_zero_bytes(abcdefgh_bcd, l, i);
        }
    }
    proof {
        lemma_shifted_ascii(abcdefgh_bcd, lz, 0);
    }
    let ascii = (abcdefgh_bcd >> (lz << 3)) | ZERO;
    proof {
        assert forall|i: int| 0 <= i < 8 implies #[trigger] le_bytes(ascii)[i] == (
        dec_digits(m as nat, n) + zeros(lz as nat))[i] by {
            lemma_shifted_ascii(abcdefgh_bcd, lz, i as u64);
            assert(le_bytes(ascii)[i] == byte_of(ascii, i));
            if i < n {
                let d = byte_of(abcdefgh_bcd, i + lz);
                lemma_digit_or(d);
                assert(digits[i] == digits8[i + lz]);
            } else {
                assert((dec_digits(m as nat, n) + zeros(lz as nat))[i] == zeros(lz as nat)[i - n]);
            }
        }
        assert(le_bytes(ascii) =~= dec_digits(m as nat, n) + zeros(lz as nat));
    }
    let dec_sig_len = if up_down != 0 {
        if tz <= (7 ^ lz) {
            ((7 ^ lz) - tz) as u64
        } else {
            0
        }
    } else {
        8 - lz as u64
    };
    proof {
        if up_down != 0 {
            let t = tz as nat;
            if tz <= 7 - lz {
                assert forall|j: int| n - t <= j < n implies digits[j] == 48u8 by {
                    assert(byte_of(abcdefgh_bcd, j + lz) == 0);
                }
                assert(digits[n - 1 - t] != 48u8) by {
                    assert(byte_of(abcdefgh_bcd, 7 - t) != 0);
                }
                lemma_trim_trailing_zeros(digits, t);
            } else {
                assert forall|j: int| 0 <= j < n implies digits[j] == 48u8 by {
                    if byte_of(abcdefgh_bcd, j + lz) != 0 {
                        assert(byte_of(abcdefgh_bcd, 7 - t) != 0);
                        assert(false);
                    }
                }
                lemma_trim_all_zeros(digits);
            }
        }
    }
    ShortestAscii8 { ascii, dec_sig_len }
}

/// The digits of zero are all `'0'`.
pub proof fn lemma_dec_digits_zero(n: nat)
    ensures
        forall|i: int| 0 <= i < n ==> #[trigger] dec_digits(0, n)[i] == 48u8,
    decreases n,
{
    if n > 0 {
        lemma_dec_digits_zero((n - 1) as nat);
        crate::text::lemma_dec_digits_len(0, (n - 1) as nat);
    }
}


/// The four-digit halves of an eight-digit number, high half in the high 32 bits.
proof fn lemma_ascii16_stage1(x: u64, y: u64)
    requires
        x < 100000000,
        y == x + (0x1_0000_0000u64 - 10000) * (((x * 0x68D_B8BB) as u64) >> 40u64),
    ensures
        y == (x / 10000) * 0x1_0000_0000 + x % 10000,
{
    lemma_mul_shr(x, 0x68D_B8BB, 40);
    lemma2_to64_rest();
    lemma_magic_div(x as nat, 10000, 109951163, 0x100_0000_0000, 2224);
    let q = x / 10000;
    let r = x % 10000;
    lemma_fundamental_div_mod(x as int, 10000);
    assert(y == q * 0x1_0000_0000u64 + r) by (nonlinear_arith)
        requires
            x == 10000 * q + r,
            y == x + (0x1_0000_0000u64 - 10000) * q,
    ;
}

/// The word arithmetic of the second step of `digits8_word`: each four-digit half splits
/// into two-digit groups, the higher group in the higher 16 bits.
proof fn lemma_ascii16_merge2(
    hi: u64,
    lo: u64,
    y: u64,
    z: u64,
    hh: u64,
    hl: u64,
    lh: u64,
    ll: u64,
)
    requires
        hi < 10000,
        lo < 10000,
        y == hi * 0x1_0000_0000 + lo,
        hh == ((hi * 0x147B) as u64) >> 19u64,
        lh == ((lo * 0x147B) as u64) >> 19u64,
        hi == 100 * hh + hl,
        lo == 100 * lh + ll,
        hh < 100,
        lh < 100,
        hl < 100,
        ll < 100,
        z == y + (0x10000u64 - 100) * ((((y * 0x147B) as u64) >> 19u64) & 0x007F_0000_007Fu64),
    ensures
        z == hh * 0x1_0000_0000_0000 + hl * 0x1_0000_0000 + lh * 0x1_0000 + ll,
{
    assert(z == hh * 0x1_0000_0000_0000 + hl * 0x1_0000_0000 + lh * 0x1_0000 + ll)
        by (bit_vector)
        requires
            hi < 10000,
            lo < 10000,
            y == hi * 0x1_0000_0000 + lo,
            hh == ((hi * 0x147B) as u64) >> 19u64,
            lh == ((lo * 0x147B) as u64) >> 19u64,
            hi == 100 * hh + hl,
            lo == 100 * lh + ll,
            hh < 100,
            lh < 100,
            hl < 100,
            ll < 100,
            z == y + (0x10000u64 - 100) * ((((y * 0x147B) as u64) >> 19u64)
                & 0x007F_0000_007Fu64),
    ;
}

/// Two-digit groups, the higher group of each half in the higher 16 bits.
proof fn lemma_ascii16_stage2(hi: u64, lo: u64, y: u64, z: u64)
    requires
        hi < 10000,
        lo < 10000,
        y == hi * 0x1_0000_0000 + lo,
        z == y + (0x10000u64 - 100) * ((((y * 0x147B) as u64) >> 19u64) & 0x007F_0000_007Fu64),
    ensures
        z == (hi / 100) * 0x1_0000_0000_0000 + (hi % 100) * 0x1_0000_0000 + (lo / 100)
            * 0x1_0000 + lo % 100,
{
    lemma_mul_shr(hi, 0x147B, 19);
    lemma_mul_shr(lo, 0x147B, 19);
    lemma2_to64();
    lemma_magic_div(hi as nat, 100, 5243, 0x8_0000, 12);
    lemma_magic_div(lo as nat, 100, 5243, 0x8_0000, 12);
    lemma_fundamental_div_mod(hi as int, 100);
    lemma_fundamental_div_mod(lo as int, 100);
    lemma_ascii16_merge2(hi, lo, y, z, hi / 100, hi % 100, lo / 100, lo % 100);
}

/// The word arithmetic of the last step of `digits8_word`: each two-digit group splits
/// into its digits, the first in the higher byte.
proof fn lemma_ascii16_merge3(
    w0: u64,
    w1: u64,
    w2: u64,
    w3: u64,
    a0: u64,
    a1: u64,
    a2: u64,
    a3: u64,
    b0: u64,
    b1: u64,
    b2: u64,
    b3: u64,
    y: u64,
    z: u64,
)
    requires
        a0 == ((w0 * 103) as u64) >> 10u64,
        a1 == ((w1 * 103) as u64) >> 10u64,
        a2 == ((w2 * 103) as u64) >> 10u64,
        a3 == ((w3 * 103) as u64) >> 10u64,
        w0 == 10 * a0 + b0,
        w1 == 10 * a1 + b1,
        w2 == 10 * a2 + b2,
        w3 == 10 * a3 + b3,
        a0 < 10,
        a1 < 10,
        a2 < 10,
        a3 < 10,
        b0 < 10,
        b1 < 10,
        b2 < 10,
        b3 < 10,
        y == w3 * 0x1_0000_0000_0000 + w2 * 0x1_0000_0000 + w1 * 0x1_0000 + w0,
        z == y + (0x100u64 - 10) * ((((y * 0x67) as u64) >> 10u64) & 0x000F_000F_000F_000Fu64),
    ensures
        z == b0 + a0 * 0x100 + b1 * 0x1_0000 + a1 * 0x100_0000 + b2 * 0x1_0000_0000 + a2
            * 0x100_0000_0000 + b3 * 0x1_0000_0000_0000 + a3 * 0x100_0000_0000_0000,
{
    assert(z == b0 + a0 * 0x100 + b1 * 0x1_0000 + a1 * 0x100_0000 + b2 * 0x1_0000_0000 + a2
        * 0x100_0000_0000 + b3 * 0x1_0000_0000_0000 + a3 * 0x100_0000_0000_0000) by (bit_vector)
        requires
            a0 == ((w0 * 103) as u64) >> 10u64,
            a1 == ((w1 * 103) as u64) >> 10u64,
            a2 == ((w2 * 103) as u64) >> 10u64,
            a3 == ((w3 * 103) as u64) >> 10u64,
            w0 == 10 * a0 + b0,
            w1 == 10 * a1 + b1,
            w2 == 10 * a2 + b2,
            w3 == 10 * a3 + b3,
            a0 < 10,
            a1 < 10,
            a2 < 10,
            a3 < 10,
            b0 < 10,
            b1 < 10,
            b2 < 10,
            b3 < 10,
            y == w3 * 0x1_0000_0000_0000 + w2 * 0x1_0000_0000 + w1 * 0x1_0000 + w0,
            z == y + (0x100u64 - 10) * ((((y * 0x67) as u64) >> 10u64)
                & 0x000F_000F_000F_000Fu64),
    ;
}

/// Single digits, the higher digit of each group in the higher byte.
proof fn lemma_ascii16_stage3(w3: u64, w2: u64, w1: u64, w0: u64, y: u64, z: u64)
    requires
        w0 < 100,
        w1 < 100,
        w2 < 100,
        w3 < 100,
        y == w3 * 0x1_0000_0000_0000 + w2 * 0x1_0000_0000 + w1 * 0x1_0000 + w0,
        z == y + (0x100u64 - 10) * ((((y * 0x67) as u64) >> 10u64) & 0x000F_000F_000F_000Fu64),
    ensures
        byte_of(z, 7) == w3 / 10,
        byte_of(z, 6) == w3 % 10,
        byte_of(z, 5) == w2 / 10,
        byte_of(z, 4) == w2 % 10,
        byte_of(z, 3) == w1 / 10,
        byte_of(z, 2) == w1 % 10,
        byte_of(z, 1) == w0 / 10,
        byte_of(z, 0) == w0 % 10,
{
    lemma_groups_by_ten(w0, w1, w2, w3);
    lemma_ascii16_merge3(
        w0,
        w1,
        w2,
        w3,
        w0 / 10,
        w1 / 10,
        w2 / 10,
        w3 / 10,
        w0 % 10,
        w1 % 10,
        w2 % 10,
        w3 % 10,
        y,
        z,
    );
    lemma_word_bytes(z, w0 % 10, w0 / 10, w1 % 10, w1 / 10, w2 % 10, w2 / 10, w3 % 10, w3 / 10);
}

/// Which bytes of `x` are zero, read off its count of trailing zero bits `t`.
proof fn lemma_trailing_zero_bits(x: u64, t: u64, i: u64)
    requires
        t <= 64,
        t < 64 ==> (x >> t) & 1u64 == 1u64,
        x << ((64 - t) as u64) == 0,
        i < 8,
    ensures
        i < (t >> 3u64) ==> byte_of(x, i as int) == 0,
        i == (t >> 3u64) ==> byte_of(x, i as int) != 0,
{
    assert((i < (t >> 3u64) ==> (((x >> ((8 * i) as u64)) & 0xffu64) as u8) == 0) && (i == (t
        >> 3u64) ==> (((x >> ((8 * i) as u64)) & 0xffu64) as u8) != 0)) by (bit_vector)
        requires
            t <= 64,
            t < 64 ==> (x >> t) & 1u64 == 1u64,
            x << ((64 - t) as u64) == 0,
            i < 8,
    ;
}

/// The bytes of `x` in reverse order.
pub fn swap_bytes(x: u64) -> (r: u64)
    ensures
        forall|i: int| 0 <= i < 8 ==> #[trigger] byte_of(r, i) == byte_of(x, 7 - i),
{
    let r = (x >> 56) | ((x >> 40) & 0xff00) | ((x >> 24) & 0xff_0000) | ((x >> 8) & 0xff00_0000)
        | ((x << 8) & 0xff_0000_0000) | ((x << 24) & 0xff00_0000_0000) | ((x << 40)
        & 0xff_0000_0000_0000) | (x << 56);
    proof {
        assert forall|i: int| 0 <= i < 8 implies #[trigger] byte_of(r, i) == byte_of(x, 7 - i) by {
            let j = i as u64;
            assert((((r >> ((8 * j) as u64)) & 0xffu64) as u8) == (((x >> ((8 * (7 - j))
                as u64)) & 0xffu64) as u8)) by (bit_vector)
                requires
                    j < 8,
                    r == (x >> 56u64) | ((x >> 40u64) & 0xff00u64) | ((x >> 24u64) & 0xff_0000u64)
                        | ((x >> 8u64) & 0xff00_0000u64) | ((x << 8u64) & 0xff_0000_0000u64) | ((x
                        << 24u64) & 0xff00_0000_0000u64) | ((x << 40u64)
                        & 0xff_0000_0000_0000u64) | (x << 56u64),
            ;
        }
    }
    r
}


/// The eight digits of `x` (below `10^8`) as the bytes of a word, first digit in the
/// highest byte.
fn digits8_word(x: u64) -> (z: u64)
    requires
        x < 100000000,
    ensures
        forall|i: int|
            0 <= i < 8 ==> #[trigger] byte_of(z, 7 - i) < 10 && dec_digits(x as nat, 8)[i]
                == digit_char(byte_of(z, 7 - i) as nat),
{
    let q = (x * 0x68D_B8BB) >> 40;
    proof {
        lemma_mul_shr(x, 0x68D_B8BB, 40);
        lemma2_to64_rest();
        lemma_magic_div(x as nat, 10000, 109951163, 0x100_0000_0000, 2224);
        lemma_fundamental_div_mod(x as int, 10000);
        assert(q < 10000);
        assert((0x1_0000_0000u64 - 10000u64) * q < 0x1_0000_0000_0000u64) by (nonlinear_arith)
            requires
                q < 10000,
        ;
    }
    let y1 = x + (0x1_0000_0000 - 10000) * q;
    proof {
        lemma_ascii16_stage1(x, y1);
        let hi = x / 10000;
        let lo = x % 10000;
        assert(y1 < 0x4000_0000_0000u64);
    }
    let s2 = (y1 * 0x147B) >> 19;
    let t2 = s2 & 0x007F_0000_007F;
    proof {
        crate::bytes::lemma_and_le(s2, 0x007F_0000_007F);
        assert((0x10000u64 - 100u64) * t2 <= 0xFF9C * 0x007F_0000_007Fu64) by (nonlinear_arith)
            requires
                t2 <= 0x007F_0000_007Fu64,
        ;
    }
    let y2 = y1 + (0x10000 - 100) * t2;
    proof {
        let hi = x / 10000;
        let lo = x % 10000;
        lemma_ascii16_stage2(hi, lo, y1, y2);
        let w3 = hi / 100;
        let w2 = hi % 100;
        let w1 = lo / 100;
        let w0 = lo % 100;
        assert(y2 < 0x100_0000_0000_0000u64);
    }
    let s3 = (y2 * 0x67) >> 10;
    let t3 = s3 & 0x000F_000F_000F_000F;
    proof {
        crate::bytes::lemma_and_le(s3, 0x000F_000F_000F_000F);
        assert((0x100u64 - 10u64) * t3 <= 0xF6 * 0x000F_000F_000F_000Fu64) by (nonlinear_arith)
            requires
                t3 <= 0x000F_000F_000F_000Fu64,
        ;
    }
    let z = y2 + (0x100 - 10) * t3;
    proof {
        let hi = x / 10000;
        let lo = x % 10000;
        let w3 = hi / 100;
        let w2 = hi % 100;
        let w1 = lo / 100;
        let w0 = lo % 100;
        lemma_ascii16_stage3(w3, w2, w1, w0, y2, z);
        lemma_pow10_values();
        lemma_dec_digits_split(x as nat, 4, 4);
        lemma_dec_digits4(hi as nat);
        lemma_dec_digits4(lo as nat);
    }
    z
}

/// Setting the `'0'` bits of each byte of a word.
proof fn lemma_or_zero_byte(w: u64, i: int)
    requires
        0 <= i < 8,
    ensures
        byte_of(w | 0x3030_3030_3030_3030u64, i) == byte_of(w, i) | 0x30u8,
{
    let j = i as u64;
    assert((((w | 0x3030_3030_3030_3030u64) >> ((8 * j) as u64)) & 0xffu64) as u8 == (((w >> ((8
        * j) as u64)) & 0xffu64) as u8) | 0x30u8) by (bit_vector)
        requires
            j < 8,
    ;
}

/// The decimal point of `'0' | d` for a digit `d`.
proof fn lemma_digit_or(d: u8)
    requires
        d < 10,
    ensures
        d | 0x30u8 == 48 + d,
{
    assert(d < 10 ==> d | 0x30u8 == 48 + d) by (bit_vector);
}

/// Multiplier for dividing a 16-digit number by `10^8` with a 90-bit shift.
pub const MUL_CONST: u64 = 0xABCC_7711_8461_CEFD;

/// Minus `10^8`.
pub const HUNDRED_MILLION: i64 = -100_000_000;

/// The significand of an `f64`, as ASCII digits packed in two words.
pub struct ShortestAscii16 {
    /// The sixteen digits, the first eight in the first word, first digit in its lowest byte.
    pub ascii16: (u64, u64),
    /// Index of the last digit to print.
    pub dec_sig_len: u64,
}

/// Fills the 32 bytes at `pos` with `'0'`, writes the 16 digits of `m` as ASCII into two
/// words and finds the last significant one: the last nonzero digit when `up_down` is
/// set, else `15 + d17`, where the caller puts a rounding digit.
pub fn to_ascii16(buf: &mut [u8], pos: usize, m: u64, up_down: u64, d17: u64) -> (s:
    ShortestAscii16)
    requires
        m < pow10(16),
        pos + 32 <= old(buf)@.len(),
        d17 <= 1,
    ensures
        le_bytes(s.ascii16.0) + le_bytes(s.ascii16.1) == dec_digits(m as nat, 16),
        s.dec_sig_len == if up_down != 0 {
            (trim_trailing_zeros(dec_digits(m as nat, 16)).len() - 1) as u64
        } else {
            (15 + d17) as u64
        },
        final(buf)@ == splice(old(buf)@, pos as int, zeros(32)),
{
    proof {
        lemma_pow10_values();
    }
    let p: u128 = m as u128 * MUL_CONST as u128;
    let abcdefgh = ((p >> 64) as u64 >> (90 - 64)) as u32;
    let ghost hi8 = m / 100000000;
    let ghost lo8 = m % 100000000;
    proof {
        vstd::bits::lemma_u128_shr_is_div(p, 64);
        lemma2_to64();
        assert(p / 0x1_0000_0000_0000_0000u128 < 0x1_0000_0000_0000_0000) by (nonlinear_arith)
            requires
                p < 0x1_0000_0000_0000_0000_0000_0000_0000_0000int,
        ;
        let hi = (p >> 64u128) as u64;
        lemma_u64_shr_is_div(hi, 26);
        vstd::arithmetic::div_mod::lemma_div_denominator(
            p as int,
            0x1_0000_0000_0000_0000,
            0x400_0000,
        );
        lemma_magic_div(
            m as nat,
            100000000,
            MUL_CONST as nat,
            0x400_0000_0000_0000_0000_0000,
            875776,
        );
        assert(abcdefgh == hi8);
        lemma_fundamental_div_mod(m as int, 100000000);
    }
    let ijklmnop = m.wrapping_add((abcdefgh as i64 * HUNDRED_MILLION) as u64) as u32;
    proof {
        let a = abcdefgh;
        let v = (a as i64 * -100000000i64) as i64;
        if a > 0 {
            crate::bytes::lemma_negative_as_u64(v);
        }
        assert(ijklmnop == lo8);
    }
    let a_b_c_d_e_f_g_h = digits8_word(abcdefgh as u64);
    let i_j_k_l_m_n_o_p = digits8_word(ijklmnop as u64);
    let abcdefgh_tz = a_b_c_d_e_f_g_h.trailing_zeros();
    let ijklmnop_tz = i_j_k_l_m_n_o_p.trailing_zeros();
    let abcdefgh_bcd = swap_bytes(a_b_c_d_e_f_g_h);
    let ijklmnop_bcd = swap_bytes(i_j_k_l_m_n_o_p);
    let tz = if ijklmnop == 0 {
        64 + abcdefgh_tz
    } else {
        ijklmnop_tz
    } / 8;
    fill(buf, pos, 32, 48u8);
    let ascii16 = (abcdefgh_bcd | ZERO, ijklmnop_bcd | ZERO);
    let ghost digits = dec_digits(m as nat, 16);
    let ghost z_hi = a_b_c_d_e_f_g_h;
    let ghost z_lo = i_j_k_l_m_n_o_p;
    proof {
        lemma_dec_digits_split(m as nat, 8, 8);
        crate::text::lemma_dec_digits_len(hi8 as nat, 8);
        crate::text::lemma_dec_digits_len(lo8 as nat, 8);
        assert forall|i: int| 0 <= i < 8 implies #[trigger] le_bytes(ascii16.0)[i] == digits[i]
            && le_bytes(ascii16.1)[i] == digits[i + 8] by {
            lemma_or_zero_byte(abcdefgh_bcd, i);
            lemma_or_zero_byte(ijklmnop_bcd, i);
            lemma_digit_or(byte_of(z_hi, 7 - i));
            lemma_digit_or(byte_of(z_lo, 7 - i));
            assert(le_bytes(ascii16.0)[i] == byte_of(ascii16.0, i));
            assert(le_bytes(ascii16.1)[i] == byte_of(ascii16.1, i));
        }
        crate::text::lemma_dec_digits_len(m as nat, 16);
        assert forall|i: int| 0 <= i < 16 implies #[trigger] (le_bytes(ascii16.0) + le_bytes(
            ascii16.1,
        ))[i] == digits[i] by {
            if i >= 8 {
                let k = i - 8;
                assert(le_bytes(ascii16.0)[k] == digits[k]);
                assert(le_bytes(ascii16.1)[k] == digits[k + 8]);
            }
        }
        assert(le_bytes(ascii16.0) + le_bytes(ascii16.1) =~= digits);
        assert(zeros(32) =~= Seq::new(32, |i: int| 48u8));
    }
    let dec_sig_len = if up_down != 0 {
        if tz <= 15 {
            15 - tz as u64
        } else {
            0
        }
    } else {
        15 + d17
    };
    proof {
        if up_down != 0 {
            lemma_sig_len16(m, z_hi, z_lo, abcdefgh_tz, ijklmnop_tz, ijklmnop == 0, tz);
        }
    }
    ShortestAscii16 { ascii16, dec_sig_len }
}


/// A number whose digits are all `'0'` is a multiple of `10^n`.
pub proof fn lemma_dec_digits_all_zero(x: nat, n: nat)
    requires
        forall|i: int| 0 <= i < n ==> #[trigger] dec_digits(x, n)[i] == 48u8,
    ensures
        x % pow10(n) == 0,
    decreases n,
{
    if n > 0 {
        let n1 = (n - 1) as nat;
        crate::text::lemma_dec_digits_len(x / 10, n1);
        assert(dec_digits(x, n)[n1 as int] == digit_char(x % 10));
        assert forall|i: int| 0 <= i < n1 implies #[trigger] dec_digits(x / 10, n1)[i] == 48u8 by {
            assert(dec_digits(x, n)[i] == dec_digits(x / 10, n1)[i]);
        }
        lemma_dec_digits_all_zero(x / 10, n1);
        crate::text::lemma_pow10_positive(n1);
        vstd::arithmetic::div_mod::lemma_mod_breakdown(x as int, 10, pow10(n1) as int);
    }
}

/// A word whose eight bytes are zero.
proof fn lemma_zero_bytes(z: u64)
    requires
        forall|i: int| 0 <= i < 8 ==> #[trigger] byte_of(z, i) == 0,
    ensures
        z == 0,
{
    assert(byte_of(z, 0) == 0);
    assert(byte_of(z, 1) == 0);
    assert(byte_of(z, 2) == 0);
    assert(byte_of(z, 3) == 0);
    assert(byte_of(z, 4) == 0);
    assert(byte_of(z, 5) == 0);
    assert(byte_of(z, 6) == 0);
    assert(byte_of(z, 7) == 0);
    lemma_word_bytes(z, 0, 0, 0, 0, 0, 0, 0, 0);
}

/// Facts about one half of the sixteen digits: its digit word `z` and its count `t` of
/// trailing zero bits.
proof fn lemma_half_word(x: u64, z: u64, t: u32)
    requires
        x < 100000000,
        forall|i: int|
            0 <= i < 8 ==> #[trigger] byte_of(z, 7 - i) < 10 && dec_digits(x as nat, 8)[i]
                == digit_char(byte_of(z, 7 - i) as nat),
        t == vstd::std_specs::bits::u64_trailing_zeros(z),
    ensures
        t <= 64,
        x == 0 <==> t == 64,
        forall|i: int|
            0 <= i < 8 ==> (#[trigger] dec_digits(x as nat, 8)[i] == 48u8 <==> byte_of(z, 7 - i)
                == 0),
        forall|j: int| 0 <= j < 8 && j < t / 8 ==> #[trigger] byte_of(z, j) == 0,
        t < 64 ==> byte_of(z, (t / 8) as int) != 0,
{
    vstd::std_specs::bits::axiom_u64_trailing_zeros(z);
    lemma_pow10_values();
    crate::text::lemma_dec_digits_len(x as nat, 8);
    assert forall|i: int| 0 <= i < 8 implies (#[trigger] dec_digits(x as nat, 8)[i] == 48u8
        <==> byte_of(z, 7 - i) == 0) by {
        assert(byte_of(z, 7 - i) < 10);
    }
    let tt = t as u64;
    lemma_u64_shr_is_div(tt, 3);
    lemma2_to64();
    assert forall|j: int| 0 <= j < 8 && j < t / 8 implies #[trigger] byte_of(z, j) == 0 by {
        lemma_trailing_zero_bits(z, tt, j as u64);
    }
    if t < 64 {
        lemma_trailing_zero_bits(z, tt, (t / 8) as u64);
    }
    if x == 0 {
        lemma_dec_digits_zero(8);
        assert forall|i: int| 0 <= i < 8 implies #[trigger] byte_of(z, i) == 0 by {
            assert(dec_digits(0, 8)[7 - i] == 48u8);
        }
        lemma_zero_bytes(z);
    }
    if t == 64 {
        assert forall|i: int| 0 <= i < 8 implies #[trigger] dec_digits(x as nat, 8)[i] == 48u8 by {
            lemma_word_bytes(z, 0, 0, 0, 0, 0, 0, 0, 0);
            assert(7 - i == 0 || 7 - i == 1 || 7 - i == 2 || 7 - i == 3 || 7 - i == 4 || 7 - i == 5
                || 7 - i == 6 || 7 - i == 7);
        }
        lemma_dec_digits_all_zero(x as nat, 8);
    }
}

/// The index of the last significant digit among sixteen, from the trailing zero counts
/// of the two digit words.
proof fn lemma_sig_len16(m: u64, z_hi: u64, z_lo: u64, thi: u32, tlo: u32, lo_zero: bool, tz: u32)
    requires
        m < 10000000000000000,
        forall|i: int|
            0 <= i < 8 ==> #[trigger] byte_of(z_hi, 7 - i) < 10 && dec_digits(
                (m / 100000000) as nat,
                8,
            )[i] == digit_char(byte_of(z_hi, 7 - i) as nat),
        forall|i: int|
            0 <= i < 8 ==> #[trigger] byte_of(z_lo, 7 - i) < 10 && dec_digits(
                (m % 100000000) as nat,
                8,
            )[i] == digit_char(byte_of(z_lo, 7 - i) as nat),
        thi == vstd::std_specs::bits::u64_trailing_zeros(z_hi),
        tlo == vstd::std_specs::bits::u64_trailing_zeros(z_lo),
        lo_zero == (m % 100000000 == 0),
        tz == (if lo_zero {
            64 + thi
        } else {
            tlo as int
        }) / 8,
    ensures
        trim_trailing_zeros(dec_digits(m as nat, 16)).len() - 1 == if tz <= 15 {
            15 - tz
        } else {
            0
        },
{
    let hi8 = m / 100000000;
    let lo8 = m % 100000000;
    lemma_pow10_values();
    lemma_half_word(hi8, z_hi, thi);
    lemma_half_word(lo8, z_lo, tlo);
    lemma_dec_digits_split(m as nat, 8, 8);
    crate::text::lemma_dec_digits_len(hi8 as nat, 8);
    crate::text::lemma_dec_digits_len(lo8 as nat, 8);
    crate::text::lemma_dec_digits_len(m as nat, 16);
    let digits = dec_digits(m as nat, 16);
    assert forall|i: int| 0 <= i < 8 implies #[trigger] digits[i] == dec_digits(hi8 as nat, 8)[i]
        && digits[i + 8] == dec_digits(lo8 as nat, 8)[i] by {}
    if tz <= 15 {
        let t = tz as nat;
        assert forall|j: int| 16 - t <= j < 16 implies digits[j] == 48u8 by {
            if j >= 8 {
                assert(dec_digits(lo8 as nat, 8)[j - 8] == 48u8 <==> byte_of(z_lo, 15 - j) == 0);
            } else {
                assert(dec_digits(hi8 as nat, 8)[j] == 48u8 <==> byte_of(z_hi, 7 - j) == 0);
            }
        }
        assert(digits[15 - t] != 48u8) by {
            if lo_zero {
                assert(dec_digits(hi8 as nat, 8)[7 - (t - 8)] == 48u8 <==> byte_of(z_hi, t - 8)
                    == 0);
            } else {
                assert(dec_digits(lo8 as nat, 8)[7 - t] == 48u8 <==> byte_of(z_lo, t as int)
                    == 0);
            }
        }
        lemma_trim_trailing_zeros(digits, t);
    } else {
        assert forall|j: int| 0 <= j < 16 implies digits[j] == 48u8 by {
            if j >= 8 {
                assert(dec_digits(lo8 as nat, 8)[j - 8] == 48u8 <==> byte_of(z_lo, 15 - j) == 0);
            } else {
                assert(dec_digits(hi8 as nat, 8)[j] == 48u8 <==> byte_of(z_hi, 7 - j) == 0);
            }
        }
        lemma_trim_all_zeros(digits);
    }
}


/// Which bytes of `x` are zero, read off its count of trailing zero bits `t`.
pub proof fn lemma_trailing_zero_bytes(x: u64, t: u64, i: u64)
    requires
        t <= 64,
        t == vstd::std_specs::bits::u64_trailing_zeros(x),
        i < 8,
    ensures
        i < (t >> 3u64) ==> byte_of(x, i as int) == 0,
        i == (t >> 3u64) ==> byte_of(x, i as int) != 0,
{
    vstd::std_specs::bits::axiom_u64_trailing_zeros(x);
    lemma_trailing_zero_bits(x, t, i);
}

} // verus!
