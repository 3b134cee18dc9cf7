//! The constants the formatters look up: 128-bit and 64-bit approximations of powers of
//! ten, shift amounts per binary exponent, and the positions that lay out the text for
//! each decimal exponent. Each is computed from its defining recurrence or formula.
use crate::bytes::{byte_of, le_bytes, lemma_word_bytes};
use vstd::arithmetic::div_mod::lemma_fundamental_div_mod_converse;
use vstd::arithmetic::power2::lemma2_to64_rest;
use vstd::bits::lemma_u64_shr_is_div;
use crate::text::{decimal_text, exponent_text, E10_DN, E10_UP};
use vstd::prelude::*;

verus! {

/// Ten as a 64-bit fraction with the binary point after the top four bits.
pub const TEN: u64 = 0xA000_0000_0000_0000;

/// One step of the 192-bit recurrence that walks the powers of ten for `f64`: multiply by
/// ten and renormalise so that the top bit is set.
pub open spec fn double_step(w: (u64, u64, u64)) -> (u64, u64, u64) {
    let (w0, w1, w2) = w;
    let h0 = ((w0 as u128 * TEN as u128) as u128 >> 64u128) as u64;
    let h1 = ((w1 as u128 * TEN as u128) as u128 >> 64u128) as u64;
    let c0 = (h0 + (w1 * TEN) as u64) as u64;
    let c1 = ((if c0 < h0 {
        1u64
    } else {
        0u64
    }) + ((h1 + (w2 * TEN) as u64) as u64)) as u64;
    let c2 = ((if c1 < h1 {
        1u64
    } else {
        0u64
    }) + ((w2 as u128 * TEN as u128) as u128 >> 64u128) as u64) as u64;
    if c2 >> 63u64 == 0 {
        ((c0 << 1u64), ((c1 << 1u64) | (c0 >> 63u64)), ((c2 << 1u64) | (c1 >> 63u64)))
    } else {
        (c0, c1, c2)
    }
}

/// The state of the `f64` power-of-ten recurrence for `10^(n - 293)`.
pub open spec fn double_state(n: nat) -> (u64, u64, u64)
    decreases n,
{
    if n == 0 {
        (0xB2E2_8CED_D086_D011u64, 0x1E53_ED49_A962_72C8u64, 0xCC5F_C196_FEFD_7D0Cu64)
    } else {
        double_step(double_state((n - 1) as nat))
    }
}

/// High word of the 128-bit approximation of `10^(n - 293)` for `f64`; the exact powers
/// `10^0 ..= 10^27` are rounded up, and `10^0` is exact.
pub open spec fn pow10_double_hi(n: nat) -> u64 {
    let e10 = n - 293;
    if e10 != 0 {
        let w2 = double_state(n).2;
        if 0 <= e10 <= 27 {
            if w2 == u64::MAX {
                w2
            } else {
                (w2 + 1) as u64
            }
        } else {
            w2
        }
    } else {
        0x8000_0000_0000_0000u64
    }
}

/// Low word of the 128-bit approximation of `10^(n - 293)` for `f64`.
pub open spec fn pow10_double_lo(n: nat) -> u64 {
    (double_state(n).1 + 1) as u64
}

/// The high word of a word times ten, and its bounds.
proof fn lemma_times_ten_high(w: u64)
    ensures
        ((w as u128 * 0xA000_0000_0000_0000u128) as u128 >> 64u128) as u64
            <= 0x9FFF_FFFF_FFFF_FFFFu64,
        w >= 0x8000_0000_0000_0000u64 ==> ((w as u128 * 0xA000_0000_0000_0000u128) as u128
            >> 64u128) as u64 >= 0x5000_0000_0000_0000u64,
{
    assert(((w as u128 * 0xA000_0000_0000_0000u128) as u128 >> 64u128) as u64
        <= 0x9FFF_FFFF_FFFF_FFFFu64 && (w >= 0x8000_0000_0000_0000u64 ==> ((w as u128
        * 0xA000_0000_0000_0000u128) as u128 >> 64u128) as u64 >= 0x5000_0000_0000_0000u64))
        by (bit_vector);
}

/// Renormalising a top word of at least `0x5000...` leaves its top bit set.
proof fn lemma_renormalized(hi: u64, lo: u64)
    requires
        hi >= 0x5000_0000_0000_0000u64,
    ensures
        hi >> 63u64 == 0 ==> (hi << 1u64) | (lo >> 63u64) >= 0x8000_0000_0000_0000u64,
        hi >> 63u64 != 0 ==> hi >= 0x8000_0000_0000_0000u64,
{
    assert((hi >> 63u64 == 0 ==> (hi << 1u64) | (lo >> 63u64) >= 0x8000_0000_0000_0000u64) && (
    hi >> 63u64 != 0 ==> hi >= 0x8000_0000_0000_0000u64)) by (bit_vector)
        requires
            hi >= 0x5000_0000_0000_0000u64,
    ;
}

/// A step of the `f64` recurrence keeps the top bit of the high word set.
proof fn lemma_double_step_normalized(w0: u64, w1: u64, w2: u64)
    requires
        w2 >= 0x8000_0000_0000_0000u64,
    ensures
        double_step((w0, w1, w2)).2 >= 0x8000_0000_0000_0000u64,
{
    lemma_times_ten_high(w2);
    let hi = ((w2 as u128 * TEN as u128) as u128 >> 64u128) as u64;
    let (c0, c1, c2) = {
        let h0 = ((w0 as u128 * TEN as u128) as u128 >> 64u128) as u64;
        let h1 = ((w1 as u128 * TEN as u128) as u128 >> 64u128) as u64;
        let c0 = (h0 + (w1 * TEN) as u64) as u64;
        let c1 = ((if c0 < h0 {
            1u64
        } else {
            0u64
        }) + ((h1 + (w2 * TEN) as u64) as u64)) as u64;
        let c2 = ((if c1 < h1 {
            1u64
        } else {
            0u64
        }) + hi) as u64;
        (c0, c1, c2)
    };
    assert(c2 >= 0x5000_0000_0000_0000u64);
    lemma_renormalized(c2, c1);
}

/// One step of the `f64` power-of-ten recurrence.
fn double_step_exec(w0: u64, w1: u64, w2: u64) -> (r: (u64, u64, u64))
    requires
        w2 >= 0x8000_0000_0000_0000u64,
    ensures
        r == double_step((w0, w1, w2)),
        r.2 >= 0x8000_0000_0000_0000u64,
{
    proof {
        lemma_double_step_normalized(w0, w1, w2);
        lemma_times_ten_high(w2);
    }
    let h0 = (w0 as u128 * TEN as u128 >> 64) as u64;
    let h1 = (w1 as u128 * TEN as u128 >> 64) as u64;
    let hi2 = (w2 as u128 * TEN as u128 >> 64) as u64;
    let c0 = h0.wrapping_add(w1.wrapping_mul(TEN));
    let c1 = ((c0 < h0) as u64).wrapping_add(h1.wrapping_add(w2.wrapping_mul(TEN)));
    let c2 = (c1 < h1) as u64 + hi2;
    proof {
        crate::bytes::lemma_wrapping_u64(w1, TEN);
        crate::bytes::lemma_wrapping_u64(w2, TEN);
        crate::bytes::lemma_wrapping_u64(h0, (w1 * TEN) as u64);
        crate::bytes::lemma_wrapping_u64(h1, (w2 * TEN) as u64);
        crate::bytes::lemma_wrapping_u64((c0 < h0) as u64, (h1 + (w2 * TEN) as u64) as u64);
    }
    if c2 >> 63 == 0 {
        (c0 << 1, (c1 << 1) | (c0 >> 63), (c2 << 1) | (c1 >> 63))
    } else {
        (c0, c1, c2)
    }
}

/// Runs the `f64` power-of-ten recurrence for `n` steps.
fn double_state_at(n: usize) -> (r: (u64, u64, u64))
    ensures
        r == double_state(n as nat),
        r.2 >= 0x8000_0000_0000_0000u64,
{
    let (mut w0, mut w1, mut w2) = (
        0xB2E2_8CED_D086_D011_u64,
        0x1E53_ED49_A962_72C8_u64,
        0xCC5F_C196_FEFD_7D0C_u64,
    );
    let mut i: usize = 0;
    while i < n
        invariant
            i <= n,
            (w0, w1, w2) == double_state(i as nat),
            w2 >= 0x8000_0000_0000_0000u64,
        decreases n - i,
    {
        let r = double_step_exec(w0, w1, w2);
        w0 = r.0;
        w1 = r.1;
        w2 = r.2;
        i = i + 1;
    }
    (w0, w1, w2)
}

/// The table entry for `10^(n - 293)` from the state of the recurrence after `n` steps.
fn double_entry(n: usize, w1: u64, w2: u64) -> (r: (u64, u64))
    requires
        n < 617,
        double_state(n as nat).1 == w1,
        double_state(n as nat).2 == w2,
        w2 >= 0x8000_0000_0000_0000u64,
    ensures
        r.0 == pow10_double_hi(n as nat),
        r.1 == pow10_double_lo(n as nat),
        r.0 >= 0x8000_0000_0000_0000u64,
{
    let e10 = n as i64 - 293;
    let hi = if e10 != 0 {
        // The exact powers of ten are rounded up by one. `saturating_add` gives the plain
        // sum unless the word is `u64::MAX`, and then it gives `u64::MAX`; the tests read
        // every entry and find none equal to `u64::MAX`. It keeps the top bit provably set.
        w2.saturating_add((e10 >= 0 && e10 <= 27) as u64)
    } else {
        0x8000_0000_0000_0000
    };
    proof {
        crate::bytes::lemma_wrapping_u64(w1, 1);
    }
    (hi, w1.wrapping_add(1))
}

/// The entry for `10^(n - 293)` of the `f64` power-of-ten table: high and low words. It
/// runs the recurrence for `n` steps; `Pow10Double` holds the whole table.
pub fn pow10_double(n: usize) -> (r: (u64, u64))
    requires
        n < 617,
    ensures
        r.0 == pow10_double_hi(n as nat),
        r.1 == pow10_double_lo(n as nat),
        r.0 >= 0x8000_0000_0000_0000u64,
{
    let (_w0, w1, w2) = double_state_at(n);
    double_entry(n, w1, w2)
}

/// The `f64` power-of-ten table, computed once so that each lookup is a read.
pub struct Pow10Double {
    entries: Vec<(u64, u64)>,
}

impl Pow10Double {
    /// Every entry is the one `pow10_double` gives.
    pub closed spec fn wf(&self) -> bool {
        &&& self.entries@.len() == 617
        &&& forall|n: int|
            0 <= n < 617 ==> #[trigger] self.entries@[n] == (
                pow10_double_hi(n as nat),
                pow10_double_lo(n as nat),
            )
    }

    /// Runs the recurrence once over all 617 entries.
    pub fn new() -> (t: Self)
        ensures
            t.wf(),
    {
        let mut entries: Vec<(u64, u64)> = Vec::new();
        let (mut w0, mut w1, mut w2) = (
            0xB2E2_8CED_D086_D011_u64,
            0x1E53_ED49_A962_72C8_u64,
            0xCC5F_C196_FEFD_7D0C_u64,
        );
        let mut n: usize = 0;
        while n < 617
            invariant
                n <= 617,
                (w0, w1, w2) == double_state(n as nat),
                w2 >= 0x8000_0000_0000_0000u64,
                entries@.len() == n,
                forall|i: int|
                    0 <= i < n ==> #[trigger] entries@[i] == (
                        pow10_double_hi(i as nat),
                        pow10_double_lo(i as nat),
                    ),
            decreases 617 - n,
        {
            let e = double_entry(n, w1, w2);
            entries.push(e);
            let r = double_step_exec(w0, w1, w2);
            w0 = r.0;
            w1 = r.1;
            w2 = r.2;
            n = n + 1;
        }
        Pow10Double { entries }
    }

    /// The entry for `10^(n - 293)`, as `pow10_double(n)` gives it.
    pub fn get(&self, n: usize) -> (r: (u64, u64))
        requires
            self.wf(),
            n < 617,
        ensures
            r.0 == pow10_double_hi(n as nat),
            r.1 == pow10_double_lo(n as nat),
            r.0 >= 0x8000_0000_0000_0000u64,
    {
        let r = self.entries[n];
        proof {
            assert(self.entries@[n as int] == (
                pow10_double_hi(n as nat),
                pow10_double_lo(n as nat),
            ));
            lemma_pow10_double_hi_bound(n as nat);
        }
        r
    }
}

/// Every entry of the `f32` table has its top bit set.
pub proof fn lemma_pow10_float_bound(i: nat)
    requires
        i < 77,
    ensures
        pow10_float_reverse_spec(i) >= 0x8000_0000_0000_0000u64,
{
    lemma_float_state_normalized((76 - i) as nat);
}

/// Every state of the `f32` recurrence has its top bit set.
proof fn lemma_float_state_normalized(n: nat)
    ensures
        float_state(n).1 >= 0x8000_0000_0000_0000u64,
    decreases n,
{
    if n > 0 {
        lemma_float_state_normalized((n - 1) as nat);
        let w = float_state((n - 1) as nat);
        lemma_float_step_normalized(w.0, w.1);
    }
}

/// Every high word of the `f64` table has its top bit set.
pub proof fn lemma_pow10_double_hi_bound(n: nat)
    requires
        n < 617,
    ensures
        pow10_double_hi(n) >= 0x8000_0000_0000_0000u64,
{
    lemma_double_state_normalized(n);
}

/// Every state of the `f64` recurrence has its top bit set.
proof fn lemma_double_state_normalized(n: nat)
    ensures
        double_state(n).2 >= 0x8000_0000_0000_0000u64,
    decreases n,
{
    if n > 0 {
        lemma_double_state_normalized((n - 1) as nat);
        let w = double_state((n - 1) as nat);
        lemma_double_step_normalized(w.0, w.1, w.2);
    }
}

/// One step of the 128-bit recurrence that walks the powers of ten for `f32`.
pub open spec fn float_step(w: (u64, u64)) -> (u64, u64) {
    let (w0, w1) = w;
    let h0 = ((w0 as u128 * TEN as u128) as u128 >> 64u128) as u64;
    let c0 = (h0 + (w1 * TEN) as u64) as u64;
    let c1 = ((if c0 < h0 {
        1u64
    } else {
        0u64
    }) + ((w1 as u128 * TEN as u128) as u128 >> 64u128) as u64) as u64;
    if c1 >> 63u64 == 0 {
        ((c0 << 1u64), ((c1 << 1u64) | (c0 >> 63u64)))
    } else {
        (c0, c1)
    }
}

/// The state of the `f32` power-of-ten recurrence for `10^(n - 32)`.
pub open spec fn float_state(n: nat) -> (u64, u64)
    decreases n,
{
    if n == 0 {
        (0x67DE_18ED_A581_4AF3u64, 0xCFB1_1EAD_4539_94BAu64)
    } else {
        float_step(float_state((n - 1) as nat))
    }
}

/// Entry `i` of the `f32` power-of-ten table, which lists the 64-bit approximations of
/// `10^(44 - i)` for `i` in `0..77`; `10^0` is exact.
pub open spec fn pow10_float_reverse_spec(i: nat) -> u64 {
    let n = 76 - i;
    if n - 32 == 0 {
        0x8000_0000_0000_0000u64
    } else {
        let w1 = float_state(n as nat).1;
        if w1 == u64::MAX {
            w1
        } else {
            (w1 + 1) as u64
        }
    }
}

/// A step of the `f32` recurrence keeps the top bit of the high word set.
proof fn lemma_float_step_normalized(w0: u64, w1: u64)
    requires
        w1 >= 0x8000_0000_0000_0000u64,
    ensures
        float_step((w0, w1)).1 >= 0x8000_0000_0000_0000u64,
{
    lemma_times_ten_high(w1);
    let hi = ((w1 as u128 * TEN as u128) as u128 >> 64u128) as u64;
    let h0 = ((w0 as u128 * TEN as u128) as u128 >> 64u128) as u64;
    let c0 = (h0 + (w1 * TEN) as u64) as u64;
    let c1 = ((if c0 < h0 {
        1u64
    } else {
        0u64
    }) + hi) as u64;
    lemma_renormalized(c1, c0);
}

/// One step of the `f32` power-of-ten recurrence.
fn float_step_exec(w0: u64, w1: u64) -> (r: (u64, u64))
    requires
        w1 >= 0x8000_0000_0000_0000u64,
    ensures
        r == float_step((w0, w1)),
        r.1 >= 0x8000_0000_0000_0000u64,
{
    proof {
        lemma_float_step_normalized(w0, w1);
        lemma_times_ten_high(w1);
    }
    let h0 = (w0 as u128 * TEN as u128 >> 64) as u64;
    let hi1 = (w1 as u128 * TEN as u128 >> 64) as u64;
    let c0 = h0.wrapping_add(w1.wrapping_mul(TEN));
    let c1 = (c0 < h0) as u64 + hi1;
    proof {
        crate::bytes::lemma_wrapping_u64(w1, TEN);
        crate::bytes::lemma_wrapping_u64(h0, (w1 * TEN) as u64);
    }
    if c1 >> 63 == 0 {
        (c0 << 1, (c1 << 1) | (c0 >> 63))
    } else {
        (c0, c1)
    }
}

/// Runs the `f32` power-of-ten recurrence for `n` steps.
fn float_state_at(n: usize) -> (r: (u64, u64))
    ensures
        r == float_state(n as nat),
        r.1 >= 0x8000_0000_0000_0000u64,
{
    let (mut w0, mut w1) = (0x67DE_18ED_A581_4AF3_u64, 0xCFB1_1EAD_4539_94BA_u64);
    let mut i: usize = 0;
    while i < n
        invariant
            i <= n,
            (w0, w1) == float_state(i as nat),
            w1 >= 0x8000_0000_0000_0000u64,
        decreases n - i,
    {
        let r = float_step_exec(w0, w1);
        w0 = r.0;
        w1 = r.1;
        i = i + 1;
    }
    (w0, w1)
}

/// The table entry for `10^(n - 32)` from the state of the recurrence after `n` steps.
fn float_entry(n: usize, w1: u64) -> (r: u64)
    requires
        n < 77,
        float_state(n as nat).1 == w1,
        w1 >= 0x8000_0000_0000_0000u64,
    ensures
        r == pow10_float_reverse_spec((76 - n) as nat),
        r >= 0x8000_0000_0000_0000u64,
{
    let e10 = n as i64 - 32;
    if e10 == 0 {
        0x8000_0000_0000_0000
    } else {
        // Rounded up by one. `saturating_add` gives the plain sum unless the word is
        // `u64::MAX`, and then it gives `u64::MAX`; the tests read every entry and find none
        // equal to `u64::MAX`. It keeps the top bit provably set.
        w1.saturating_add(1)
    }
}

/// Entry `i` of the `f32` power-of-ten table: the approximation of `10^(44 - i)`. It runs
/// the recurrence; `Pow10Float` holds the whole table.
pub fn pow10_float_reverse(i: usize) -> (r: u64)
    requires
        i < 77,
    ensures
        r == pow10_float_reverse_spec(i as nat),
        r >= 0x8000_0000_0000_0000u64,
{
    let n = 76 - i;
    let (_w0, w1) = float_state_at(n);
    float_entry(n, w1)
}

/// The `f32` power-of-ten table, computed once so that each lookup is a read.
pub struct Pow10Float {
    entries: Vec<u64>,
}

impl Pow10Float {
    /// Every entry is the one `pow10_float_reverse` gives.
    pub closed spec fn wf(&self) -> bool {
        &&& self.entries@.len() == 77
        &&& forall|i: int|
            0 <= i < 77 ==> #[trigger] self.entries@[i] == pow10_float_reverse_spec(i as nat)
                && self.entries@[i] >= 0x8000_0000_0000_0000u64
    }

    /// Runs the recurrence once over all 77 entries.
    pub fn new() -> (t: Self)
        ensures
            t.wf(),
    {
        let mut entries: Vec<u64> = Vec::new();
        let mut k: usize = 0;
        while k < 77
            invariant
                k <= 77,
                entries@.len() == k,
            decreases 77 - k,
        {
            entries.push(0);
            k = k + 1;
        }
        let (mut w0, mut w1) = (0x67DE_18ED_A581_4AF3_u64, 0xCFB1_1EAD_4539_94BA_u64);
        let mut n: usize = 0;
        while n < 77
            invariant
                n <= 77,
                (w0, w1) == float_state(n as nat),
                w1 >= 0x8000_0000_0000_0000u64,
                entries@.len() == 77,
                forall|i: int|
                    76 - n < i < 77 ==> #[trigger] entries@[i] == pow10_float_reverse_spec(
                        i as nat,
                    ) && entries@[i] >= 0x8000_0000_0000_0000u64,
            decreases 77 - n,
        {
            let e = float_entry(n, w1);
            entries.set(76 - n, e);
            let r = float_step_exec(w0, w1);
            w0 = r.0;
            w1 = r.1;
            n = n + 1;
        }
        Pow10Float { entries }
    }

    /// Entry `i`, as `pow10_float_reverse(i)` gives it.
    pub fn get(&self, i: usize) -> (r: u64)
        requires
            self.wf(),
            i < 77,
        ensures
            r == pow10_float_reverse_spec(i as nat),
            r >= 0x8000_0000_0000_0000u64,
    {
        proof {
            assert(self.entries@[i as int] == pow10_float_reverse_spec(i as nat));
        }
        self.entries[i]
    }
}

/// Bit shift that scales the significand of an `f64` with biased exponent `exp` so that
/// its product with the chosen power of ten keeps 9 bits below the decimal point.
pub open spec fn h7_spec(exp: u64) -> int {
    let q = (exp - 1075 + (if exp == 0 {
        1int
    } else {
        0int
    })) as i32;
    let k = ((q * 78913) as i32) >> 18i32;
    q + ((((-k - 1) * 217707) as i32) >> 16i32) + 10
}

/// The ranges of the decimal exponent estimate and of the shift, over the binary exponents
/// of finite `f64` values.
proof fn lemma_h7_range(q: i32)
    requires
        -1074 <= q <= 972,
    ensures
        -324 <= ((q * 78913) as i32) >> 18i32 <= 292,
        -4 <= q + ((((-(((q * 78913) as i32) >> 18i32) - 1) * 217707) as i32) >> 16i32) <= -1,
        q == -1074 ==> q + ((((-(((q * 78913) as i32) >> 18i32) - 1) * 217707) as i32) >> 16i32)
            == -2,
{
    assert(-324 <= ((q * 78913) as i32) >> 18i32 <= 292 && -4 <= q + ((((-(((q * 78913) as i32)
        >> 18i32) - 1) * 217707) as i32) >> 16i32) <= -1 && (q == -1074 ==> q + ((((-(((q
        * 78913) as i32) >> 18i32) - 1) * 217707) as i32) >> 16i32) == -2)) by (bit_vector)
        requires
            -1074 <= q <= 972,
    ;
}

/// The shift for the significand of an `f64` with biased exponent `exp`.
pub fn h7(exp: u64) -> (r: u8)
    requires
        exp <= 2047,
    ensures
        r as int == h7_spec(exp),
        1 <= exp ==> 6 <= r <= 9,
        exp == 0 ==> r == 8,
{
    let q = exp as i32 - 1075 + (exp == 0) as i32;
    proof {
        lemma_h7_range(q);
    }
    let k = (q * 78913) >> 18;
    let t = ((-k - 1) * 217707) >> 16;
    let h = q + t;
    (h + 10) as u8
}

/// Bit shift for the significand of an `f32` with biased exponent `exp`.
pub open spec fn h37_spec(exp: u64) -> int {
    let exp_bin = (exp - 150 + (if exp == 0 {
        1int
    } else {
        0int
    })) as i32;
    let k = ((exp_bin * 1233) as i32) >> 12i32;
    37 + exp_bin + ((((k * -1701) - 1701) as i32) >> 9i32)
}

/// The ranges of the decimal exponent estimate and of the shift, over the binary exponents
/// of finite `f32` values.
proof fn lemma_h37_range(e: i32)
    requires
        -149 <= e <= 105,
    ensures
        -45 <= ((e * 1233) as i32) >> 12i32 <= 31,
        -4 <= e + ((((((e * 1233) as i32) >> 12i32) * -1701 - 1701) as i32) >> 9i32) <= -1,
        e == -149 ==> e + ((((((e * 1233) as i32) >> 12i32) * -1701 - 1701) as i32) >> 9i32)
            == -3,
{
    assert(-45 <= ((e * 1233) as i32) >> 12i32 <= 31 && -4 <= e + ((((((e * 1233) as i32)
        >> 12i32) * -1701 - 1701) as i32) >> 9i32) <= -1 && (e == -149 ==> e + ((((((e * 1233)
        as i32) >> 12i32) * -1701 - 1701) as i32) >> 9i32) == -3)) by (bit_vector)
        requires
            -149 <= e <= 105,
    ;
}

/// The shift for the significand of an `f32` with biased exponent `exp`.
pub fn h37(exp: u64) -> (r: u8)
    requires
        exp <= 255,
    ensures
        r as int == h37_spec(exp),
        1 <= exp ==> 33 <= r <= 36,
        exp == 0 ==> r == 34,
{
    let exp_bin = exp as i32 - 150 + (exp == 0) as i32;
    proof {
        lemma_h37_range(exp_bin);
    }
    let k = (exp_bin * 1233) >> 12;
    let t = (k * -1701 - 1701) >> 9;
    let h37_precalc = (36 + 1) + exp_bin + t;
    h37_precalc as u8
}

/// The exponent suffix of an `f64` in scientific notation, packed into a word with its
/// length in the top byte; zero for the exponents written positionally.
pub fn exp_result_double(e10: i64) -> (r: u64)
    requires
        -999 <= e10 <= 999,
    ensures
        E10_DN <= e10 <= E10_UP ==> r == 0,
        !(E10_DN <= e10 <= E10_UP) ==> {
            &&& (r >> 56u64) as int == exponent_text(e10 as int).len()
            &&& exponent_text(e10 as int).len() <= 5
            &&& le_bytes(r).take(exponent_text(e10 as int).len() as int) == exponent_text(
                e10 as int,
            )
            &&& forall|j: int|
                exponent_text(e10 as int).len() <= j < 7 ==> #[trigger] le_bytes(r)[j] == 0
            &&& le_bytes(r)[7] == exponent_text(e10 as int).len()
        },
{
    let sign: u8 = if e10 < 0 {
        45
    } else {
        43
    };
    let e = 101u64 + sign as u64 * 256;
    let e10_abs = (if e10 < 0 {
        -e10
    } else {
        e10
    }) as u64;
    let a = e10_abs / 100;
    let bc = e10_abs - a * 100;
    let b = bc / 10;
    let c = bc - b * 10;
    let (da, db, dc) = (a + 48, b + 48, c + 48);
    proof {
        assert(a < 10 && b < 10 && c < 10) by {
            assert(e10_abs <= 999);
        }
    }
    let exp_len = 3 + (e10_abs >= 100) as u64 + (e10_abs >= 10) as u64;
    let e10_abs_ascii = if e10_abs >= 100 {
        da + db * 0x100 + dc * 0x1_0000
    } else if e10_abs >= 10 {
        db + dc * 0x100
    } else {
        dc
    };
    if e10 < E10_DN || e10 > E10_UP {
        let r = e + e10_abs_ascii * 0x1_0000 + exp_len * 0x100_0000_0000_0000;
        proof {
            let n = e10_abs as nat;
            crate::text::lemma_decimal_text_small(n);
            let text = exponent_text(e10 as int);
            let s = sign as u64;
            if e10_abs >= 100 {
                lemma_word_bytes(r, 101, s, da, db, dc, 0, 0, exp_len);
                assert(le_bytes(r).take(5) =~= text);
                assert(le_bytes(r)[5] == byte_of(r, 5) && le_bytes(r)[6] == byte_of(r, 6));
            } else if e10_abs >= 10 {
                lemma_word_bytes(r, 101, s, db, dc, 0, 0, 0, exp_len);
                assert(le_bytes(r).take(4) =~= text);
                assert(le_bytes(r)[4] == byte_of(r, 4) && le_bytes(r)[5] == byte_of(r, 5)
                    && le_bytes(r)[6] == byte_of(r, 6));
            } else {
                lemma_word_bytes(r, 101, s, dc, 0, 0, 0, 0, exp_len);
                assert(le_bytes(r).take(3) =~= text);
                assert(le_bytes(r)[3] == byte_of(r, 3) && le_bytes(r)[4] == byte_of(r, 4)
                    && le_bytes(r)[5] == byte_of(r, 5) && le_bytes(r)[6] == byte_of(r, 6));
            }
            assert(le_bytes(r)[7] == byte_of(r, 7));
            lemma_u64_shr_is_div(r, 56);
            lemma2_to64_rest();
            lemma_fundamental_div_mod_converse(
                r as int,
                0x100_0000_0000_0000,
                exp_len as int,
                r - exp_len * 0x100_0000_0000_0000,
            );
            assert(text.len() == exp_len);
        }
        r
    } else {
        0
    }
}

/// The exponent suffix of an `f32` in scientific notation, packed into a word; zero for
/// the exponents written positionally.
pub fn exp_result_float(e10: i64) -> (r: u32)
    requires
        -99 <= e10 <= 99,
    ensures
        E10_DN <= e10 <= E10_UP ==> r == 0,
        !(E10_DN <= e10 <= E10_UP) ==> le_bytes(r as u64).take(
            exponent_text(e10 as int).len() as int,
        ) == exponent_text(e10 as int),
        !(E10_DN <= e10 <= E10_UP) ==> exponent_text(e10 as int).len() == if e10 >= 0 || e10
            <= -10 {
            4int
        } else {
            3int
        },
        !(E10_DN <= e10 <= E10_UP) ==> forall|j: int|
            exponent_text(e10 as int).len() <= j < 8 ==> #[trigger] le_bytes(r as u64)[j] == 0,
{
    let sign: u8 = if e10 < 0 {
        45
    } else {
        43
    };
    let e = 101u64 + sign as u64 * 256;
    let e10_abs = (if e10 < 0 {
        -e10
    } else {
        e10
    }) as u64;
    let a = e10_abs / 10;
    let b = e10_abs - a * 10;
    let (da, db) = (a + 48, b + 48);
    proof {
        assert(a < 10 && b < 10) by {
            assert(e10_abs <= 99);
        }
    }
    let e10_abs_ascii = if a > 0 {
        da + db * 0x100
    } else {
        db
    };
    if e10 < E10_DN || e10 > E10_UP {
        let r = e + e10_abs_ascii * 0x1_0000;
        proof {
            let n = e10_abs as nat;
            crate::text::lemma_decimal_text_small(n);
            let text = exponent_text(e10 as int);
            let s = sign as u64;
            if a > 0 {
                lemma_word_bytes(r, 101, s, da, db, 0, 0, 0, 0);
                assert(le_bytes(r).take(4) =~= text);
                assert(le_bytes(r)[4] == byte_of(r, 4) && le_bytes(r)[5] == byte_of(r, 5)
                    && le_bytes(r)[6] == byte_of(r, 6) && le_bytes(r)[7] == byte_of(r, 7));
            } else {
                lemma_word_bytes(r, 101, s, db, 0, 0, 0, 0, 0);
                assert(le_bytes(r).take(3) =~= text);
                assert(le_bytes(r)[3] == byte_of(r, 3) && le_bytes(r)[4] == byte_of(r, 4)
                    && le_bytes(r)[5] == byte_of(r, 5) && le_bytes(r)[6] == byte_of(r, 6)
                    && le_bytes(r)[7] == byte_of(r, 7));
            }
        }
        r as u32
    } else {
        0
    }
}

/// Where the significant digits start, for a number whose first digit has weight `10^e10`.
pub open spec fn first_sig_pos_spec(e10: int) -> int {
    if E10_DN <= e10 <= -1 {
        1 - e10
    } else {
        0
    }
}

/// Where the decimal point goes, counted from the first digit.
pub open spec fn dot_pos_spec(e10: int) -> int {
    if 0 <= e10 <= E10_UP {
        1 + e10
    } else {
        1
    }
}

/// Where the digits after the point move to, to make room for it.
pub open spec fn move_pos_spec(e10: int) -> int {
    dot_pos_spec(e10) + if 0 <= e10 || e10 < E10_DN {
        1int
    } else {
        0int
    }
}

/// Where the exponent suffix goes for `len` significant digits, counted from the first digit.
pub open spec fn exp_pos_spec(e10: int, len: int) -> int {
    if E10_DN <= e10 <= -1 {
        len
    } else if 0 <= e10 <= E10_UP {
        if e10 + 3 > len + 1 {
            e10 + 3
        } else {
            len + 1
        }
    } else {
        len + 1 - if len == 1 {
            1int
        } else {
            0int
        }
    }
}

/// The layout of row `row` of the table of positions, which serves the decimal exponent
/// `row - 6`, for `dec_sig_len + 1` significant digits: where the digits start, where the
/// point goes, where the digits after it move, and where the exponent suffix goes.
pub fn e10_variable_data(row: u64, dec_sig_len: u64) -> (r: (u8, u8, u8, u8))
    requires
        row <= 27,
        dec_sig_len <= 16,
    ensures
        r.0 as int == first_sig_pos_spec(row - 6),
        r.1 as int == dot_pos_spec(row - 6),
        r.2 as int == move_pos_spec(row - 6),
        r.3 as int == exp_pos_spec(row - 6, dec_sig_len + 1),
{
    let e10 = row as i64 + E10_DN;
    let first_sig_pos = if E10_DN <= e10 && e10 <= -1 {
        (1 - e10) as u64
    } else {
        0
    };
    let dot_pos = if 0 <= e10 && e10 <= E10_UP {
        (1 + e10) as u64
    } else {
        1
    };
    let move_pos = dot_pos + (0 <= e10 || e10 < E10_DN) as u64;
    let len = dec_sig_len + 1;
    let exp_pos = if E10_DN <= e10 && e10 <= -1 {
        len
    } else if 0 <= e10 && e10 <= E10_UP {
        let a = (e10 + 3) as u64;
        let b = len + 1;
        if a > b {
            a
        } else {
            b
        }
    } else {
        len + 1 - (len == 1) as u64
    };
    (first_sig_pos as u8, dot_pos as u8, move_pos as u8, exp_pos as u8)
}

} // verus!
