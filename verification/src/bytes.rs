//! Byte-level views of machine words, the buffer writes the formatters make, and the facts
//! about word arithmetic that the proofs share.
use vstd::arithmetic::power2::pow2;
use vstd::prelude::*;

verus! {

/// Byte `i` of `x`, counting from the least significant byte.
pub open spec fn byte_of(x: u64, i: int) -> u8 {
    ((x >> ((8 * i) as u64)) & 0xffu64) as u8
}

/// The eight bytes of `x` in memory order on a little-endian machine.
pub open spec fn le_bytes(x: u64) -> Seq<u8> {
    Seq::new(8, |i: int| byte_of(x, i))
}

/// `s` with `t` written over it from position `pos` on.
pub open spec fn splice(s: Seq<u8>, pos: int, t: Seq<u8>) -> Seq<u8> {
    Seq::new(
        s.len(),
        |i: int|
            if pos <= i < pos + t.len() {
                t[i - pos]
            } else {
                s[i]
            },
    )
}

/// The bytes of a word are its base-256 digits.
pub proof fn lemma_word_bytes(
    z: u64,
    d0: u64,
    d1: u64,
    d2: u64,
    d3: u64,
    d4: u64,
    d5: u64,
    d6: u64,
    d7: u64,
)
    requires
        d0 < 256,
        d1 < 256,
        d2 < 256,
        d3 < 256,
        d4 < 256,
        d5 < 256,
        d6 < 256,
        d7 < 256,
    ensures
        (z == d0 + d1 * 0x100 + d2 * 0x1_0000 + d3 * 0x100_0000 + d4 * 0x1_0000_0000 + d5
            * 0x100_0000_0000 + d6 * 0x1_0000_0000_0000 + d7 * 0x100_0000_0000_0000) <==> (
        byte_of(z, 0) == d0 && byte_of(z, 1) == d1 && byte_of(z, 2) == d2 && byte_of(z, 3) == d3
            && byte_of(z, 4) == d4 && byte_of(z, 5) == d5 && byte_of(z, 6) == d6 && byte_of(z, 7)
            == d7),
{
    assert((z == d0 + d1 * 0x100 + d2 * 0x1_0000 + d3 * 0x100_0000 + d4 * 0x1_0000_0000 + d5
        * 0x100_0000_0000 + d6 * 0x1_0000_0000_0000 + d7 * 0x100_0000_0000_0000) <==> (((z
        >> 0u64) & 0xffu64) as u8 == d0 as u8 && ((z >> 8u64) & 0xffu64) as u8 == d1 as u8 && ((z
        >> 16u64) & 0xffu64) as u8 == d2 as u8 && ((z >> 24u64) & 0xffu64) as u8 == d3 as u8 && ((
    z >> 32u64) & 0xffu64) as u8 == d4 as u8 && ((z >> 40u64) & 0xffu64) as u8 == d5 as u8 && ((
    z >> 48u64) & 0xffu64) as u8 == d6 as u8 && ((z >> 56u64) & 0xffu64) as u8 == d7 as u8))
        by (bit_vector)
        requires
            d0 < 256,
            d1 < 256,
            d2 < 256,
            d3 < 256,
            d4 < 256,
            d5 < 256,
            d6 < 256,
            d7 < 256,
    ;
}

/// Masking keeps a word below both the mask and itself.
pub proof fn lemma_and_le(x: u64, m: u64)
    ensures
        x & m <= m,
        x & m <= x,
{
    assert(x & m <= m && x & m <= x) by (bit_vector);
}

/// The wrapping operations of `u64` as truncations of the exact results.
pub proof fn lemma_wrapping_u64(x: u64, y: u64)
    ensures
        vstd::wrapping::u64_specs::wrapping_add(x, y) == (x + y) as u64,
        vstd::wrapping::u64_specs::wrapping_sub(x, y) == (x - y) as u64,
        vstd::wrapping::u64_specs::wrapping_mul(x, y) == (x * y) as u64,
{
    assert((x * y) as u64 == ((x as nat * y as nat) % 0x1_0000_0000_0000_0000nat) as u64 && (x
        + y - 0x1_0000_0000_0000_0000int) as u64 == (x + y) as u64 && (x - y
        + 0x1_0000_0000_0000_0000int) as u64 == (x - y) as u64) by (bit_vector);
}

/// A negative `i64` read as a `u64` is its value plus `2^64`.
pub proof fn lemma_negative_as_u64(x: i64)
    requires
        x < 0,
    ensures
        x as u64 == x + 0x1_0000_0000_0000_0000int,
{
    assert(x < 0 ==> x as u64 == x + 0x1_0000_0000_0000_0000int) by (bit_vector);
}

/// A quotient lies between the bounds whose multiples enclose the dividend.
pub proof fn lemma_div_range(x: int, d: int, lo: int, hi: int)
    requires
        d > 0,
        lo * d <= x < hi * d,
    ensures
        lo <= x / d < hi,
{
    let q = x / d;
    let r = x % d;
    vstd::arithmetic::div_mod::lemma_fundamental_div_mod(x, d);
    assert(lo <= q < hi) by (nonlinear_arith)
        requires
            x == d * q + r,
            0 <= r < d,
            lo * d <= x < hi * d,
            d > 0,
    ;
}

/// Bounds on `x >> s` from bounds on `x`.
pub proof fn lemma_shr_range(x: u64, s: u64, lo: int, hi: int)
    requires
        s < 64,
        lo * pow2(s as nat) <= x < hi * pow2(s as nat),
    ensures
        lo <= x >> s < hi,
{
    vstd::bits::lemma_u64_shr_is_div(x, s);
    vstd::arithmetic::power2::lemma_pow2_pos(s as nat);
    lemma_div_range(x as int, pow2(s as nat) as int, lo, hi);
}

/// Bounds on `x >> s` from bounds on `x`, for a 128-bit `x`.
pub proof fn lemma_shr_range128(x: u128, s: u128, lo: int, hi: int)
    requires
        s < 128,
        lo * pow2(s as nat) <= x < hi * pow2(s as nat),
    ensures
        lo <= x >> s < hi,
{
    vstd::bits::lemma_u128_shr_is_div(x, s);
    vstd::arithmetic::power2::lemma_pow2_pos(s as nat);
    lemma_div_range(x as int, pow2(s as nat) as int, lo, hi);
}

/// Stores `x` in little-endian order at `pos`.
pub fn write_u64_le(buf: &mut [u8], pos: usize, x: u64)
    requires
        pos + 8 <= old(buf)@.len(),
    ensures
        final(buf)@ == splice(old(buf)@, pos as int, le_bytes(x)),
{
    let ghost start = buf@;
    let total = buf.len();
    let mut i: usize = 0;
    while i < 8
        invariant
            i <= 8,
            pos + 8 <= buf@.len(),
            buf@.len() == start.len(),
            start.len() == total,
            forall|j: int|
                0 <= j < buf@.len() ==> #[trigger] buf@[j] == if pos <= j < pos + i {
                    byte_of(x, j - pos)
                } else {
                    start[j]
                },
        decreases 8 - i,
    {
        let shift: u64 = 8 * (i as u64);
        let b = ((x >> shift) & 0xff) as u8;
        buf[pos + i] = b;
        i = i + 1;
    }
    assert(buf@ =~= splice(start, pos as int, le_bytes(x)));
}

/// Loads the eight bytes at `pos` as a little-endian word.
pub fn read_u64_le(buf: &[u8], pos: usize) -> (r: u64)
    requires
        pos + 8 <= buf@.len(),
    ensures
        le_bytes(r) == buf@.subrange(pos as int, pos + 8),
{
    let b0 = buf[pos] as u64;
    let b1 = buf[pos + 1] as u64;
    let b2 = buf[pos + 2] as u64;
    let b3 = buf[pos + 3] as u64;
    let b4 = buf[pos + 4] as u64;
    let b5 = buf[pos + 5] as u64;
    let b6 = buf[pos + 6] as u64;
    let b7 = buf[pos + 7] as u64;
    let r = b0 + b1 * 0x100 + b2 * 0x1_0000 + b3 * 0x100_0000 + b4 * 0x1_0000_0000 + b5
        * 0x100_0000_0000 + b6 * 0x1_0000_0000_0000 + b7 * 0x100_0000_0000_0000;
    proof {
        lemma_word_bytes(r, b0, b1, b2, b3, b4, b5, b6, b7);
        assert(le_bytes(r) =~= buf@.subrange(pos as int, pos + 8));
    }
    r
}

/// Stores `x` in little-endian order at `pos`.
pub fn write_u32_le(buf: &mut [u8], pos: usize, x: u32)
    requires
        pos + 4 <= old(buf)@.len(),
    ensures
        final(buf)@ == splice(old(buf)@, pos as int, le_bytes(x as u64).take(4)),
{
    let ghost start = buf@;
    let total = buf.len();
    let w = x as u64;
    let mut i: usize = 0;
    while i < 4
        invariant
            i <= 4,
            pos + 4 <= buf@.len(),
            buf@.len() == start.len(),
            start.len() == total,
            w == x as u64,
            forall|j: int|
                0 <= j < buf@.len() ==> #[trigger] buf@[j] == if pos <= j < pos + i {
                    byte_of(w, j - pos)
                } else {
                    start[j]
                },
        decreases 4 - i,
    {
        let shift: u64 = 8 * (i as u64);
        let b = ((w >> shift) & 0xff) as u8;
        buf[pos + i] = b;
        i = i + 1;
    }
    assert(buf@ =~= splice(start, pos as int, le_bytes(w).take(4)));
}

/// Sets the `n` bytes from `pos` on to `b`.
pub fn fill(buf: &mut [u8], pos: usize, n: usize, b: u8)
    requires
        pos + n <= old(buf)@.len(),
    ensures
        final(buf)@ == splice(old(buf)@, pos as int, Seq::new(n as nat, |i: int| b)),
{
    let ghost start = buf@;
    let total = buf.len();
    let mut i: usize = 0;
    while i < n
        invariant
            i <= n,
            pos + n <= buf@.len(),
            buf@.len() == start.len(),
                start.len() == total,
            forall|j: int|
                0 <= j < buf@.len() ==> #[trigger] buf@[j] == if pos <= j < pos + i {
                    b
                } else {
                    start[j]
                },
        decreases n - i,
    {
        buf[pos + i] = b;
        i = i + 1;
    }
    assert(buf@ =~= splice(start, pos as int, Seq::new(n as nat, |i: int| b)));
}

/// Copies the `n` bytes at `src` to `dst`; the two ranges may overlap.
pub fn copy_within(buf: &mut [u8], src: usize, dst: usize, n: usize)
    requires
        src + n <= old(buf)@.len(),
        dst + n <= old(buf)@.len(),
    ensures
        final(buf)@ == splice(old(buf)@, dst as int, old(buf)@.subrange(src as int, src + n)),
{
    let ghost start = buf@;
    let total = buf.len();
    if dst <= src {
        let mut i: usize = 0;
        while i < n
            invariant
                i <= n,
                dst <= src,
                src + n <= buf@.len(),
                dst + n <= buf@.len(),
                buf@.len() == start.len(),
                start.len() == total,
                forall|j: int|
                    0 <= j < buf@.len() ==> #[trigger] buf@[j] == if dst <= j < dst + i {
                        start[src + (j - dst)]
                    } else {
                        start[j]
                    },
            decreases n - i,
        {
            let b = buf[src + i];
            buf[dst + i] = b;
            i = i + 1;
        }
    } else {
        let mut i: usize = n;
        while i > 0
            invariant
                i <= n,
                dst > src,
                src + n <= buf@.len(),
                dst + n <= buf@.len(),
                buf@.len() == start.len(),
                start.len() == total,
                forall|j: int|
                    0 <= j < buf@.len() ==> #[trigger] buf@[j] == if dst + i <= j < dst + n {
                        start[src + (j - dst)]
                    } else {
                        start[j]
                    },
            decreases i,
        {
            i = i - 1;
            let b = buf[src + i];
            buf[dst + i] = b;
        }
    }
    assert(buf@ =~= splice(start, dst as int, start.subrange(src as int, src + n)));
}


/// A byte that a splice wrote.
pub proof fn lemma_splice_read_byte(s: Seq<u8>, pos: int, t: Seq<u8>, n: int)
    requires
        0 <= pos,
        0 <= n < t.len(),
        pos + t.len() <= s.len(),
    ensures
        pos + n < splice(s, pos, t).len(),
        splice(s, pos, t)[pos + n] == t[n],
{
}

/// Reading back what a splice wrote, and what it left alone in front of it.
pub proof fn lemma_splice_read(s: Seq<u8>, pos: int, t: Seq<u8>, n: int)
    requires
        0 <= pos,
        0 <= n <= t.len(),
        pos + t.len() <= s.len(),
    ensures
        splice(s, pos, t).subrange(pos, pos + n) == t.take(n),
        forall|i: int| 0 <= i < pos ==> #[trigger] splice(s, pos, t)[i] == s[i],
{
    assert(splice(s, pos, t).subrange(pos, pos + n) =~= t.take(n));
}

} // verus!
