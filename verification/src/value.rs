//! The decimal number a text spells, and the proof that the rendered text spells the
//! number its digits and exponent stand for.
use crate::text::{
    dec_digits, decimal_text, digit_char, exponent_text, leading_zero_count, pow10, render,
    render_digits, trim_trailing_zeros, zeros, E10_DN, E10_UP,
};
use vstd::prelude::*;

verus! {

/// The number the characters `s` spell as decimal digits, a character `c` counting
/// `c - '0'`.
pub open spec fn digits_value(s: Seq<u8>) -> int
    decreases s.len(),
{
    if s.len() == 0 {
        0
    } else {
        10 * digits_value(s.drop_last()) + (s.last() - 48)
    }
}

/// The position of the first `c` in `t`, or the length of `t` when there is none.
pub open spec fn first_index(t: Seq<u8>, c: u8) -> nat
    decreases t.len(),
{
    if t.len() == 0 {
        0
    } else if t[0] == c {
        0
    } else {
        1 + first_index(t.drop_first(), c)
    }
}

/// The decimal `n * 10^x` that the text `t` spells, as `(n, x)`: up to an `e` it holds
/// digits with at most one `.`; after the `e` come a sign and the digits of the exponent.
pub open spec fn text_decimal(t: Seq<u8>) -> (int, int) {
    let ep = first_index(t, 101u8) as int;
    let m = t.take(ep);
    let p = first_index(m, 46u8) as int;
    let digits = if p < m.len() {
        m.take(p) + m.skip(p + 1)
    } else {
        m
    };
    let frac = if p < m.len() {
        m.len() - p - 1
    } else {
        0
    };
    let x = if ep < t.len() {
        let s = t.skip(ep + 1);
        if s.len() > 0 && s[0] == 45u8 {
            -digits_value(s.drop_first())
        } else {
            digits_value(s.drop_first())
        }
    } else {
        0
    };
    (digits_value(digits), x - frac)
}

/// `a.0 * 10^a.1 == b.0 * 10^b.1`.
pub open spec fn same_decimal(a: (int, int), b: (int, int)) -> bool {
    if a.1 <= b.1 {
        a.0 == b.0 * pow10((b.1 - a.1) as nat)
    } else {
        b.0 == a.0 * pow10((a.1 - b.1) as nat)
    }
}

/// `10^(a + b) == 10^a * 10^b`.
pub proof fn lemma_pow10_add(a: nat, b: nat)
    ensures
        pow10(a + b) == pow10(a) * pow10(b),
    decreases b,
{
    if b > 0 {
        let b1 = (b - 1) as nat;
        lemma_pow10_add(a, b1);
        assert(pow10(a + b) == 10 * pow10(a + b1));
        assert(pow10(b) == 10 * pow10(b1));
        assert(pow10(a) * (10 * pow10(b1)) == 10 * (pow10(a) * pow10(b1))) by (nonlinear_arith);
        assert(pow10(a) * pow10(b) == pow10(a) * (10 * pow10(b1)));
        assert(pow10(a + b) == pow10(a) * pow10(b));
    } else {
        assert(pow10(0) == 1);
        assert(pow10(a) * 1 == pow10(a));
        assert(a + b == a);
    }
}

/// Two spellings of one decimal as a third are spellings of one another.
pub proof fn lemma_same_decimal_trans(a: (int, int), b: (int, int), c: (int, int))
    requires
        same_decimal(a, b),
        same_decimal(b, c),
    ensures
        same_decimal(a, c),
{
    let lo = if a.1 <= b.1 && a.1 <= c.1 {
        a.1
    } else if b.1 <= c.1 {
        b.1
    } else {
        c.1
    };
    let da = (a.1 - lo) as nat;
    let db = (b.1 - lo) as nat;
    let dc = (c.1 - lo) as nat;
    assert(a.0 * pow10(da) == b.0 * pow10(db) && b.0 * pow10(db) == c.0 * pow10(dc)) by {
        lemma_scaled(a, b, lo);
        lemma_scaled(b, c, lo);
    }
    lemma_unscaled(a, c, lo);
}

/// `same_decimal` read at a common exponent `lo` below both.
proof fn lemma_scaled(a: (int, int), b: (int, int), lo: int)
    requires
        same_decimal(a, b),
        lo <= a.1,
        lo <= b.1,
    ensures
        a.0 * pow10((a.1 - lo) as nat) == b.0 * pow10((b.1 - lo) as nat),
{
    if a.1 <= b.1 {
        let s = (b.1 - a.1) as nat;
        let t = (a.1 - lo) as nat;
        lemma_pow10_add(s, t);
        assert(a.0 * pow10(t) == (b.0 * pow10(s)) * pow10(t));
        assert((b.0 * pow10(s)) * pow10(t) == b.0 * (pow10(s) * pow10(t))) by (nonlinear_arith);
        assert((b.1 - lo) as nat == s + t);
    } else {
        let s = (a.1 - b.1) as nat;
        let t = (b.1 - lo) as nat;
        lemma_pow10_add(s, t);
        assert(b.0 * pow10(t) == (a.0 * pow10(s)) * pow10(t));
        assert((a.0 * pow10(s)) * pow10(t) == a.0 * (pow10(s) * pow10(t))) by (nonlinear_arith);
        assert((a.1 - lo) as nat == s + t);
    }
}

/// `same_decimal` from equal values at a common exponent `lo` below both.
proof fn lemma_unscaled(a: (int, int), b: (int, int), lo: int)
    requires
        lo <= a.1,
        lo <= b.1,
        a.0 * pow10((a.1 - lo) as nat) == b.0 * pow10((b.1 - lo) as nat),
    ensures
        same_decimal(a, b),
{
    if a.1 <= b.1 {
        let s = (b.1 - a.1) as nat;
        let t = (a.1 - lo) as nat;
        lemma_pow10_add(s, t);
        crate::text::lemma_pow10_positive(t);
        assert((b.1 - lo) as nat == s + t);
        assert(b.0 * (pow10(s) * pow10(t)) == (b.0 * pow10(s)) * pow10(t)) by (nonlinear_arith);
        assert(pow10(t) * a.0 == pow10(t) * (b.0 * pow10(s))) by (nonlinear_arith)
            requires
                a.0 * pow10(t) == (b.0 * pow10(s)) * pow10(t),
        ;
        vstd::arithmetic::mul::lemma_mul_equality_converse(pow10(t) as int, a.0, b.0 * pow10(s));
    } else {
        let s = (a.1 - b.1) as nat;
        let t = (b.1 - lo) as nat;
        lemma_pow10_add(s, t);
        crate::text::lemma_pow10_positive(t);
        assert((a.1 - lo) as nat == s + t);
        assert(a.0 * (pow10(s) * pow10(t)) == (a.0 * pow10(s)) * pow10(t)) by (nonlinear_arith);
        assert(pow10(t) * b.0 == pow10(t) * (a.0 * pow10(s))) by (nonlinear_arith)
            requires
                b.0 * pow10(t) == (a.0 * pow10(s)) * pow10(t),
        ;
        vstd::arithmetic::mul::lemma_mul_equality_converse(pow10(t) as int, b.0, a.0 * pow10(s));
    }
}

/// The value of two digit strings put together.
pub proof fn lemma_digits_value_append(a: Seq<u8>, b: Seq<u8>)
    ensures
        digits_value(a + b) == digits_value(a) * pow10(b.len()) + digits_value(b),
    decreases b.len(),
{
    if b.len() == 0 {
        assert(a + b =~= a);
        assert(pow10(0) == 1);
        assert(digits_value(b) == 0);
        assert(digits_value(a) * 1 == digits_value(a));
    } else {
        let b1 = b.drop_last();
        lemma_digits_value_append(a, b1);
        assert((a + b).drop_last() =~= a + b1);
        assert((a + b).last() == b.last());
        assert(digits_value(a + b) == 10 * digits_value(a + b1) + (b.last() - 48));
        assert(digits_value(b) == 10 * digits_value(b1) + (b.last() - 48));
        assert(pow10(b.len()) == 10 * pow10(b1.len()));
        assert(digits_value(a) * pow10(b.len()) == 10 * (digits_value(a) * pow10(b1.len())))
            by (nonlinear_arith)
            requires
                pow10(b.len()) == 10 * pow10(b1.len()),
        ;
    }
}

/// `'0'` characters spell zero.
pub proof fn lemma_digits_value_zeros(n: nat)
    ensures
        digits_value(zeros(n)) == 0,
    decreases n,
{
    if n > 0 {
        lemma_digits_value_zeros((n - 1) as nat);
        assert(zeros(n).drop_last() =~= zeros((n - 1) as nat));
    }
}

/// The digits of `n` spell `n`.
pub proof fn lemma_digits_value_decimal_text(n: nat)
    ensures
        digits_value(decimal_text(n)) == n,
    decreases n,
{
    let t = decimal_text(n);
    if n >= 10 {
        lemma_digits_value_decimal_text(n / 10);
        assert(t == decimal_text(n / 10).push(digit_char(n % 10)));
        assert(t.drop_last() =~= decimal_text(n / 10));
        assert(t.last() == digit_char(n % 10));
        assert(digit_char(n % 10) == 48 + n % 10);
        assert(digits_value(t) == 10 * (n / 10) + n % 10);
    } else {
        assert(t == seq![digit_char(n)]);
        assert(t.drop_last() =~= Seq::<u8>::empty());
        assert(digits_value(Seq::<u8>::empty()) == 0);
        assert(digits_value(t) == 10 * 0 + (digit_char(n) - 48));
    }
}

/// The `n` digits of `m` spell `m` modulo `10^n`.
pub proof fn lemma_digits_value_dec_digits(m: nat, n: nat)
    ensures
        digits_value(dec_digits(m, n)) == m % pow10(n),
    decreases n,
{
    let t = dec_digits(m, n);
    if n == 0 {
        assert(pow10(0) == 1);
        assert(t =~= Seq::<u8>::empty());
    } else {
        let n1 = (n - 1) as nat;
        lemma_digits_value_dec_digits(m / 10, n1);
        crate::text::lemma_pow10_positive(n1);
        assert(t.drop_last() =~= dec_digits(m / 10, n1));
        assert(t.last() == digit_char(m % 10));
        assert(digit_char(m % 10) == 48 + m % 10);
        assert(pow10(n) == 10 * pow10(n1));
        vstd::arithmetic::div_mod::lemma_mod_breakdown(m as int, 10, pow10(n1) as int);
    }
}

/// Trimming trailing `'0'` characters divides the value by a power of ten.
pub proof fn lemma_digits_value_trim(s: Seq<u8>)
    requires
        s.len() >= 1,
    ensures
        digits_value(s) == digits_value(trim_trailing_zeros(s)) * pow10(
            (s.len() - trim_trailing_zeros(s).len()) as nat,
        ),
{
    crate::text::lemma_trim_trailing_zeros_prefix(s);
    let t = trim_trailing_zeros(s);
    let r = (s.len() - t.len()) as nat;
    assert(s =~= t + zeros(r)) by {
        assert forall|j: int| 0 <= j < s.len() implies #[trigger] s[j] == (t + zeros(r))[j] by {
            if j < t.len() {
                assert(t[j] == s.take(t.len() as int)[j]);
            }
        }
    }
    lemma_digits_value_append(t, zeros(r));
    lemma_digits_value_zeros(r);
}

/// The `n` digits of `m < 10^n` without their trailing zeros, the first of weight
/// `10^(k + n)`, spell `m * 10^(k + 1)`.
pub proof fn lemma_trimmed_digits_value(m: nat, n: nat, k: int)
    requires
        1 <= n,
        m < pow10(n),
    ensures
        rounded_digit_chars(trim_trailing_zeros(dec_digits(m, n))),
        same_decimal(
            (
                digits_value(trim_trailing_zeros(dec_digits(m, n))),
                k + n + 1 - trim_trailing_zeros(dec_digits(m, n)).len(),
            ),
            (m as int, k + 1),
        ),
{
    let s = dec_digits(m, n);
    crate::text::lemma_dec_digits_len(m, n);
    crate::text::lemma_dec_digits_chars(m, n);
    lemma_digits_value_dec_digits(m, n);
    vstd::arithmetic::div_mod::lemma_small_mod(m, pow10(n));
    crate::text::lemma_trim_trailing_zeros_prefix(s);
    lemma_digits_value_trim(s);
    let t = trim_trailing_zeros(s);
    assert forall|i: int| 0 <= i < t.len() implies 48 <= #[trigger] t[i] <= 59 by {
        assert(t[i] == s.take(t.len() as int)[i]);
    }
    let a = (digits_value(t), k + n + 1 - t.len());
    let b = (m as int, k + 1);
    if t.len() == n {
        assert(pow10(0) == 1);
        assert((n - t.len()) as nat == 0);
        assert(digits_value(t) * 1 == digits_value(t));
        assert(m * 1 == m);
    } else {
        assert((a.1 - b.1) as nat == (n - t.len()) as nat);
    }
}

/// The `n` digits of `m < 10^n` followed by the character `c`, the first of weight
/// `10^(k + n)`, spell `(10 * m + c - '0') * 10^k`.
pub proof fn lemma_extended_digits_value(m: nat, n: nat, c: u8, k: int)
    requires
        m < pow10(n),
        48 <= c <= 59,
    ensures
        rounded_digit_chars(dec_digits(m, n).push(c)),
        same_decimal(
            (digits_value(dec_digits(m, n).push(c)), k + n + 1 - dec_digits(m, n).push(c).len()),
            (10 * m + (c - 48), k),
        ),
{
    let s = dec_digits(m, n);
    let t = s.push(c);
    crate::text::lemma_dec_digits_len(m, n);
    crate::text::lemma_dec_digits_chars(m, n);
    lemma_digits_value_dec_digits(m, n);
    vstd::arithmetic::div_mod::lemma_small_mod(m, pow10(n));
    assert(t.drop_last() =~= s);
    assert forall|i: int| 0 <= i < t.len() implies 48 <= #[trigger] t[i] <= 59 by {
        if i < n {
            assert(t[i] == s[i]);
        }
    }
    assert(pow10(0) == 1);
    assert((10 * m + (c - 48)) * 1 == 10 * m + (c - 48));
}

/// The first `c` in `t` sits at `i` when none comes before it.
pub proof fn lemma_first_index(t: Seq<u8>, c: u8, i: int)
    requires
        0 <= i <= t.len(),
        forall|j: int| 0 <= j < i ==> #[trigger] t[j] != c,
        i == t.len() || t[i] == c,
    ensures
        first_index(t, c) == i,
    decreases i,
{
    if i > 0 {
        assert forall|j: int| 0 <= j < i - 1 implies #[trigger] t.drop_first()[j] != c by {
            assert(t[j + 1] != c);
        }
        lemma_first_index(t.drop_first(), c, i - 1);
    }
}

/// The characters `'0'` to `';'`: the decimal digits, and `':'` and `';'`, which a rounded
/// digit of 10 or 11 would print as. The digit after the significand is computed as a
/// value of at most 11; nothing here bounds it by 9, as that bound rests on how closely the
/// power-of-ten tables approach the true powers.
pub open spec fn rounded_digit_chars(d: Seq<u8>) -> bool {
    forall|i: int| 0 <= i < d.len() ==> 48 <= #[trigger] d[i] <= 59
}

/// The text of a number below one, with its leading zeros written out.
proof fn lemma_render_value_small(d: Seq<u8>, e: int)
    requires
        d.len() >= 1,
        rounded_digit_chars(d),
        E10_DN <= e <= -1,
    ensures
        text_decimal(render(d, e)) == (digits_value(d), e + 1 - d.len()),
{
    let t = render(d, e);
    let z = (-e - 1) as nat;
    assert(t == seq![48u8, 46u8] + zeros(z) + d);
    assert forall|j: int| 0 <= j < t.len() implies #[trigger] t[j] != 101u8 by {
        if j >= 2 + z {
            assert(t[j] == d[j - 2 - z]);
        }
    }
    lemma_first_index(t, 101u8, t.len() as int);
    assert(t.take(t.len() as int) =~= t);
    lemma_first_index(t, 46u8, 1);
    let digits = t.take(1) + t.skip(2);
    assert(digits =~= zeros(z + 1) + d);
    lemma_digits_value_append(zeros(z + 1), d);
    lemma_digits_value_zeros(z + 1);
}

/// The text of a number written positionally with its point after its digits.
proof fn lemma_render_value_padded(d: Seq<u8>, e: int)
    requires
        d.len() >= 1,
        rounded_digit_chars(d),
        0 <= e <= E10_UP,
        d.len() <= e + 1,
    ensures
        same_decimal(text_decimal(render(d, e)), (digits_value(d), e + 1 - d.len())),
{
    let t = render(d, e);
    let len = d.len() as int;
    let v = digits_value(d);
    let z = (e + 1 - len) as nat;
    assert(t == d + zeros(z) + seq![46u8, 48u8]);
    assert forall|j: int| 0 <= j < t.len() implies #[trigger] t[j] != 101u8 by {
        if j < len {
            assert(t[j] == d[j]);
        }
    }
    lemma_first_index(t, 101u8, t.len() as int);
    assert(t.take(t.len() as int) =~= t);
    assert forall|j: int| 0 <= j < len + z implies #[trigger] t[j] != 46u8 by {
        if j < len {
            assert(t[j] == d[j]);
        }
    }
    lemma_first_index(t, 46u8, len + z);
    let digits = t.take(len + z) + t.skip(len + z + 1);
    assert(digits =~= d + zeros(z + 1));
    lemma_digits_value_append(d, zeros(z + 1));
    lemma_digits_value_zeros(z + 1);
    assert(text_decimal(t) == (v * pow10(z + 1), -1));
    assert(((e + 1 - len) - (-1)) as nat == z + 1);
}

/// The text of a number written positionally with its point inside its digits.
proof fn lemma_render_value_split(d: Seq<u8>, e: int)
    requires
        d.len() >= 1,
        rounded_digit_chars(d),
        0 <= e <= E10_UP,
        d.len() > e + 1,
    ensures
        text_decimal(render(d, e)) == (digits_value(d), e + 1 - d.len()),
{
    let t = render(d, e);
    let p = e + 1;
    assert(t == d.take(p) + seq![46u8] + d.skip(p));
    assert forall|j: int| 0 <= j < t.len() implies #[trigger] t[j] != 101u8 by {
        if j < p {
            assert(t[j] == d[j]);
        } else if j > p {
            assert(t[j] == d[j - 1]);
        }
    }
    lemma_first_index(t, 101u8, t.len() as int);
    assert(t.take(t.len() as int) =~= t);
    assert forall|j: int| 0 <= j < p implies #[trigger] t[j] != 46u8 by {
        assert(t[j] == d[j]);
    }
    lemma_first_index(t, 46u8, p);
    let digits = t.take(p) + t.skip(p + 1);
    assert(digits =~= d);
}

/// The text of a number in scientific notation.
proof fn lemma_render_value_scientific(d: Seq<u8>, e: int)
    requires
        d.len() >= 1,
        rounded_digit_chars(d),
        -999 <= e <= 999,
        !(E10_DN <= e <= E10_UP),
    ensures
        text_decimal(render(d, e)) == (digits_value(d), e + 1 - d.len()),
{
    let t = render(d, e);
    let len = d.len() as int;
    let rest = if len > 1 {
        seq![46u8] + d.skip(1)
    } else {
        Seq::<u8>::empty()
    };
    let m = seq![d[0]] + rest;
    let a = (if e < 0 {
        -e
    } else {
        e
    }) as nat;
    assert(t == m + exponent_text(e));
    assert forall|j: int| 0 <= j < m.len() implies #[trigger] t[j] != 101u8 by {
        assert(t[j] == m[j]);
        if j >= 2 {
            assert(m[j] == d[j - 1]);
        }
    }
    lemma_first_index(t, 101u8, m.len() as int);
    assert(t.take(m.len() as int) =~= m);
    let s = t.skip(m.len() + 1int);
    assert(s =~= seq![if e < 0 {
        45u8
    } else {
        43u8
    }] + decimal_text(a));
    assert(s.drop_first() =~= decimal_text(a));
    lemma_digits_value_decimal_text(a);
    lemma_first_index(m, 46u8, 1);
    if len > 1 {
        let digits = m.take(1) + m.skip(2);
        assert(digits =~= d);
    } else {
        assert(m =~= d);
    }
}

/// The rendered text of the digits `d` at exponent `e` spells the decimal whose digits
/// are `d` and whose first digit has weight `10^e`.
pub proof fn lemma_render_value(d: Seq<u8>, e: int)
    requires
        d.len() >= 1,
        rounded_digit_chars(d),
        -999 <= e <= 999,
    ensures
        same_decimal(text_decimal(render(d, e)), (digits_value(d), e + 1 - d.len())),
{
    let v = digits_value(d);
    assert(pow10(0) == 1);
    assert(v * 1 == v);
    if E10_DN <= e <= -1 {
        lemma_render_value_small(d, e);
    } else if 0 <= e <= E10_UP {
        if d.len() <= e + 1 {
            lemma_render_value_padded(d, e);
        } else {
            lemma_render_value_split(d, e);
        }
    } else {
        lemma_render_value_scientific(d, e);
    }
}

/// The characters in front of the first that is not `'0'` are `'0'`.
pub proof fn lemma_leading_zeros(s: Seq<u8>)
    ensures
        forall|j: int| 0 <= j < leading_zero_count(s) ==> #[trigger] s[j] == 48u8,
    decreases s.len(),
{
    if s.len() > 1 && s[0] == 48u8 {
        lemma_leading_zeros(s.drop_first());
        crate::text::lemma_leading_zero_count_bound(s);
        assert forall|j: int| 0 <= j < leading_zero_count(s) implies #[trigger] s[j] == 48u8 by {
            if j > 0 {
                assert(s[j] == s.drop_first()[j - 1]);
            }
        }
    }
}

/// Dropping the leading zeros before rendering keeps the decimal the text spells.
pub proof fn lemma_render_digits_value(d: Seq<u8>, e: int)
    requires
        1 <= d.len() <= 100,
        rounded_digit_chars(d),
        -899 <= e <= 999,
    ensures
        same_decimal(text_decimal(render_digits(d, e)), (digits_value(d), e + 1 - d.len())),
{
    crate::text::lemma_leading_zero_count_bound(d);
    lemma_leading_zeros(d);
    let z = leading_zero_count(d);
    let d2 = d.skip(z as int);
    lemma_render_value(d2, e - z);
    assert(d =~= zeros(z) + d2);
    lemma_digits_value_append(zeros(z), d2);
    lemma_digits_value_zeros(z);
    assert(e - z + 1 - d2.len() == e + 1 - d.len());
}

} // verus!
