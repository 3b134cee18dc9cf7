//! The decimal text that the formatters produce, stated over byte sequences.
use vstd::arithmetic::div_mod::{
    lemma_div_denominator, lemma_fundamental_div_mod_converse, lemma_mod_breakdown,
    lemma_mod_mod,
};
use vstd::prelude::*;

verus! {

/// `10^n`.
pub open spec fn pow10(n: nat) -> nat
    decreases n,
{
    if n == 0 {
        1
    } else {
        10 * pow10((n - 1) as nat)
    }
}

/// The ASCII character of the decimal digit `d`.
pub open spec fn digit_char(d: nat) -> u8 {
    (48 + d) as u8
}

/// The last `n` decimal digits of `m`, most significant first, padded with `'0'`.
pub open spec fn dec_digits(m: nat, n: nat) -> Seq<u8>
    decreases n,
{
    if n == 0 {
        Seq::empty()
    } else {
        dec_digits(m / 10, (n - 1) as nat).push(digit_char(m % 10))
    }
}

/// `n` copies of the character `'0'`.
pub open spec fn zeros(n: nat) -> Seq<u8> {
    Seq::new(n, |i: int| 48u8)
}

/// `s` without its trailing `'0'` characters; at least one character is kept.
pub open spec fn trim_trailing_zeros(s: Seq<u8>) -> Seq<u8>
    decreases s.len(),
{
    if s.len() > 1 && s.last() == 48u8 {
        trim_trailing_zeros(s.drop_last())
    } else {
        s
    }
}

/// How many leading `'0'` characters of `s` can go while at least one character stays.
pub open spec fn leading_zero_count(s: Seq<u8>) -> nat
    decreases s.len(),
{
    if s.len() > 1 && s[0] == 48u8 {
        1 + leading_zero_count(s.drop_first())
    } else {
        0
    }
}

/// The decimal text of `n` without leading zeros.
pub open spec fn decimal_text(n: nat) -> Seq<u8>
    decreases n,
{
    if n < 10 {
        seq![digit_char(n)]
    } else {
        decimal_text(n / 10).push(digit_char(n % 10))
    }
}

/// The exponent suffix of scientific notation: `e`, the sign, then the digits of `|e|`.
pub open spec fn exponent_text(e: int) -> Seq<u8> {
    seq![101u8, if e < 0 { 45u8 } else { 43u8 }] + decimal_text(
        (if e < 0 { -e } else { e }) as nat,
    )
}

/// Smallest decimal exponent written without an exponent suffix.
pub const E10_DN: i64 = -6;

/// Largest decimal exponent written without an exponent suffix.
pub const E10_UP: i64 = 20;

/// The text of the number whose significant digits are `d` (nonempty) and whose first
/// digit has weight `10^e`.
///
/// Between `10^-6` and `10^21` the number is written in positional notation with at
/// least one digit on each side of the point; elsewhere in scientific notation, with a
/// point only when there is more than one digit.
pub open spec fn render(d: Seq<u8>, e: int) -> Seq<u8> {
    if E10_DN <= e <= -1 {
        seq![48u8, 46u8] + zeros((-e - 1) as nat) + d
    } else if 0 <= e <= E10_UP {
        if d.len() <= e + 1 {
            d + zeros((e + 1 - d.len()) as nat) + seq![46u8, 48u8]
        } else {
            d.take(e + 1) + seq![46u8] + d.skip(e + 1)
        }
    } else {
        seq![d[0]] + (if d.len() > 1 {
            seq![46u8] + d.skip(1)
        } else {
            Seq::empty()
        }) + exponent_text(e)
    }
}

/// The text of the number with digits `d` (first digit of weight `10^e`) once the
/// leading zeros of `d` are dropped.
pub open spec fn render_digits(d: Seq<u8>, e: int) -> Seq<u8> {
    render(d.skip(leading_zero_count(d) as int), e - leading_zero_count(d))
}

/// The sign prefix: `-` when `neg`.
pub open spec fn sign_text(neg: bool) -> Seq<u8> {
    if neg {
        seq![45u8]
    } else {
        Seq::empty()
    }
}

/// Powers of ten are positive.
pub proof fn lemma_pow10_positive(n: nat)
    ensures
        pow10(n) > 0,
    decreases n,
{
    if n > 0 {
        lemma_pow10_positive((n - 1) as nat);
    }
}

/// `dec_digits(m, n)` has `n` characters.
pub proof fn lemma_dec_digits_len(m: nat, n: nat)
    ensures
        dec_digits(m, n).len() == n,
    decreases n,
{
    if n > 0 {
        lemma_dec_digits_len(m / 10, (n - 1) as nat);
    }
}

/// The `n` digits of `m` are the `a` digits of `m / 10^b` followed by the `b` digits of
/// `m % 10^b`.
pub proof fn lemma_dec_digits_split(m: nat, a: nat, b: nat)
    ensures
        dec_digits(m, a + b) == dec_digits(m / pow10(b), a) + dec_digits(m % pow10(b), b),
    decreases b,
{
    lemma_pow10_positive(b);
    if b == 0 {
        assert(dec_digits(m % 1, 0) =~= Seq::<u8>::empty());
        assert(dec_digits(m / pow10(b), a) + dec_digits(m % pow10(b), b) =~= dec_digits(
            m / pow10(b),
            a,
        ));
    } else {
        let b1 = (b - 1) as nat;
        lemma_pow10_positive(b1);
        lemma_dec_digits_split(m / 10, a, b1);
        lemma_div_denominator(m as int, 10, pow10(b1) as int);
        lemma_mod_breakdown(m as int, 10, pow10(b1) as int);
        lemma_mod_mod(m as int, 10, pow10(b1) as int);
        let r = m % pow10(b);
        assert(r / 10 == (m / 10) % pow10(b1)) by {
            lemma_fundamental_div_mod_converse(
                r as int,
                10,
                ((m / 10) % pow10(b1)) as int,
                (m % 10) as int,
            );
        }
        assert(r % 10 == m % 10) by {
            assert((m as int % (10 * pow10(b1) as int)) % 10 == m as int % 10);
        }
        assert(dec_digits(m, a + b) == dec_digits(m / 10, (a + b1) as nat).push(
            digit_char(m % 10),
        ));
        assert(dec_digits(r, b) == dec_digits(r / 10, b1).push(digit_char(r % 10)));
        assert(dec_digits(m, a + b) =~= dec_digits(m / pow10(b), a) + dec_digits(r, b));
    }
}


/// Trimming keeps a nonempty prefix and drops only `'0'` characters.
pub proof fn lemma_trim_trailing_zeros_prefix(s: Seq<u8>)
    requires
        s.len() >= 1,
    ensures
        1 <= trim_trailing_zeros(s).len() <= s.len(),
        trim_trailing_zeros(s) == s.take(trim_trailing_zeros(s).len() as int),
        forall|j: int|
            trim_trailing_zeros(s).len() <= j < s.len() ==> #[trigger] s[j] == 48u8,
    decreases s.len(),
{
    if s.len() > 1 && s.last() == 48u8 {
        lemma_trim_trailing_zeros_prefix(s.drop_last());
        let t = trim_trailing_zeros(s.drop_last());
        assert(s.drop_last().take(t.len() as int) =~= s.take(t.len() as int));
        assert forall|j: int| t.len() <= j < s.len() implies #[trigger] s[j] == 48u8 by {
            if j < s.len() - 1 {
                assert(s[j] == s.drop_last()[j]);
            }
        }
    } else {
        assert(s.take(s.len() as int) =~= s);
    }
}

/// A trailing `'0'` appended to a nonempty sequence is trimmed away again.
pub proof fn lemma_trim_trailing_zeros_push_zero(s: Seq<u8>)
    requires
        s.len() >= 1,
    ensures
        trim_trailing_zeros(s.push(48u8)) == trim_trailing_zeros(s),
{
    assert(s.push(48u8).drop_last() =~= s);
}


/// The count of leading `'0'` characters, from the first character that is not one or
/// from reaching the last character.
pub proof fn lemma_leading_zero_count(s: Seq<u8>, z: nat)
    requires
        z < s.len(),
        forall|j: int| 0 <= j < z ==> #[trigger] s[j] == 48u8,
        z == s.len() - 1 || s[z as int] != 48u8,
    ensures
        leading_zero_count(s) == z,
    decreases z,
{
    if z > 0 {
        assert forall|j: int| 0 <= j < z - 1 implies #[trigger] s.drop_first()[j] == 48u8 by {
            assert(s[j + 1] == 48u8);
        }
        lemma_leading_zero_count(s.drop_first(), (z - 1) as nat);
    }
}


/// The digits of a number below one thousand, as `decimal_text` spells them.
pub proof fn lemma_decimal_text_small(n: nat)
    requires
        n < 1000,
    ensures
        n < 10 ==> decimal_text(n) == seq![digit_char(n)],
        10 <= n < 100 ==> decimal_text(n) == seq![
            digit_char(n / 10),
            digit_char(n % 10),
        ],
        100 <= n ==> decimal_text(n) == seq![
            digit_char(n / 100),
            digit_char((n % 100) / 10),
            digit_char(n % 10),
        ],
{
    reveal_with_fuel(decimal_text, 3);
    if n >= 10 {
        assert(decimal_text(n) == decimal_text(n / 10).push(digit_char(n % 10)));
        if n >= 100 {
            assert((n / 10) / 10 == n / 100);
            assert((n / 10) % 10 == (n % 100) / 10);
            assert(decimal_text(n / 10) == decimal_text((n / 10) / 10).push(
                digit_char((n / 10) % 10),
            ));
            assert(decimal_text(n) =~= seq![
                digit_char(n / 100),
                digit_char((n % 100) / 10),
                digit_char(n % 10),
            ]);
        } else {
            assert(decimal_text(n) =~= seq![
                digit_char(n / 10),
                digit_char(n % 10),
            ]);
        }
    }
}

/// `leading_zero_count` keeps at least one character.
pub proof fn lemma_leading_zero_count_bound(s: Seq<u8>)
    requires
        s.len() >= 1,
    ensures
        leading_zero_count(s) < s.len(),
    decreases s.len(),
{
    if s.len() > 1 && s[0] == 48u8 {
        lemma_leading_zero_count_bound(s.drop_first());
    }
}

/// The text of the digits `d` at exponent `e` is at most seven characters longer than
/// `d`, or at most 23 characters long.
pub proof fn lemma_render_len(d: Seq<u8>, e: int)
    requires
        d.len() >= 1,
        -999 <= e <= 999,
    ensures
        render(d, e).len() <= if d.len() + 7 > 23 {
            d.len() + 7
        } else {
            23
        },
{
    if !(E10_DN <= e <= E10_UP) {
        lemma_decimal_text_small((if e < 0 {
            -e
        } else {
            e
        }) as nat);
    }
}

/// The bound of `lemma_render_len` once leading zeros are dropped.
pub proof fn lemma_render_digits_len(d: Seq<u8>, e: int)
    requires
        1 <= d.len() <= 100,
        -899 <= e <= 999,
    ensures
        render_digits(d, e).len() <= if d.len() + 7 > 23 {
            d.len() + 7
        } else {
            23
        },
{
    lemma_leading_zero_count_bound(d);
    let z = leading_zero_count(d);
    lemma_render_len(d.skip(z as int), e - z);
}

/// Every character of `dec_digits` is a decimal digit.
pub proof fn lemma_dec_digits_chars(m: nat, n: nat)
    ensures
        forall|i: int|
            0 <= i < n ==> 48 <= #[trigger] dec_digits(m, n)[i] <= 57,
    decreases n,
{
    if n > 0 {
        lemma_dec_digits_chars(m / 10, (n - 1) as nat);
        lemma_dec_digits_len(m / 10, (n - 1) as nat);
        assert forall|i: int| 0 <= i < n implies 48 <= #[trigger] dec_digits(m, n)[i] <= 57 by {
            if i < n - 1 {
                assert(dec_digits(m, n)[i] == dec_digits(m / 10, (n - 1) as nat)[i]);
            }
        }
    }
}

} // verus!
