//! Exact decimal numbers. Telemetry fields such as `-3.9rot` or `CPU:0.7`
//! carry short decimal literals; they are kept exactly as written, as a sign,
//! an integer mantissa and a decimal scale, so `-3.9` is mantissa 39, scale 1,
//! negative.

use vstd::prelude::*;
use crate::lex::{is_digit, digit_val, is_sign};

verus! {

/// A decimal literal `(-1)^negative * mantissa / 10^scale`, kept exactly as
/// parsed: `-0.16` has mantissa 16 and scale 2.
#[derive(Debug, Clone, Copy, PartialEq, Eq, Structural)]
pub struct Decimal {
    pub negative: bool,
    pub mantissa: u32,
    pub scale: u8,
}

pub open spec fn is_dec_char(b: u8) -> bool {
    is_digit(b) || b == 46
}

pub open spec fn all_dec_chars(s: Seq<u8>) -> bool {
    forall|k: int| 0 <= k < s.len() ==> is_dec_char(#[trigger] s[k])
}

/// Number of dots in `s`.
pub open spec fn dot_count(s: Seq<u8>) -> int
    decreases s.len(),
{
    if s.len() == 0 {
        0
    } else {
        dot_count(s.drop_last()) + if s.last() == 46 {
            1int
        } else {
            0
        }
    }
}

/// Number of decimal digits in `s`.
pub open spec fn digit_count(s: Seq<u8>) -> int
    decreases s.len(),
{
    if s.len() == 0 {
        0
    } else {
        digit_count(s.drop_last()) + if is_digit(s.last()) {
            1int
        } else {
            0
        }
    }
}

/// Value of the digits of `s`, dots skipped.
pub open spec fn dec_digits_val(s: Seq<u8>) -> nat
    decreases s.len(),
{
    if s.len() == 0 {
        0
    } else if is_digit(s.last()) {
        dec_digits_val(s.drop_last()) * 10 + digit_val(s.last())
    } else {
        dec_digits_val(s.drop_last())
    }
}

/// Number of digits at the end of `s`, up to the last non-digit.
pub open spec fn trailing_digits(s: Seq<u8>) -> int
    decreases s.len(),
{
    if s.len() == 0 {
        0
    } else if is_digit(s.last()) {
        trailing_digits(s.drop_last()) + 1
    } else {
        0
    }
}

/// The body of a decimal literal, a leading sign stripped.
pub open spec fn dec_body(s: Seq<u8>) -> Seq<u8> {
    if s.len() >= 1 && is_sign(s[0]) {
        s.drop_first()
    } else {
        s
    }
}

pub open spec fn dec_neg(s: Seq<u8>) -> bool {
    s.len() >= 1 && s[0] == 45
}

/// Whether the body of a decimal literal is well formed: digits with at most
/// one dot, at least one digit, and at most nine digits.
pub open spec fn dec_body_ok(s: Seq<u8>) -> bool {
    all_dec_chars(s) && dot_count(s) <= 1 && 1 <= digit_count(s) <= 9
}

/// A decimal literal: optional sign, then digits with at most one dot, at
/// least one and at most nine digits in all.
pub open spec fn spec_parse_decimal(s: Seq<u8>) -> Option<Decimal> {
    if dec_body_ok(dec_body(s)) {
        Some(
            Decimal {
                negative: dec_neg(s),
                mantissa: dec_digits_val(dec_body(s)) as u32,
                scale: (if dot_count(dec_body(s)) == 1 {
                    trailing_digits(dec_body(s))
                } else {
                    0
                }) as u8,
            },
        )
    } else {
        None
    }
}

pub open spec fn pow10(n: nat) -> nat
    decreases n,
{
    if n == 0 {
        1
    } else {
        10 * pow10((n - 1) as nat)
    }
}

proof fn lemma_pow10_vals()
    ensures
        pow10(9) == 1_000_000_000,
{
    assert(pow10(0) == 1);
    assert(pow10(1) == 10);
    assert(pow10(2) == 100);
    assert(pow10(3) == 1000);
    assert(pow10(4) == 10_000);
    assert(pow10(5) == 100_000);
    assert(pow10(6) == 1_000_000);
    assert(pow10(7) == 10_000_000);
    assert(pow10(8) == 100_000_000);
    assert(pow10(9) == 1_000_000_000);
}

proof fn lemma_pow10_mono(a: nat, b: nat)
    requires
        a <= b,
    ensures
        pow10(a) <= pow10(b),
    decreases b,
{
    if a < b {
        lemma_pow10_mono(a, (b - 1) as nat);
        assert(pow10(b) == 10 * pow10((b - 1) as nat));
    }
}

/// The digit value is bounded by a power of ten of the digit count.
proof fn lemma_dec_val_bound(s: Seq<u8>)
    requires
        0 <= digit_count(s),
    ensures
        dec_digits_val(s) < pow10(digit_count(s) as nat),
    decreases s.len(),
{
    if s.len() > 0 {
        lemma_digit_count_nonneg(s.drop_last());
        lemma_dec_val_bound(s.drop_last());
    }
}

proof fn lemma_digit_count_nonneg(s: Seq<u8>)
    ensures
        digit_count(s) >= 0,
        dot_count(s) >= 0,
        trailing_digits(s) >= 0,
    decreases s.len(),
{
    if s.len() > 0 {
        lemma_digit_count_nonneg(s.drop_last());
    }
}

/// Counts only grow along a prefix.
proof fn lemma_dec_prefix_mono(s: Seq<u8>, i: int)
    requires
        0 <= i <= s.len(),
    ensures
        digit_count(s.take(i)) <= digit_count(s),
        dot_count(s.take(i)) <= dot_count(s),
    decreases s.len(),
{
    if i == s.len() {
        assert(s.take(i) =~= s);
    } else {
        assert(s.drop_last().take(i) =~= s.take(i));
        lemma_dec_prefix_mono(s.drop_last(), i);
        lemma_digit_count_nonneg(s);
    }
}

proof fn lemma_dec_take_step(s: Seq<u8>, i: int)
    requires
        0 <= i < s.len(),
    ensures
        dot_count(s.take(i + 1)) == dot_count(s.take(i)) + if s[i] == 46 {
            1int
        } else {
            0
        },
        digit_count(s.take(i + 1)) == digit_count(s.take(i)) + if is_digit(s[i]) {
            1int
        } else {
            0
        },
        dec_digits_val(s.take(i + 1)) == if is_digit(s[i]) {
            dec_digits_val(s.take(i)) * 10 + digit_val(s[i])
        } else {
            dec_digits_val(s.take(i))
        },
        trailing_digits(s.take(i + 1)) == if is_digit(s[i]) {
            trailing_digits(s.take(i)) + 1
        } else {
            0
        },
{
    assert(s.take(i + 1).drop_last() =~= s.take(i));
    assert(s.take(i + 1).last() == s[i]);
}

/// Parses a decimal literal exactly.
pub fn parse_decimal(s: &[u8]) -> (r: Option<Decimal>)
    ensures
        r == spec_parse_decimal(s@),
{
    let neg: bool = s.len() >= 1 && s[0] == 45;
    let body: &[u8] = if s.len() >= 1 && (s[0] == 43 || s[0] == 45) {
        &s[1..s.len()]
    } else {
        s
    };
    proof {
        assert(body@ =~= dec_body(s@));
        assert(neg == dec_neg(s@));
    }
    let ghost bs = body@;
    let mut acc: u32 = 0;
    let mut digits: u8 = 0;
    let mut dots: u8 = 0;
    let mut trail: u8 = 0;
    let mut i: usize = 0;
    while i < body.len()
        invariant
            0 <= i <= bs.len(),
            bs == body@,
            bs == dec_body(s@),
            neg == dec_neg(s@),
            all_dec_chars(bs.take(i as int)),
            dots as int == dot_count(bs.take(i as int)),
            dots <= 1,
            digits as int == digit_count(bs.take(i as int)),
            digits <= 9,
            acc as nat == dec_digits_val(bs.take(i as int)),
            trail as int == trailing_digits(bs.take(i as int)),
            trail <= digits,
        decreases body.len() - i,
    {
        let b = body[i];
        proof {
            lemma_dec_take_step(bs, i as int);
        }
        if 48 <= b && b <= 57 {
            if digits == 9 {
                proof {
                    lemma_dec_prefix_mono(bs, i + 1);
                }
                assert(digit_count(bs) >= 10);
                return None;
            }
            proof {
                lemma_digit_count_nonneg(bs.take(i as int));
                lemma_dec_val_bound(bs.take(i as int));
                lemma_pow10_mono(digit_count(bs.take(i as int)) as nat, 8);
                lemma_pow10_vals();
                assert(pow10(9) == 10 * pow10(8));
            }
            acc = acc * 10 + ((b - 48) as u32);
            digits = digits + 1;
            trail = trail + 1;
        } else if b == 46 {
            if dots == 1 {
                proof {
                    lemma_dec_prefix_mono(bs, i + 1);
                }
                assert(dot_count(bs) >= 2);
                return None;
            }
            dots = 1;
            trail = 0;
        } else {
            assert(!is_dec_char(bs[i as int]));
            assert(!all_dec_chars(bs));
            return None;
        }
        i = i + 1;
    }
    assert(bs.take(bs.len() as int) =~= bs);
    if digits == 0 {
        None
    } else {
        Some(
            Decimal {
                negative: neg,
                mantissa: acc,
                scale: if dots == 1 {
                    trail
                } else {
                    0
                },
            },
        )
    }
}

} // verus!
