//! Parsing a decimal value from text: a plain integer in a given radix,
//! which always yields a value of scale zero.

use crate::decimal::IntFloat;
use vstd::prelude::*;

verus! {

/// Why parsing failed. `Empty` is an empty input; `InvalidDigit` a character
/// outside the radix (or a lone sign); the overflow variants a value beyond
/// what a 64-bit significand holds, by sign.
#[derive(Clone, Copy, Debug, PartialEq, Eq, Structural)]
pub enum ParseError {
    Empty,
    InvalidDigit,
    PosOverflow,
    NegOverflow,
}

/// The numeric value of `c` as a digit in base `radix` (`0-9`, then letters
/// of either case), or `-1` when `c` is no such digit.
pub open spec fn digit_value(c: char, radix: int) -> int {
    let u = c as int;
    let d = if 48 <= u <= 57 {
        u - 48
    } else if 97 <= u <= 122 {
        u - 87
    } else if 65 <= u <= 90 {
        u - 55
    } else {
        -1
    };
    if 0 <= d < radix {
        d
    } else {
        -1
    }
}

/// The result of consuming `digits` left to right after the sign, starting
/// from the partial value `acc`: each digit scales the accumulator by the
/// radix and is added (or subtracted, for a negative number); the first
/// failure — a non-digit, or a step leaving the 64-bit range — decides the
/// error.
pub open spec fn parse_digits(
    digits: Seq<char>,
    radix: int,
    positive: bool,
    acc: int,
) -> Result<IntFloat, ParseError>
    decreases digits.len(),
{
    if digits.len() == 0 {
        Ok(IntFloat { base: acc as i64, pow: 0 })
    } else if digit_value(digits[0], radix) < 0 {
        Err(ParseError::InvalidDigit)
    } else {
        let a2 = if positive {
            acc * radix + digit_value(digits[0], radix)
        } else {
            acc * radix - digit_value(digits[0], radix)
        };
        if a2 > i64::MAX {
            Err(ParseError::PosOverflow)
        } else if a2 < i64::MIN {
            Err(ParseError::NegOverflow)
        } else {
            parse_digits(digits.skip(1), radix, positive, a2)
        }
    }
}

/// What parsing returns for the character sequence `s`: an optional single
/// sign, then at least one digit of the radix, accumulated while it fits.
pub open spec fn spec_from_str_radix(s: Seq<char>, radix: int) -> Result<IntFloat, ParseError> {
    if s.len() == 0 {
        Err(ParseError::Empty)
    } else if s[0] == '+' || s[0] == '-' {
        if s.len() == 1 {
            Err(ParseError::InvalidDigit)
        } else {
            parse_digits(s.skip(1), radix, s[0] == '+', 0)
        }
    } else {
        parse_digits(s, radix, true, 0)
    }
}

/// Every character of `s` is a digit of the radix.
pub open spec fn all_digits(s: Seq<char>, radix: int) -> bool {
    forall|i: int| 0 <= i < s.len() ==> digit_value(#[trigger] s[i], radix) >= 0
}

/// The number a digit string denotes in base `radix`, most significant
/// digit first, as an unbounded integer.
pub open spec fn digits_value(s: Seq<char>, radix: int) -> int
    decreases s.len(),
{
    if s.len() == 0 {
        0
    } else {
        digits_value(s.drop_last(), radix) * radix + digit_value(s.last(), radix)
    }
}

/// The digits of a possibly signed numeral: everything after a leading sign.
pub open spec fn digits_part(s: Seq<char>) -> Seq<char> {
    if s.len() > 0 && (s[0] == '+' || s[0] == '-') {
        s.skip(1)
    } else {
        s
    }
}

/// Whether a possibly signed numeral is non-negative.
pub open spec fn sign_of(s: Seq<char>) -> bool {
    !(s.len() > 0 && s[0] == '-')
}

/// The digit value of `c` in base `radix`, when it has one.
fn digit_of(c: char, radix: u32) -> (d: Option<u32>)
    requires
        2 <= radix <= 36,
    ensures
        digit_value(c, radix as int) >= 0 ==> d == Some(digit_value(c, radix as int) as u32),
        digit_value(c, radix as int) < 0 ==> d is None,
{
    let u = c as u32;
    let v: u32 = if 48 <= u && u <= 57 {
        u - 48
    } else if 97 <= u && u <= 122 {
        u - 87
    } else if 65 <= u && u <= 90 {
        u - 55
    } else {
        return None;
    };
    if v < radix {
        Some(v)
    } else {
        None
    }
}

impl IntFloat {
    /// Parses `s` as a plain integer in the given radix and wraps it as a
    /// value of scale zero. No decimal point or exponent is understood; any
    /// input that is not an optionally signed run of digits of the radix,
    /// small enough for a 64-bit significand, gives the matching error.
    /// Radixes outside 2 to 36 are not accepted.
    pub fn from_str_radix(s: &str, radix: u32) -> (r: Result<IntFloat, ParseError>)
        requires
            2 <= radix <= 36,
        ensures
            r == spec_from_str_radix(s@, radix as int),
    {
        let n = s.unicode_len();
        if n == 0 {
            return Err(ParseError::Empty);
        }
        let c0 = s.get_char(0);
        let positive: bool = !(c0 == '-');
        let start: usize = if c0 == '+' || c0 == '-' {
            1
        } else {
            0
        };
        if start == 1 && n == 1 {
            return Err(ParseError::InvalidDigit);
        }
        let mut acc: i64 = 0;
        let mut i: usize = start;
        proof {
            if start == 0 {
                assert(s@.skip(0) =~= s@);
            }
        }
        while i < n
            invariant
                2 <= radix <= 36,
                start <= i <= n,
                n == s@.len(),
                positive ==> acc >= 0,
                !positive ==> acc <= 0,
                spec_from_str_radix(s@, radix as int) == parse_digits(
                    s@.skip(i as int),
                    radix as int,
                    positive,
                    acc as int,
                ),
            decreases n - i,
        {
            let c = s.get_char(i);
            proof {
                assert(s@.skip(i as int)[0] == s@[i as int]);
            }
            let dopt = digit_of(c, radix);
            if dopt.is_none() {
                return Err(ParseError::InvalidDigit);
            }
            let d = dopt.unwrap();
            let scaled = acc.checked_mul(radix as i64);
            let next: Option<i64> = match scaled {
                Some(t) => if positive {
                    t.checked_add(d as i64)
                } else {
                    t.checked_sub(d as i64)
                },
                None => None,
            };
            proof {
                if positive {
                    vstd::arithmetic::mul::lemma_mul_nonnegative(acc as int, radix as int);
                } else {
                    assert(acc * radix <= 0) by (nonlinear_arith)
                        requires
                            acc <= 0,
                            radix >= 2,
                    ;
                }
            }
            match next {
                Some(a2) => {
                    proof {
                        assert(s@.skip(i as int).skip(1) =~= s@.skip(i as int + 1));
                    }
                    acc = a2;
                },
                None => {
                    if positive {
                        return Err(ParseError::PosOverflow);
                    } else {
                        return Err(ParseError::NegOverflow);
                    }
                },
            }
            i = i + 1;
        }
        proof {
            assert(s@.skip(n as int) =~= Seq::<char>::empty());
        }
        Ok(IntFloat { base: acc, pow: 0 })
    }
}

/// A string of digits denotes a non-negative number.
proof fn lemma_digits_value_nonneg(s: Seq<char>, radix: int)
    requires
        radix >= 2,
        all_digits(s, radix),
    ensures
        digits_value(s, radix) >= 0,
    decreases s.len(),
{
    if s.len() > 0 {
        let t = s.drop_last();
        assert(all_digits(t, radix)) by {
            assert forall|i: int| 0 <= i < t.len() implies digit_value(#[trigger] t[i], radix)
                >= 0 by {
                assert(t[i] == s[i]);
            }
        }
        lemma_digits_value_nonneg(t, radix);
        vstd::arithmetic::mul::lemma_mul_nonnegative(digits_value(t, radix), radix);
        assert(digit_value(s[s.len() - 1], radix) >= 0);
    }
}

/// Keeping or dropping the first character splits a digit test.
proof fn lemma_all_digits_front(s: Seq<char>, radix: int)
    requires
        s.len() > 0,
    ensures
        all_digits(s, radix) <==> (digit_value(s[0], radix) >= 0 && all_digits(s.skip(1), radix)),
{
    if digit_value(s[0], radix) >= 0 && all_digits(s.skip(1), radix) {
        assert forall|i: int| 0 <= i < s.len() implies digit_value(#[trigger] s[i], radix) >= 0 by {
            if i > 0 {
                assert(s[i] == s.skip(1)[i - 1]);
            }
        }
    }
    if all_digits(s, radix) {
        assert forall|i: int| 0 <= i < s.skip(1).len() implies digit_value(
            #[trigger] s.skip(1)[i],
            radix,
        ) >= 0 by {
            assert(s.skip(1)[i] == s[i + 1]);
        }
    }
}

/// A digit string's value, decomposed at its first digit.
proof fn lemma_digits_value_front(s: Seq<char>, radix: int)
    requires
        s.len() > 0,
    ensures
        digits_value(s, radix) == digit_value(s[0], radix) * vstd::arithmetic::power::pow(
            radix,
            (s.len() - 1) as nat,
        ) + digits_value(s.skip(1), radix),
    decreases s.len(),
{
    reveal(vstd::arithmetic::power::pow);
    if s.len() == 1 {
        assert(s.drop_last() =~= Seq::<char>::empty());
        assert(s.skip(1) =~= Seq::<char>::empty());
    } else {
        let t = s.drop_last();
        lemma_digits_value_front(t, radix);
        assert(t.skip(1) =~= s.skip(1).drop_last());
        assert(s.skip(1).last() == s.last());
        let d0 = digit_value(s[0], radix);
        let n = s.len();
        let p2 = vstd::arithmetic::power::pow(radix, (n - 2) as nat);
        let p1 = vstd::arithmetic::power::pow(radix, (n - 1) as nat);
        assert(p1 == radix * p2);
        let dvt1 = digits_value(t.skip(1), radix);
        assert((d0 * p2 + dvt1) * radix == d0 * (radix * p2) + dvt1 * radix) by (nonlinear_arith);
    }
}

/// Consuming digits succeeds exactly when every character is a digit of the
/// radix and the value accumulated so far, extended by them, stays in the
/// 64-bit range; the parsed significand is then exactly that value.
proof fn lemma_parse_digits_value(s: Seq<char>, radix: int, positive: bool, acc: int)
    requires
        2 <= radix <= 36,
        positive ==> 0 <= acc <= i64::MAX,
        !positive ==> i64::MIN <= acc <= 0,
    ensures
        ({
            let shifted = if positive {
                acc * vstd::arithmetic::power::pow(radix, s.len()) + digits_value(s, radix)
            } else {
                acc * vstd::arithmetic::power::pow(radix, s.len()) - digits_value(s, radix)
            };
            &&& ((parse_digits(s, radix, positive, acc) is Ok) <==> (all_digits(s, radix)
                && i64::MIN <= shifted <= i64::MAX))
            &&& (all_digits(s, radix) && i64::MIN <= shifted <= i64::MAX ==> parse_digits(
                s,
                radix,
                positive,
                acc,
            ) == Ok::<IntFloat, ParseError>(IntFloat { base: shifted as i64, pow: 0 }))
        }),
    decreases s.len(),
{
    reveal(vstd::arithmetic::power::pow);
    if s.len() == 0 {
    } else {
        lemma_all_digits_front(s, radix);
        let d = digit_value(s[0], radix);
        if d < 0 {
            assert(!all_digits(s, radix));
        } else {
            let a2 = if positive {
                acc * radix + d
            } else {
                acc * radix - d
            };
            lemma_digits_value_front(s, radix);
            let n = s.len();
            let p1 = vstd::arithmetic::power::pow(radix, (n - 1) as nat);
            vstd::arithmetic::power::lemma_pow_positive(radix, (n - 1) as nat);
            assert(acc * vstd::arithmetic::power::pow(radix, n) == (acc * radix) * p1)
                by (nonlinear_arith)
                requires
                    vstd::arithmetic::power::pow(radix, n) == radix * p1,
            ;
            assert((acc * radix) * p1 + d * p1 == (acc * radix + d) * p1) by (nonlinear_arith);
            assert((acc * radix) * p1 - d * p1 == (acc * radix - d) * p1) by (nonlinear_arith);
            if positive {
                vstd::arithmetic::mul::lemma_mul_nonnegative(acc, radix);
                if a2 > i64::MAX {
                    if all_digits(s, radix) {
                        lemma_digits_value_nonneg(s.skip(1), radix);
                        assert(a2 * p1 >= a2) by (nonlinear_arith)
                            requires
                                p1 >= 1,
                                a2 >= 0,
                        ;
                    }
                } else {
                    lemma_parse_digits_value(s.skip(1), radix, positive, a2);
                }
            } else {
                assert(acc * radix <= 0) by (nonlinear_arith)
                    requires
                        acc <= 0,
                        radix >= 2,
                ;
                if a2 < i64::MIN {
                    if all_digits(s, radix) {
                        lemma_digits_value_nonneg(s.skip(1), radix);
                        assert(a2 * p1 <= a2) by (nonlinear_arith)
                            requires
                                p1 >= 1,
                                a2 <= 0,
                        ;
                    }
                } else {
                    lemma_parse_digits_value(s.skip(1), radix, positive, a2);
                }
            }
        }
    }
}

/// What parsing means, stated directly rather than step by step: it succeeds
/// exactly when, after an optional sign, the input is a nonempty run of
/// digits of the radix whose base-`radix` value (negated under a minus sign)
/// lies in the 64-bit range; the parsed value is that number at scale zero.
pub proof fn lemma_from_str_radix_value(s: Seq<char>, radix: int)
    requires
        2 <= radix <= 36,
    ensures
        ({
            let digits = digits_part(s);
            let value = if sign_of(s) {
                digits_value(digits, radix)
            } else {
                -digits_value(digits, radix)
            };
            &&& ((spec_from_str_radix(s, radix) is Ok) <==> (digits.len() > 0 && all_digits(
                digits,
                radix,
            ) && i64::MIN <= value <= i64::MAX))
            &&& (spec_from_str_radix(s, radix) is Ok ==> spec_from_str_radix(s, radix) == Ok::<
                IntFloat,
                ParseError,
            >(IntFloat { base: value as i64, pow: 0 }))
        }),
{
    reveal(vstd::arithmetic::power::pow);
    if s.len() == 0 {
    } else if s[0] == '+' || s[0] == '-' {
        if s.len() > 1 {
            lemma_parse_digits_value(s.skip(1), radix, s[0] == '+', 0);
        }
    } else {
        lemma_parse_digits_value(s, radix, true, 0);
    }
}

} // verus!
