//! Rendering a decimal value as text, in pure integer arithmetic.

use crate::arith::{
    lemma_pow10_monotone, lemma_pow10_pos, lemma_wrap64_mul_wrapped, pow10, pow10_exact_u64,
    pow10_wrapped, wrap64,
};
use crate::decimal::IntFloat;
use vstd::math::abs;
use vstd::prelude::*;

verus! {

/// The ASCII byte of the decimal digit `d`.
pub open spec fn digit_byte(d: int) -> u8 {
    (48 + d) as u8
}

/// The decimal digits of `n`, most significant first, as ASCII bytes.
pub open spec fn dec_digits(n: nat) -> Seq<u8>
    decreases n,
{
    if n < 10 {
        seq![digit_byte(n as int)]
    } else {
        dec_digits(n / 10).push(digit_byte((n % 10) as int))
    }
}

/// The last `p` decimal digits of `m`, zero-padded on the left to exactly
/// `p` bytes.
pub open spec fn frac_digits(m: nat, p: nat) -> Seq<u8>
    decreases p,
{
    if p == 0 {
        Seq::<u8>::empty()
    } else {
        frac_digits(m / 10, (p - 1) as nat).push(digit_byte((m % 10) as int))
    }
}

/// `m` with its trailing zero digits removed, at most `p` of them.
pub open spec fn stripped(m: nat, p: nat) -> nat
    decreases p,
{
    if p == 0 || m % 10 != 0 {
        m
    } else {
        stripped(m / 10, (p - 1) as nat)
    }
}

/// How many trailing zero digits are removed, at most `p`.
pub open spec fn strip_count(m: nat, p: nat) -> nat
    decreases p,
{
    if p == 0 || m % 10 != 0 {
        0
    } else {
        1 + strip_count(m / 10, (p - 1) as nat)
    }
}

/// A signed integer rendered in decimal: a minus sign when negative, then
/// the digits of its magnitude.
pub open spec fn int_digits(v: int) -> Seq<u8> {
    if v < 0 {
        seq![45u8] + dec_digits((-v) as nat)
    } else {
        dec_digits(v as nat)
    }
}

/// What `print` renders, as ASCII bytes.
///
/// A value with `pow <= 0` is a whole number: it is scaled up (wrapping) and
/// rendered as an integer, without a decimal point. A value with `pow >= 1`
/// has `pow` digits after the point; trailing zeros of the fraction are
/// dropped, and when none of the fraction survives, the point is dropped
/// too.
pub open spec fn print_bytes(v: IntFloat) -> Seq<u8> {
    if v.pow <= 0 {
        int_digits(wrap64(v.base * pow10((-v.pow) as nat)) as int)
    } else {
        let m = abs(v.base as int);
        let m2 = stripped(m, v.pow as nat);
        let p2 = (v.pow - strip_count(m, v.pow as nat)) as nat;
        let sign = if v.base < 0 {
            seq![45u8]
        } else {
            Seq::<u8>::empty()
        };
        if p2 == 0 {
            sign + dec_digits(m2)
        } else {
            sign + dec_digits((m2 as int / pow10(p2)) as nat) + seq![46u8] + frac_digits(m2, p2)
        }
    }
}

impl IntFloat {
    /// What `print` returns, as a sequence of characters.
    pub open spec fn spec_print(self) -> Seq<char> {
        print_bytes(self).map_values(|b: u8| b as char)
    }
}

/// Every digit byte lies between `'0'` and `'9'`, and there is at least one.
pub proof fn lemma_dec_digits_props(n: nat)
    ensures
        dec_digits(n).len() >= 1,
        forall|i: int| 0 <= i < dec_digits(n).len() ==> 48 <= #[trigger] dec_digits(n)[i] <= 57,
    decreases n,
{
    if n >= 10 {
        lemma_dec_digits_props(n / 10);
    }
}

/// A fraction consists of exactly `p` digit bytes.
pub proof fn lemma_frac_digits_props(m: nat, p: nat)
    ensures
        frac_digits(m, p).len() == p,
        forall|i: int| 0 <= i < p ==> 48 <= #[trigger] frac_digits(m, p)[i] <= 57,
    decreases p,
{
    if p > 0 {
        lemma_frac_digits_props(m / 10, (p - 1) as nat);
    }
}

/// No more digits strip than the scale has.
pub proof fn lemma_strip_count_le(m: nat, p: nat)
    ensures
        strip_count(m, p) <= p,
    decreases p,
{
    if !(p == 0 || m % 10 != 0) {
        lemma_strip_count_le(m / 10, (p - 1) as nat);
    }
}

/// The whole fraction strips away exactly when the magnitude is a multiple
/// of `10^p`.
pub proof fn lemma_strip_all_iff(m: nat, p: nat)
    ensures
        (strip_count(m, p) == p) <==> ((m as int) % pow10(p) == 0),
    decreases p,
{
    lemma_pow10_pos(p);
    if p == 0 {
    } else if m % 10 != 0 {
        lemma_strip_count_le(m, p);
        if (m as int) % pow10(p) == 0 {
            let q = (m as int) / pow10(p);
            vstd::arithmetic::div_mod::lemma_fundamental_div_mod(m as int, pow10(p));
            lemma_pow10_pos((p - 1) as nat);
            assert(pow10(p) * q == 10 * (pow10((p - 1) as nat) * q)) by (nonlinear_arith)
                requires
                    pow10(p) == 10 * pow10((p - 1) as nat),
            ;
            vstd::arithmetic::div_mod::lemma_mod_multiples_basic(
                pow10((p - 1) as nat) * q,
                10,
            );
            assert(false);
        }
    } else {
        let t = m / 10;
        lemma_strip_all_iff(t, (p - 1) as nat);
        vstd::arithmetic::div_mod::lemma_fundamental_div_mod(m as int, 10);
        let pp = pow10((p - 1) as nat);
        lemma_pow10_pos((p - 1) as nat);
        if (t as int) % pp == 0 {
            let q = (t as int) / pp;
            vstd::arithmetic::div_mod::lemma_fundamental_div_mod(t as int, pp);
            assert(m as int == pow10(p) * q) by (nonlinear_arith)
                requires
                    m as int == 10 * (t as int),
                    t as int == pp * q,
                    pow10(p) == 10 * pp,
            ;
            vstd::arithmetic::div_mod::lemma_mod_multiples_basic(q, pow10(p));
        }
        if (m as int) % pow10(p) == 0 {
            let q = (m as int) / pow10(p);
            vstd::arithmetic::div_mod::lemma_fundamental_div_mod(m as int, pow10(p));
            assert(t as int == pp * q) by (nonlinear_arith)
                requires
                    m as int == 10 * (t as int),
                    m as int == pow10(p) * q,
                    pow10(p) == 10 * pp,
            ;
            vstd::arithmetic::div_mod::lemma_mod_multiples_basic(q, pp);
        }
    }
}

/// Everything `print` renders is ASCII.
pub proof fn lemma_print_bytes_ascii(v: IntFloat)
    ensures
        forall|i: int| 0 <= i < print_bytes(v).len() ==> #[trigger] print_bytes(v)[i] < 128,
{
    if v.pow <= 0 {
        let w = wrap64(v.base * pow10((-v.pow) as nat)) as int;
        if w < 0 {
            lemma_dec_digits_props((-w) as nat);
        } else {
            lemma_dec_digits_props(w as nat);
        }
    } else {
        let m = abs(v.base as int);
        let m2 = stripped(m, v.pow as nat);
        let p2 = (v.pow - strip_count(m, v.pow as nat)) as nat;
        lemma_dec_digits_props(m2);
        lemma_dec_digits_props((m2 as int / pow10(p2)) as nat);
        lemma_frac_digits_props(m2, p2);
    }
}

/// Relies on `String::from_utf8`: a vector of ASCII bytes is valid UTF-8 and
/// decodes to the string whose characters are exactly those bytes, so the
/// conversion never fails under the precondition.
#[verifier::external_body]
fn string_from_ascii(bytes: Vec<u8>) -> (r: String)
    requires
        forall|i: int| 0 <= i < bytes@.len() ==> bytes@[i] < 128,
    ensures
        r@ == bytes@.map_values(|b: u8| b as char),
{
    String::from_utf8(bytes).unwrap()
}

/// The magnitude of a signed 64-bit value.
fn magnitude(v: i64) -> (m: u64)
    ensures
        m as nat == abs(v as int),
{
    if v < 0 {
        (-(v as i128)) as u64
    } else {
        v as u64
    }
}

/// Appends the decimal digits of `n`.
fn push_digits(n: u64, out: &mut Vec<u8>)
    ensures
        final(out)@ == old(out)@ + dec_digits(n as nat),
    decreases n,
{
    if n < 10 {
        out.push(48 + (n as u8));
        proof {
            assert(out@ =~= old(out)@ + dec_digits(n as nat));
        }
    } else {
        push_digits(n / 10, out);
        out.push(48 + ((n % 10) as u8));
        proof {
            assert(out@ =~= old(out)@ + dec_digits(n as nat));
        }
    }
}

/// Appends the last `p` decimal digits of `m`, zero-padded to `p` bytes.
fn push_frac_digits(m: u64, p: u64, out: &mut Vec<u8>)
    ensures
        final(out)@ == old(out)@ + frac_digits(m as nat, p as nat),
    decreases p,
{
    if p == 0 {
        proof {
            assert(out@ =~= old(out)@ + frac_digits(m as nat, 0));
        }
    } else {
        push_frac_digits(m / 10, p - 1, out);
        out.push(48 + ((m % 10) as u8));
        proof {
            assert(out@ =~= old(out)@ + frac_digits(m as nat, p as nat));
        }
    }
}

impl IntFloat {
    /// Renders the value: as a plain integer when the scale is at most zero,
    /// and otherwise as a decimal string whose surviving fractional digits
    /// follow a decimal point. See [`print_bytes`].
    pub fn print(self) -> (r: String)
        ensures
            r@ == self.spec_print(),
    {
        let mut out: Vec<u8> = Vec::new();
        if self.pow <= 0 {
            let f = pow10_wrapped(Self::pow_diff(0, self.pow));
            proof {
                lemma_wrap64_mul_wrapped(self.base as int, pow10((-self.pow) as nat));
            }
            let v = self.base.wrapping_mul(f);
            if v < 0 {
                out.push(45);
            }
            push_digits(magnitude(v), &mut out);
            proof {
                assert(out@ =~= print_bytes(self));
            }
        } else {
            let mag = magnitude(self.base);
            let powu = self.pow as u64;
            let mut m2: u64 = mag;
            let mut p2: u64 = powu;
            while p2 > 0 && m2 % 10 == 0
                invariant
                    p2 <= powu,
                    stripped(mag as nat, powu as nat) == stripped(m2 as nat, p2 as nat),
                    strip_count(mag as nat, powu as nat) == (powu - p2) + strip_count(
                        m2 as nat,
                        p2 as nat,
                    ),
                decreases p2,
            {
                m2 = m2 / 10;
                p2 = p2 - 1;
            }
            if self.base < 0 {
                out.push(45);
            }
            if p2 == 0 {
                push_digits(m2, &mut out);
            } else {
                let ip: u64 = if p2 >= 20 {
                    proof {
                        lemma_pow10_monotone(20, p2 as nat);
                        assert(pow10(20) > u64::MAX) by {
                            reveal_with_fuel(pow10, 21);
                        }
                        lemma_pow10_pos(p2 as nat);
                        vstd::arithmetic::div_mod::lemma_basic_div(m2 as int, pow10(p2 as nat));
                    }
                    0
                } else {
                    let p10 = pow10_exact_u64(p2);
                    m2 / p10
                };
                push_digits(ip, &mut out);
                out.push(46);
                push_frac_digits(m2, p2, &mut out);
            }
            proof {
                assert(out@ =~= print_bytes(self));
            }
        }
        proof {
            lemma_print_bytes_ascii(self);
        }
        string_from_ascii(out)
    }
}

} // verus!
