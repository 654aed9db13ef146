//! The decimal value type and its arithmetic.

use crate::arith::{
    div_trunc, lemma_pow10_monotone, lemma_pow10_pos, lemma_wrap64_cases, lemma_wrap64_id,
    lemma_wrap64_mul_wrapped, lemma_wrap64_scale_add, pow10, pow10_exact, pow10_wrapped, trunc_div,
    wrap64,
};
use vstd::prelude::*;

verus! {

/// A decimal number, stored as the pair `(base, pow)` and denoting the real
/// number `base * 10^(-pow)`. A positive `pow` counts digits after the
/// decimal point (`base = 534, pow = 2` is `5.34`); a negative `pow` scales
/// the significand up (`base = 534, pow = -2` is `53400`).
///
/// No canonical form is kept: `(500, 0)` and `(50000, 2)` denote the same
/// number and compare equal, yet remain distinct pairs. Hashing is derived
/// from the raw pair, so two values that compare equal may hash differently;
/// this deliberate deviation from the usual hash contract is the price of
/// hashing without normalisation.
///
/// All arithmetic on significands and scales is 64-bit two's-complement with
/// silent wraparound on overflow.
#[derive(Clone, Copy, Hash, Eq, Debug)]
pub struct IntFloat {
    pub base: i64,
    pub pow: i64,
}

impl IntFloat {
    /// The sum: the operand with the smaller `pow` is rescaled up to the
    /// larger `pow`, then the significands are added.
    pub open spec fn spec_add(self, rhs: Self) -> Self {
        if rhs.pow > self.pow {
            IntFloat {
                base: wrap64(self.base * pow10((rhs.pow - self.pow) as nat) + rhs.base),
                pow: rhs.pow,
            }
        } else {
            IntFloat {
                base: wrap64(rhs.base * pow10((self.pow - rhs.pow) as nat) + self.base),
                pow: self.pow,
            }
        }
    }

    /// The negation: the significand flips sign (wrapping on `i64::MIN`).
    pub open spec fn spec_neg(self) -> Self {
        IntFloat { base: wrap64(-self.base), pow: self.pow }
    }

    /// The difference: addition of the negated right-hand operand.
    pub open spec fn spec_sub(self, rhs: Self) -> Self {
        self.spec_add(rhs.spec_neg())
    }

    /// The product: significands multiply and scales add.
    pub open spec fn spec_mul(self, rhs: Self) -> Self {
        IntFloat { base: wrap64(self.base * rhs.base), pow: wrap64(self.pow + rhs.pow) }
    }

    /// The quotient: significands divide truncating toward zero, scales
    /// subtract.
    pub open spec fn spec_div(self, rhs: Self) -> Self {
        IntFloat {
            base: wrap64(trunc_div(self.base as int, rhs.base as int)),
            pow: wrap64(self.pow - rhs.pow),
        }
    }

    /// The remainder: what truncating division leaves over,
    /// `self - (self / rhs) * rhs`.
    pub open spec fn spec_rem(self, rhs: Self) -> Self {
        self.spec_sub(self.spec_div(rhs).spec_mul(rhs))
    }

    /// Both significands brought to the larger of the two scales: the one
    /// with the smaller `pow` is multiplied by the aligning power of ten.
    pub open spec fn aligned(self, rhs: Self) -> (i64, i64) {
        if rhs.pow > self.pow {
            (wrap64(self.base * pow10((rhs.pow - self.pow) as nat)), rhs.base)
        } else {
            (self.base, wrap64(rhs.base * pow10((self.pow - rhs.pow) as nat)))
        }
    }

    /// Equality by mathematical value: the aligned significands coincide.
    /// The stored representation is irrelevant.
    pub open spec fn eq_value(self, rhs: Self) -> bool {
        self.aligned(rhs).0 == self.aligned(rhs).1
    }

    /// Stores the pair verbatim; any pair is accepted.
    pub fn new(base: i64, pow: i64) -> (r: Self)
        ensures
            r == (IntFloat { base, pow }),
    {
        IntFloat { base, pow }
    }

    /// The additive identity, significand 0 at scale 0.
    pub fn zero() -> (r: Self)
        ensures
            r == (IntFloat { base: 0, pow: 0 }),
    {
        IntFloat { base: 0, pow: 0 }
    }

    /// A value is zero exactly when its significand is zero, whatever its
    /// scale. Note the asymmetry with `eq_value`: this test never rescales.
    pub fn is_zero(&self) -> (r: bool)
        ensures
            r == (self.base == 0),
    {
        self.base == 0
    }

    /// The multiplicative identity, significand 1 at scale 0.
    pub fn one() -> (r: Self)
        ensures
            r == (IntFloat { base: 1, pow: 0 }),
    {
        IntFloat { base: 1, pow: 0 }
    }

    /// The distance between two scales, as the exact unsigned difference.
    pub(crate) fn pow_diff(hi: i64, lo: i64) -> (d: u64)
        requires
            lo <= hi,
        ensures
            d == hi - lo,
    {
        ((hi as i128) - (lo as i128)) as u64
    }

    /// Executable alignment: see [`IntFloat::aligned`].
    fn aligned_bases(&self, other: &Self) -> (r: (i64, i64))
        ensures
            r == self.aligned(*other),
    {
        if other.pow > self.pow {
            let f = pow10_wrapped(Self::pow_diff(other.pow, self.pow));
            proof {
                lemma_wrap64_mul_wrapped(self.base as int, pow10((other.pow - self.pow) as nat));
            }
            (self.base.wrapping_mul(f), other.base)
        } else {
            let f = pow10_wrapped(Self::pow_diff(self.pow, other.pow));
            proof {
                lemma_wrap64_mul_wrapped(other.base as int, pow10((self.pow - other.pow) as nat));
            }
            (self.base, other.base.wrapping_mul(f))
        }
    }
}

impl PartialEq for IntFloat {
    /// Two values are equal when their aligned significands match.
    fn eq(&self, other: &Self) -> (r: bool) {
        let b = self.aligned_bases(other);
        b.0 == b.1
    }
}

impl vstd::std_specs::cmp::PartialEqSpecImpl for IntFloat {
    open spec fn obeys_eq_spec() -> bool {
        true
    }

    open spec fn eq_spec(&self, other: &Self) -> bool {
        self.eq_value(*other)
    }
}

impl Default for IntFloat {
    /// The default value is zero: significand 0 at scale 0.
    fn default() -> (r: Self)
        ensures
            r == (IntFloat { base: 0, pow: 0 }),
    {
        IntFloat { base: 0, pow: 0 }
    }
}

impl core::ops::Add for IntFloat {
    type Output = IntFloat;

    /// See [`IntFloat::spec_add`].
    fn add(self, rhs: IntFloat) -> (r: IntFloat) {
        if rhs.pow > self.pow {
            let f = pow10_wrapped(Self::pow_diff(rhs.pow, self.pow));
            proof {
                lemma_wrap64_scale_add(
                    self.base as int,
                    pow10((rhs.pow - self.pow) as nat),
                    rhs.base as int,
                );
            }
            IntFloat { base: self.base.wrapping_mul(f).wrapping_add(rhs.base), pow: rhs.pow }
        } else {
            let f = pow10_wrapped(Self::pow_diff(self.pow, rhs.pow));
            proof {
                lemma_wrap64_scale_add(
                    rhs.base as int,
                    pow10((self.pow - rhs.pow) as nat),
                    self.base as int,
                );
            }
            IntFloat { base: rhs.base.wrapping_mul(f).wrapping_add(self.base), pow: self.pow }
        }
    }
}

impl vstd::std_specs::ops::AddSpecImpl for IntFloat {
    open spec fn obeys_add_spec() -> bool {
        true
    }

    open spec fn add_req(self, rhs: IntFloat) -> bool {
        true
    }

    open spec fn add_spec(self, rhs: IntFloat) -> IntFloat {
        self.spec_add(rhs)
    }
}

impl core::ops::Sub for IntFloat {
    type Output = IntFloat;

    /// Adds the negated right-hand operand; see [`IntFloat::spec_sub`].
    fn sub(self, rhs: IntFloat) -> (r: IntFloat) {
        proof {
            lemma_wrap64_cases(-rhs.base);
        }
        let neg_rhs = IntFloat { base: (0 as i64).wrapping_sub(rhs.base), pow: rhs.pow };
        self + neg_rhs
    }
}

impl vstd::std_specs::ops::SubSpecImpl for IntFloat {
    open spec fn obeys_sub_spec() -> bool {
        true
    }

    open spec fn sub_req(self, rhs: IntFloat) -> bool {
        true
    }

    open spec fn sub_spec(self, rhs: IntFloat) -> IntFloat {
        self.spec_sub(rhs)
    }
}

impl core::ops::Mul for IntFloat {
    type Output = IntFloat;

    /// See [`IntFloat::spec_mul`].
    fn mul(self, rhs: IntFloat) -> (r: IntFloat) {
        proof {
            lemma_wrap64_cases(self.pow + rhs.pow);
        }
        IntFloat {
            base: self.base.wrapping_mul(rhs.base),
            pow: self.pow.wrapping_add(rhs.pow),
        }
    }
}

impl vstd::std_specs::ops::MulSpecImpl for IntFloat {
    open spec fn obeys_mul_spec() -> bool {
        true
    }

    open spec fn mul_req(self, rhs: IntFloat) -> bool {
        true
    }

    open spec fn mul_spec(self, rhs: IntFloat) -> IntFloat {
        self.spec_mul(rhs)
    }
}

impl core::ops::Div for IntFloat {
    type Output = IntFloat;

    /// See [`IntFloat::spec_div`]. Requires a nonzero right-hand
    /// significand; `i64::MIN / -1` wraps around.
    fn div(self, rhs: IntFloat) -> (r: IntFloat) {
        proof {
            lemma_wrap64_cases(self.pow - rhs.pow);
        }
        IntFloat {
            base: div_trunc(self.base, rhs.base),
            pow: self.pow.wrapping_sub(rhs.pow),
        }
    }
}

impl vstd::std_specs::ops::DivSpecImpl for IntFloat {
    open spec fn obeys_div_spec() -> bool {
        true
    }

    open spec fn div_req(self, rhs: IntFloat) -> bool {
        rhs.base != 0
    }

    open spec fn div_spec(self, rhs: IntFloat) -> IntFloat {
        self.spec_div(rhs)
    }
}

impl core::ops::Rem for IntFloat {
    type Output = IntFloat;

    /// See [`IntFloat::spec_rem`]. Requires a nonzero right-hand
    /// significand.
    fn rem(self, rhs: IntFloat) -> (r: IntFloat) {
        self - (self / rhs) * rhs
    }
}

impl vstd::std_specs::ops::RemSpecImpl for IntFloat {
    open spec fn obeys_rem_spec() -> bool {
        true
    }

    open spec fn rem_req(self, rhs: IntFloat) -> bool {
        rhs.base != 0
    }

    open spec fn rem_spec(self, rhs: IntFloat) -> IntFloat {
        self.spec_rem(rhs)
    }
}

impl PartialOrd for IntFloat {
    /// Ordering by mathematical value, consistent with equality: the aligned
    /// significands are compared.
    fn partial_cmp(&self, other: &Self) -> (r: Option<core::cmp::Ordering>) {
        let b = self.aligned_bases(other);
        if b.0 < b.1 {
            Some(core::cmp::Ordering::Less)
        } else if b.0 == b.1 {
            Some(core::cmp::Ordering::Equal)
        } else {
            Some(core::cmp::Ordering::Greater)
        }
    }
}

impl vstd::std_specs::cmp::PartialOrdSpecImpl for IntFloat {
    open spec fn obeys_partial_cmp_spec() -> bool {
        true
    }

    open spec fn partial_cmp_spec(&self, other: &Self) -> Option<core::cmp::Ordering> {
        if self.aligned(*other).0 < self.aligned(*other).1 {
            Some(core::cmp::Ordering::Less)
        } else if self.aligned(*other).0 == self.aligned(*other).1 {
            Some(core::cmp::Ordering::Equal)
        } else {
            Some(core::cmp::Ordering::Greater)
        }
    }
}

/// The running sum of a sequence. It deliberately starts from `one`, the
/// multiplicative identity, not from `zero`: every sum is therefore one more
/// than the plain total. This unusual choice is pinned, documented behaviour.
pub open spec fn spec_sum(s: Seq<IntFloat>) -> IntFloat
    decreases s.len(),
{
    if s.len() == 0 {
        IntFloat { base: 1, pow: 0 }
    } else {
        spec_sum(s.drop_last()).spec_add(s.last())
    }
}

impl IntFloat {
    /// In-place addition: the value becomes the sum.
    pub fn add_assign(&mut self, rhs: IntFloat)
        ensures
            *final(self) == old(self).spec_add(rhs),
    {
        *self = *self + rhs;
    }

    /// In-place subtraction: the value becomes the difference.
    pub fn sub_assign(&mut self, rhs: IntFloat)
        ensures
            *final(self) == old(self).spec_sub(rhs),
    {
        *self = *self - rhs;
    }

    /// The value converted to a 64-bit signed integer: `base * 10^(-pow)`
    /// with any fractional digits truncated (not rounded) toward zero.
    /// Wraps around when the scaled-up value exceeds the 64-bit range.
    pub open spec fn spec_to_i64(self) -> i64 {
        if self.pow <= 0 {
            wrap64(self.base * pow10((-self.pow) as nat))
        } else {
            wrap64(trunc_div(self.base as int, pow10(self.pow as nat)))
        }
    }

    /// The value converted to a 64-bit unsigned integer: a negative value
    /// gives zero, any other is converted as for `to_i64` and reinterpreted.
    pub open spec fn spec_to_u64(self) -> u64 {
        if self.base < 0 {
            0
        } else {
            self.spec_to_i64() as u64
        }
    }

    /// Conversion to `i64`; always succeeds. See [`IntFloat::spec_to_i64`].
    pub fn to_i64(&self) -> (r: Option<i64>)
        ensures
            r == Some(self.spec_to_i64()),
    {
        if self.pow <= 0 {
            let f = pow10_wrapped(Self::pow_diff(0, self.pow));
            proof {
                lemma_wrap64_mul_wrapped(self.base as int, pow10((-self.pow) as nat));
            }
            Some(self.base.wrapping_mul(f))
        } else if self.pow >= 19 {
            proof {
                lemma_pow10_monotone(19, self.pow as nat);
                assert(pow10(19) > i64::MAX) by {
                    reveal_with_fuel(pow10, 20);
                }
                lemma_pow10_pos(self.pow as nat);
                vstd::arithmetic::div_mod::lemma_basic_div(
                    vstd::math::abs(self.base as int) as int,
                    vstd::math::abs(pow10(self.pow as nat)) as int,
                );
                lemma_wrap64_id(0);
            }
            Some(0)
        } else {
            let p = pow10_exact(self.pow as u64);
            Some(div_trunc(self.base, p))
        }
    }

    /// Conversion to `u64`; always succeeds. See [`IntFloat::spec_to_u64`].
    pub fn to_u64(&self) -> (r: Option<u64>)
        ensures
            r == Some(self.spec_to_u64()),
    {
        if self.base < 0 {
            Some(0)
        } else {
            let v = self.to_i64();
            Some(v.unwrap() as u64)
        }
    }

    /// Sums a vector of values, starting from `one`; see [`spec_sum`].
    pub fn sum(values: &Vec<IntFloat>) -> (r: IntFloat)
        ensures
            r == spec_sum(values@),
    {
        let mut acc = IntFloat::one();
        proof {
            assert(values@.take(0) =~= Seq::<IntFloat>::empty());
        }
        let mut i: usize = 0;
        while i < values.len()
            invariant
                i <= values.len(),
                acc == spec_sum(values@.take(i as int)),
            decreases values.len() - i,
        {
            acc.add_assign(values[i]);
            proof {
                assert(values@.take(i as int + 1).drop_last() =~= values@.take(i as int));
            }
            i = i + 1;
        }
        proof {
            assert(values@.take(values@.len() as int) =~= values@);
        }
        acc
    }
}

} // verus!
