//! The algebraic laws of the decimal type, proved once and for all from the
//! specifications of its operations.

use crate::arith::{
    lemma_wrap64_add, lemma_wrap64_id, lemma_wrap64_mul_add, pow10, wrap64,
};
use crate::decimal::IntFloat;
use crate::render::{
    dec_digits, lemma_dec_digits_props, lemma_strip_all_iff, lemma_strip_count_le, print_bytes,
    strip_count, stripped,
};
use vstd::arithmetic::mul::lemma_mul_unary_negation;
use vstd::math::abs;
use vstd::prelude::*;

verus! {

/// A rendered value shows a decimal point exactly when its scale is at least
/// one and some fractional digit survives: that is, when the significand's
/// magnitude is not a multiple of `10^pow`. A value with scale at most zero
/// never shows one.
pub proof fn lemma_print_decimal_point(v: IntFloat)
    ensures
        v.pow <= 0 ==> !v.spec_print().contains('.'),
        v.pow >= 1 ==> (v.spec_print().contains('.') <==> (abs(v.base as int) as int) % pow10(
            v.pow as nat,
        ) != 0),
{
    let bytes = print_bytes(v);
    let chars = v.spec_print();
    if v.pow <= 0 {
        let w = wrap64(v.base * pow10((-v.pow) as nat)) as int;
        if w < 0 {
            lemma_dec_digits_props((-w) as nat);
        } else {
            lemma_dec_digits_props(w as nat);
        }
        assert forall|i: int| 0 <= i < chars.len() implies chars[i] != '.' by {
            assert(bytes[i] != 46);
        }
    } else {
        let m = abs(v.base as int);
        lemma_strip_count_le(m, v.pow as nat);
        lemma_strip_all_iff(m, v.pow as nat);
        let m2 = stripped(m, v.pow as nat);
        let p2 = (v.pow - strip_count(m, v.pow as nat)) as nat;
        if p2 == 0 {
            lemma_dec_digits_props(m2);
            assert forall|i: int| 0 <= i < chars.len() implies chars[i] != '.' by {
                assert(bytes[i] != 46);
            }
        } else {
            lemma_dec_digits_props((m2 as int / pow10(p2)) as nat);
            let sign_len: int = if v.base < 0 {
                1int
            } else {
                0int
            };
            let idx = sign_len + dec_digits((m2 as int / pow10(p2)) as nat).len();
            assert(bytes[idx] == 46);
            assert(chars[idx] == '.');
            assert(chars.contains('.'));
        }
    }
}

/// Equality is independent of scale: multiplying the significand by `10^k`
/// while raising the scale by `k` yields an equal value, in both directions.
pub proof fn lemma_eq_scale_independent(s: i64, p: i64, k: nat)
    requires
        p + k <= i64::MAX,
    ensures
        (IntFloat { base: s, pow: p }).eq_value(
            IntFloat { base: wrap64(s * pow10(k)), pow: (p + k) as i64 },
        ),
        (IntFloat { base: wrap64(s * pow10(k)), pow: (p + k) as i64 }).eq_value(
            IntFloat { base: s, pow: p },
        ),
{
    if k == 0 {
        assert(s * pow10(0) == s);
        lemma_wrap64_id(s as int);
    }
}

/// Equality by value is symmetric.
pub proof fn lemma_eq_value_symmetric(a: IntFloat, b: IntFloat)
    ensures
        a.eq_value(b) == b.eq_value(a),
{
    if a.pow == b.pow {
        assert(a.base * pow10(0) == a.base);
        assert(b.base * pow10(0) == b.base);
        lemma_wrap64_id(a.base as int);
        lemma_wrap64_id(b.base as int);
    }
}

/// Subtraction is the inverse of addition: `(a + b) - b` equals `a` by
/// value, for every pair of values, overflow and all.
pub proof fn lemma_add_sub_cancel(a: IntFloat, b: IntFloat)
    ensures
        a.spec_add(b).spec_sub(b).eq_value(a),
{
    let x = a.spec_add(b);
    let y = x.spec_sub(b);
    if b.pow > a.pow {
        let f = pow10((b.pow - a.pow) as nat);
        let z = a.base * f + b.base;
        // y.base == wrap64(wrap64(-b.base) * 1 + wrap64(z))
        lemma_wrap64_mul_add(-(b.base as int), pow10(0), wrap64(z) as int);
        lemma_wrap64_add(z, -(b.base as int));
        assert(y.base == wrap64(a.base * f));
    } else {
        let f = pow10((a.pow - b.pow) as nat);
        let z = b.base * f + a.base;
        // y.base == wrap64(wrap64(-b.base) * f + wrap64(z))
        lemma_wrap64_mul_add(-(b.base as int), f, wrap64(z) as int);
        lemma_wrap64_add(z, -(b.base as int) * f);
        lemma_mul_unary_negation(b.base as int, f);
        assert(y.base == wrap64(a.base as int)) by {
            assert(-(b.base as int) * f + z == a.base as int);
        }
        lemma_wrap64_id(a.base as int);
        assert(a.base * pow10(0) == a.base);
    }
}

/// Ordering is consistent with equality: the comparison reports `Equal`
/// exactly for values that are equal by value.
pub proof fn lemma_ordering_consistent_with_eq(a: IntFloat, b: IntFloat)
    ensures
        vstd::std_specs::cmp::PartialOrdSpec::partial_cmp_spec(&a, &b) == Some(
            core::cmp::Ordering::Equal,
        ) <==> a.eq_value(b),
{
}

/// The remainder identity: `a` equals `(a / b) * b + a % b` by value,
/// under this type's truncating division, for every nonzero divisor.
pub proof fn lemma_rem_identity(a: IntFloat, b: IntFloat)
    requires
        b.base != 0,
    ensures
        a.eq_value(a.spec_div(b).spec_mul(b).spec_add(a.spec_rem(b))),
{
    let q = a.spec_div(b);
    let m = q.spec_mul(b);
    lemma_wrap64_add(a.pow - b.pow, b.pow as int);
    lemma_wrap64_id(a.pow as int);
    assert(m.pow == a.pow);
    let r = a.spec_rem(b);
    // r.base == wrap64(wrap64(-m.base) * 1 + a.base)
    lemma_wrap64_mul_add(-(m.base as int), pow10(0), a.base as int);
    assert(r.base == wrap64(a.base - m.base));
    let s = m.spec_add(r);
    // s.base == wrap64(r.base * 1 + m.base)
    lemma_wrap64_add(a.base - m.base, m.base as int);
    assert(r.base * pow10(0) == r.base);
    lemma_wrap64_id(a.base as int);
    assert(s.base == a.base);
    assert(s.base * pow10(0) == s.base);
}

} // verus!
