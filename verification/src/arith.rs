//! Integer arithmetic underlying the decimal type: powers of ten,
//! 64-bit two's-complement wraparound, and truncating division.

use vstd::arithmetic::div_mod::{
    lemma_add_mod_noop, lemma_mod_add_multiples_vanish, lemma_mod_multiples_basic,
    lemma_mod_sub_multiples_vanish, lemma_mod_twice, lemma_mul_mod_noop_left, lemma_small_mod,
};
use vstd::math::abs;
use vstd::prelude::*;

verus! {

/// The modulus of 64-bit wraparound arithmetic, `2^64`.
pub open spec fn m64() -> int {
    0x1_0000_0000_0000_0000
}

/// `10^k`, as an unbounded integer.
pub open spec fn pow10(k: nat) -> int
    decreases k,
{
    if k == 0 {
        1
    } else {
        10 * pow10((k - 1) as nat)
    }
}

/// The 64-bit two's-complement value congruent to `x` modulo `2^64`.
pub open spec fn wrap64(x: int) -> i64 {
    vstd::wrapping::i64_specs::signed_crop(x)
}

/// Integer division truncating toward zero, the semantics of `/` on the
/// significand.
pub open spec fn trunc_div(x: int, y: int) -> int {
    if (x < 0) != (y < 0) {
        -((abs(x) / abs(y)) as int)
    } else {
        (abs(x) / abs(y)) as int
    }
}

/// Powers of ten are positive.
pub proof fn lemma_pow10_pos(k: nat)
    ensures
        pow10(k) >= 1,
    decreases k,
{
    if k > 0 {
        lemma_pow10_pos((k - 1) as nat);
    }
}

/// `wrap64(x)` is congruent to `x` modulo `2^64`.
pub proof fn lemma_wrap64_mod(x: int)
    ensures
        (wrap64(x) as int) % m64() == x % m64(),
{
    lemma_mod_twice(x, m64());
    if x % m64() > i64::MAX {
        lemma_mod_sub_multiples_vanish(x % m64(), m64());
    }
}

/// Congruent integers wrap to the same 64-bit value.
pub proof fn lemma_wrap64_congruent(x: int, y: int)
    requires
        x % m64() == y % m64(),
    ensures
        wrap64(x) == wrap64(y),
{
}

/// Wrapping before an addition does not change the wrapped sum.
pub proof fn lemma_wrap64_add(x: int, y: int)
    ensures
        wrap64(wrap64(x) + y) == wrap64(x + y),
{
    lemma_wrap64_mod(x);
    lemma_add_mod_noop(wrap64(x) as int, y, m64());
    lemma_add_mod_noop(x, y, m64());
    lemma_wrap64_congruent(wrap64(x) + y, x + y);
}

/// Wrapping before a multiplication does not change the wrapped product.
pub proof fn lemma_wrap64_mul(x: int, y: int)
    ensures
        wrap64(wrap64(x) * y) == wrap64(x * y),
{
    lemma_wrap64_mod(x);
    lemma_mul_mod_noop_left(wrap64(x) as int, y, m64());
    lemma_mul_mod_noop_left(x, y, m64());
    lemma_wrap64_congruent(wrap64(x) * y, x * y);
}

/// Multiplying by a wrapped factor gives the wrapped product.
pub proof fn lemma_wrap64_mul_wrapped(x: int, p: int)
    ensures
        wrap64(x * wrap64(p)) == wrap64(x * p),
{
    vstd::arithmetic::mul::lemma_mul_is_commutative(x, wrap64(p) as int);
    lemma_wrap64_mul(p, x);
    vstd::arithmetic::mul::lemma_mul_is_commutative(p, x);
}

/// Scaling by a wrapped power of ten and then adding, all in wrapping
/// arithmetic, equals the wrapped exact combination.
pub proof fn lemma_wrap64_scale_add(x: int, p: int, y: int)
    ensures
        wrap64(wrap64(x * wrap64(p)) + y) == wrap64(x * p + y),
{
    lemma_wrap64_mul_wrapped(x, p);
    lemma_wrap64_add(x * p, y);
}

/// A wrapped first factor inside a sum can be unwrapped: the wrapped total is
/// unchanged.
pub proof fn lemma_wrap64_mul_add(x: int, f: int, z: int)
    ensures
        wrap64(wrap64(x) * f + z) == wrap64(x * f + z),
{
    lemma_wrap64_mod(x);
    lemma_mul_mod_noop_left(wrap64(x) as int, f, m64());
    lemma_mul_mod_noop_left(x, f, m64());
    lemma_add_mod_noop(wrap64(x) * f, z, m64());
    lemma_add_mod_noop(x * f, z, m64());
    lemma_wrap64_congruent(wrap64(x) * f + z, x * f + z);
}

/// A value already in the 64-bit range wraps to itself.
pub proof fn lemma_wrap64_id(x: int)
    requires
        i64::MIN <= x <= i64::MAX,
    ensures
        wrap64(x) == x,
{
    if x >= 0 {
        lemma_small_mod(x as nat, m64() as nat);
    } else {
        lemma_mod_add_multiples_vanish(x, m64());
        lemma_small_mod((x + m64()) as nat, m64() as nat);
    }
}

/// Every `10^j` is a multiple of `2^j`.
proof fn lemma_pow10_multiple_of_pow2(j: nat)
    ensures
        pow10(j) % (vstd::arithmetic::power2::pow2(j) as int) == 0,
    decreases j,
{
    vstd::arithmetic::power2::lemma_pow2_pos(j);
    if j == 0 {
        assert(vstd::arithmetic::power2::pow2(0) == 1) by {
            vstd::arithmetic::power2::lemma2_to64();
        }
    } else {
        lemma_pow10_multiple_of_pow2((j - 1) as nat);
        vstd::arithmetic::power2::lemma_pow2_pos((j - 1) as nat);
        vstd::arithmetic::power2::lemma_pow2_unfold(j);
        let p = vstd::arithmetic::power2::pow2((j - 1) as nat) as int;
        let q = pow10((j - 1) as nat) / p;
        vstd::arithmetic::div_mod::lemma_fundamental_div_mod(pow10((j - 1) as nat), p);
        assert(pow10(j) == (2 * p) * (5 * q)) by (nonlinear_arith)
            requires
                pow10(j) == 10 * pow10((j - 1) as nat),
                pow10((j - 1) as nat) == p * q,
        ;
        lemma_mod_multiples_basic(5 * q, 2 * p);
    }
}

/// For a value at most one modulus away from the 64-bit range, wrapping is a
/// single shift by `2^64`.
pub proof fn lemma_wrap64_cases(x: int)
    requires
        i64::MIN - m64() <= x <= i64::MAX + m64(),
    ensures
        wrap64(x) == (if x > i64::MAX {
            x - m64()
        } else if x < i64::MIN {
            x + m64()
        } else {
            x
        }),
{
    if x > i64::MAX {
        lemma_mod_sub_multiples_vanish(x, m64());
        lemma_wrap64_congruent(x, x - m64());
        lemma_wrap64_id(x - m64());
    } else if x < i64::MIN {
        lemma_mod_add_multiples_vanish(x, m64());
        lemma_wrap64_congruent(x, x + m64());
        lemma_wrap64_id(x + m64());
    } else {
        lemma_wrap64_id(x);
    }
}

/// Powers of ten grow with the exponent.
pub proof fn lemma_pow10_monotone(a: nat, b: nat)
    requires
        a <= b,
    ensures
        pow10(a) <= pow10(b),
    decreases b,
{
    if a < b {
        lemma_pow10_monotone(a, (b - 1) as nat);
        lemma_pow10_pos((b - 1) as nat);
    }
}

/// `10^k` exactly, for exponents small enough that it fits.
pub fn pow10_exact(k: u64) -> (r: i64)
    requires
        k <= 18,
    ensures
        r as int == pow10(k as nat),
        r >= 1,
{
    proof {
        reveal_with_fuel(pow10, 20);
    }
    let mut r: i64 = 1;
    let mut i: u64 = 0;
    while i < k
        invariant
            i <= k <= 18,
            r as int == pow10(i as nat),
            r >= 1,
        decreases k - i,
    {
        proof {
            lemma_pow10_monotone(i as nat, 17);
            reveal_with_fuel(pow10, 20);
        }
        r = r * 10;
        i = i + 1;
    }
    r
}

/// `10^k` exactly as an unsigned 64-bit value, for exponents that fit.
pub fn pow10_exact_u64(k: u64) -> (r: u64)
    requires
        k <= 19,
    ensures
        r as int == pow10(k as nat),
        r >= 1,
{
    proof {
        reveal_with_fuel(pow10, 21);
    }
    let mut r: u64 = 1;
    let mut i: u64 = 0;
    while i < k
        invariant
            i <= k <= 19,
            r as int == pow10(i as nat),
            r >= 1,
        decreases k - i,
    {
        proof {
            lemma_pow10_monotone(i as nat, 18);
            reveal_with_fuel(pow10, 21);
        }
        r = r * 10;
        i = i + 1;
    }
    r
}

/// From `10^64` on, every power of ten is a multiple of `2^64`.
pub proof fn lemma_pow10_mod64_zero(k: nat)
    requires
        k >= 64,
    ensures
        pow10(k) % m64() == 0,
    decreases k,
{
    if k == 64 {
        lemma_pow10_multiple_of_pow2(64);
        vstd::arithmetic::power2::lemma2_to64_rest();
    } else {
        lemma_pow10_mod64_zero((k - 1) as nat);
        let q = pow10((k - 1) as nat) / m64();
        vstd::arithmetic::div_mod::lemma_fundamental_div_mod(pow10((k - 1) as nat), m64());
        assert(pow10(k) == m64() * (10 * q)) by {
            vstd::arithmetic::mul::lemma_mul_is_associative(10, m64(), q);
            vstd::arithmetic::mul::lemma_mul_is_commutative(10, m64());
            vstd::arithmetic::mul::lemma_mul_is_associative(m64(), 10, q);
        }
        lemma_mod_multiples_basic(10 * q, m64());
    }
}

/// `10^k` reduced to a wrapped 64-bit value.
pub fn pow10_wrapped(k: u64) -> (r: i64)
    ensures
        r == wrap64(pow10(k as nat)),
{
    if k >= 64 {
        proof {
            lemma_pow10_mod64_zero(k as nat);
        }
        0
    } else {
        let mut r: i64 = 1;
        let mut i: u64 = 0;
        proof {
            lemma_wrap64_id(1);
        }
        while i < k
            invariant
                i <= k,
                r == wrap64(pow10(i as nat)),
            decreases k - i,
        {
            proof {
                lemma_wrap64_mul(pow10(i as nat), 10);
                vstd::arithmetic::mul::lemma_mul_is_commutative(pow10(i as nat), 10);
                vstd::arithmetic::mul::lemma_mul_is_commutative(wrap64(pow10(i as nat)) as int, 10);
            }
            r = r.wrapping_mul(10);
            i = i + 1;
        }
        r
    }
}

/// Division of 64-bit significands: truncates toward zero, and the one
/// quotient that exceeds the range (`i64::MIN / -1`) wraps around.
pub fn div_trunc(a: i64, b: i64) -> (q: i64)
    requires
        b != 0,
    ensures
        q == wrap64(trunc_div(a as int, b as int)),
{
    let mag_a: u64 = if a < 0 {
        (-(a as i128)) as u64
    } else {
        a as u64
    };
    let mag_b: u64 = if b < 0 {
        (-(b as i128)) as u64
    } else {
        b as u64
    };
    let mag_q: u64 = mag_a / mag_b;
    proof {
        vstd::arithmetic::div_mod::lemma_div_nonincreasing(mag_a as int, mag_b as int);
        assert(mag_q <= mag_a);
    }
    let neg = (a < 0) != (b < 0);
    if neg {
        if mag_q == 0x8000_0000_0000_0000u64 {
            proof {
                lemma_wrap64_id(i64::MIN as int);
            }
            i64::MIN
        } else {
            proof {
                lemma_wrap64_id(-(mag_q as int));
            }
            -(mag_q as i64)
        }
    } else {
        if mag_q == 0x8000_0000_0000_0000u64 {
            proof {
                lemma_small_mod(0x8000_0000_0000_0000 as nat, m64() as nat);
            }
            i64::MIN
        } else {
            proof {
                lemma_wrap64_id(mag_q as int);
            }
            mag_q as i64
        }
    }
}

} // verus!
