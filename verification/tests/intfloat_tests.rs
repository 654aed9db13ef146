use std::collections::hash_map::DefaultHasher;
use std::hash::{Hash, Hasher};

use intfloat::{IntFloat, ParseError};

#[test]
fn test_new() {
    let this = IntFloat::new(534, 2);
    assert_eq!(this.base, 534);
    assert_eq!(this.pow, 2);
}

#[test]
fn test_print() {
    let this = IntFloat::new(534, 2);
    assert!(this.print().contains('.'));
    let this = IntFloat::new(534, 0);
    assert!(!this.print().contains('.'));
    let this = IntFloat::new(534, -2);
    assert!(!this.print().contains('.'));
}

#[test]
fn test_add() {
    let this = IntFloat::new(534, -2);
    let that = IntFloat::new(1068, -2);
    assert_eq!(this + this, that);

    let this = IntFloat::new(534, -2);
    let that = IntFloat::new(1068, -2);
    assert_eq!(this + this, that);

    let this = IntFloat::new(534, 0);
    let this_too = IntFloat::new(100, 2);
    let that = IntFloat::new(53500, 2);
    assert_eq!(this + this_too, that);
}

#[test]
fn test_add_assign() {
    let mut this = IntFloat::new(534, -2);
    this.add_assign(this);
    let that = IntFloat::new(1068, -2);
    assert_eq!(this, that);
}

#[test]
fn test_sub() {
    let this = IntFloat::new(534, -2);
    let that = IntFloat::new(1068, -2);
    assert_eq!(that - this, this);

    let this = IntFloat::new(534, -2);
    let that = IntFloat::new(1068, -2);
    assert_eq!(that - this, this);

    let this = IntFloat::new(534, 0);
    let this_too = IntFloat::new(100, 2);
    let that = IntFloat::new(53500, 2);
    assert_eq!(that - this, this_too);
}

#[test]
fn test_sub_assign() {
    let this = IntFloat::new(534, -2);
    let mut that = IntFloat::new(1068, -2);
    that.sub_assign(this);
    assert_eq!(this, that);
}

#[test]
fn test_mul() {
    let this = IntFloat::new(500, -2);
    let that = IntFloat::new(250000, -4);
    assert_eq!(this * this, that);

    let this = IntFloat::new(500, 2);
    let that = IntFloat::new(250000, 4);
    assert_eq!(this * this, that);
}

#[test]
fn test_div() {
    let this = IntFloat::new(500, -2);
    let that = IntFloat::new(250000, -4);
    assert_eq!(that / this, this);

    let this = IntFloat::new(500, 2);
    let that = IntFloat::new(250000, 4);
    assert_eq!(that / this, this);
}

#[test]
fn test_rem() {
    let this = IntFloat::new(499, -2);
    let that = IntFloat::new(250000, -4);
    let such = IntFloat::new(1, -4);
    assert_eq!(that - (that / this) * this, such);

    let this = IntFloat::new(499, 2);
    let that = IntFloat::new(250000, 4);
    let such = IntFloat::new(1, 4);
    assert_eq!(that - (that / this) * this, such);
}

#[test]
fn test_to_int() {
    let this = IntFloat::new(499, -2);
    assert_eq!(this.to_i64().unwrap(), 49900);
    assert_eq!(this.to_u64().unwrap(), 49900);

    let this = IntFloat::new(499, 2);
    assert_eq!(this.to_i64().unwrap(), 4);
    assert_eq!(this.to_u64().unwrap(), 4);
}

#[test]
fn test_partial_eq() {
    let this = IntFloat::new(50000, 2);
    let that = IntFloat::new(500, 0);
    let such = IntFloat::new(5, -2);
    assert_eq!(this, that);
    assert_eq!(such, that);
}

#[test]
fn test_rem_operator_identity() {
    let a = IntFloat::new(250000, -4);
    let b = IntFloat::new(499, -2);
    assert_eq!((a / b) * b + a % b, a);

    let a = IntFloat::new(7, 1);
    let b = IntFloat::new(3, 0);
    assert_eq!((a / b) * b + a % b, a);
}

#[test]
fn test_add_then_sub_returns_left_operand() {
    let a = IntFloat::new(534, 0);
    let b = IntFloat::new(100, 2);
    assert_eq!((a + b) - b, a);

    let a = IntFloat::new(-7, 3);
    let b = IntFloat::new(123456, -1);
    assert_eq!((a + b) - b, a);
}

#[test]
fn test_eq_scale_independent() {
    let a = IntFloat::new(5, 0);
    assert_eq!(a, IntFloat::new(50, 1));
    assert_eq!(IntFloat::new(50, 1), a);
    assert_eq!(a, IntFloat::new(5000, 3));
    assert_ne!(a, IntFloat::new(5001, 3));
    assert_ne!(a, IntFloat::new(5, 1));
}

#[test]
fn test_ordering_is_by_value() {
    let small = IntFloat::new(499, 2);
    let large = IntFloat::new(5, 0);
    assert!(small < large);
    assert!(large > small);
    assert!(IntFloat::new(500, 2) <= IntFloat::new(5, 0));
    assert!(IntFloat::new(500, 2) >= IntFloat::new(5, 0));
    assert_eq!(
        IntFloat::new(500, 2).partial_cmp(&IntFloat::new(5, 0)),
        Some(std::cmp::Ordering::Equal)
    );
    assert!(IntFloat::new(-1, 0) < IntFloat::new(1, 5));
}

#[test]
fn test_zero_one_identities() {
    assert_eq!(IntFloat::zero(), IntFloat::new(0, 0));
    assert_eq!(IntFloat::one(), IntFloat::new(1, 0));
    assert_eq!(IntFloat::default(), IntFloat::zero());
    assert!(IntFloat::zero().is_zero());
    assert!(!IntFloat::one().is_zero());
    // is_zero looks at the significand alone, whatever the scale.
    assert!(IntFloat::new(0, 7).is_zero());
    assert!(IntFloat::new(0, -7).is_zero());
}

#[test]
fn test_print_exact_strings() {
    assert_eq!(IntFloat::new(534, 2).print(), "5.34");
    assert_eq!(IntFloat::new(-534, 2).print(), "-5.34");
    assert_eq!(IntFloat::new(534, 0).print(), "534");
    assert_eq!(IntFloat::new(534, -2).print(), "53400");
    assert_eq!(IntFloat::new(-534, -2).print(), "-53400");
    // Trailing fraction zeros are dropped, and a bare point never shows.
    assert_eq!(IntFloat::new(500, 2).print(), "5");
    assert_eq!(IntFloat::new(105, 1).print(), "10.5");
    assert_eq!(IntFloat::new(10050, 3).print(), "10.05");
    assert_eq!(IntFloat::new(0, 3).print(), "0");
    assert_eq!(IntFloat::new(5, 4).print(), "0.0005");
    assert_eq!(IntFloat::new(0, 0).print(), "0");
}

#[test]
fn test_to_int_truncates_toward_zero() {
    assert_eq!(IntFloat::new(-499, 2).to_i64().unwrap(), -4);
    assert_eq!(IntFloat::new(999, 3).to_i64().unwrap(), 0);
    assert_eq!(IntFloat::new(-499, -2).to_i64().unwrap(), -49900);
    // A negative value converts to unsigned zero.
    assert_eq!(IntFloat::new(-499, 2).to_u64().unwrap(), 0);
    assert_eq!(IntFloat::new(-499, -2).to_u64().unwrap(), 0);
}

#[test]
fn test_hash_is_representation_dependent() {
    // (50000, 2) and (500, 0) are equal by value, yet hash over the raw
    // pair: equal values are not promised equal hashes. This pins the
    // documented deviation from the usual hash/equality contract.
    let this = IntFloat::new(50000, 2);
    let that = IntFloat::new(500, 0);
    assert_eq!(this, that);
    let mut h1 = DefaultHasher::new();
    this.hash(&mut h1);
    let mut h2 = DefaultHasher::new();
    that.hash(&mut h2);
    assert_ne!(h1.finish(), h2.finish());

    // Identical representations do hash alike.
    let mut h3 = DefaultHasher::new();
    IntFloat::new(50000, 2).hash(&mut h3);
    assert_eq!(h1.finish(), h3.finish());
}

#[test]
fn test_from_str_radix() {
    let parsed = IntFloat::from_str_radix("123", 10).unwrap();
    assert_eq!(parsed, IntFloat::new(123, 0));
    assert_eq!(parsed.pow, 0);
    assert_eq!(IntFloat::from_str_radix("-123", 10).unwrap(), IntFloat::new(-123, 0));
    assert_eq!(IntFloat::from_str_radix("+123", 10).unwrap(), IntFloat::new(123, 0));
    assert_eq!(IntFloat::from_str_radix("ff", 16).unwrap(), IntFloat::new(255, 0));
    assert_eq!(IntFloat::from_str_radix("FF", 16).unwrap(), IntFloat::new(255, 0));
    assert_eq!(IntFloat::from_str_radix("-101", 2).unwrap(), IntFloat::new(-5, 0));
    assert_eq!(IntFloat::from_str_radix("z", 36).unwrap(), IntFloat::new(35, 0));
}

#[test]
fn test_from_str_radix_errors() {
    assert_eq!(IntFloat::from_str_radix("abc", 10), Err(ParseError::InvalidDigit));
    assert_eq!(IntFloat::from_str_radix("", 10), Err(ParseError::Empty));
    assert_eq!(IntFloat::from_str_radix("+", 10), Err(ParseError::InvalidDigit));
    assert_eq!(IntFloat::from_str_radix("-", 10), Err(ParseError::InvalidDigit));
    assert_eq!(IntFloat::from_str_radix("12.5", 10), Err(ParseError::InvalidDigit));
    assert_eq!(
        IntFloat::from_str_radix("99999999999999999999", 10),
        Err(ParseError::PosOverflow)
    );
    assert_eq!(
        IntFloat::from_str_radix("-99999999999999999999", 10),
        Err(ParseError::NegOverflow)
    );
}

#[test]
fn test_sum_starts_from_one() {
    // Summation deliberately starts from the multiplicative identity, so
    // every sum is one more than the plain total.
    assert_eq!(IntFloat::sum(&vec![]), IntFloat::one());
    let values = vec![IntFloat::new(534, -2), IntFloat::new(534, -2)];
    assert_eq!(IntFloat::sum(&values), IntFloat::new(106801, 0));
    assert_ne!(IntFloat::sum(&values), IntFloat::new(1068, -2));
}

#[test]
fn test_division_truncates() {
    // 2.50000 / 0.7 = 3.57...; the significand quotient truncates.
    let a = IntFloat::new(250000, 5);
    let b = IntFloat::new(7, 1);
    assert_eq!(a / b, IntFloat::new(35714, 4));
    // Signs: truncation is toward zero.
    let a = IntFloat::new(-7, 0);
    let b = IntFloat::new(2, 0);
    assert_eq!(a / b, IntFloat::new(-3, 0));
}
