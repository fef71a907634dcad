use utilfns::{add, div, mul, pow, sub, MathError, Quotient};

fn as_f64(q: Quotient) -> f64 {
    q.numerator as f64 / q.denominator as f64
}

#[test]
fn test_add() {
    assert_eq!(add(2, 3), 5);
    assert_eq!(add(-1, 1), 0);
}

#[test]
fn test_sub() {
    assert_eq!(sub(5, 3), 2);
    assert_eq!(sub(1, 5), -4);
}

#[test]
fn test_mul() {
    assert_eq!(mul(3, 4), 12);
    assert_eq!(mul(-2, 3), -6);
}

#[test]
fn test_div() {
    assert!(as_f64(div(10, 2).unwrap()) - 5.0 < f64::EPSILON);
    assert!(as_f64(div(7, 3).unwrap()) - 2.3333333333333335 < f64::EPSILON);
    assert!(div(5, 0).is_err());
}

#[test]
fn test_pow() {
    assert_eq!(pow(2, 3), 8);
    assert_eq!(pow(5, 2), 25);
}

#[test]
fn lib_test_add() {
    assert_eq!(add(2, 3), 5);
    assert_eq!(add(-1, 1), 0);
}

#[test]
fn lib_test_sub() {
    assert_eq!(sub(5, 3), 2);
    assert_eq!(sub(1, 5), -4);
}

#[test]
fn lib_test_mul() {
    assert_eq!(mul(3, 4), 12);
    assert_eq!(mul(-2, 3), -6);
}

#[test]
fn lib_test_div() {
    assert!(as_f64(div(10, 2).unwrap()) - 5.0 < f64::EPSILON);
    assert!(as_f64(div(7, 3).unwrap()) - 2.3333333333333335 < f64::EPSILON);
    assert!(div(5, 0).is_err());
}

#[test]
fn lib_test_pow() {
    assert_eq!(pow(2, 3), 8);
    assert_eq!(pow(5, 2), 25);
}

#[test]
fn add_sub_round_trip() {
    for &(a, b) in &[(2, 3), (-7, 11), (i32::MAX, 5), (i32::MIN, -1), (0, i32::MAX)] {
        assert_eq!(sub(add(a, b), b), a);
    }
}

#[test]
fn arithmetic_wraps_on_overflow() {
    assert_eq!(add(i32::MAX, 1), i32::MIN);
    assert_eq!(sub(i32::MIN, 1), i32::MAX);
    assert_eq!(mul(i32::MAX, 2), -2);
    assert_eq!(pow(2, 31), i32::MIN);
}

#[test]
fn div_exact_quotient() {
    let q = div(7, 3).unwrap();
    assert_eq!(q.numerator, 7);
    assert_eq!(q.denominator, 3);
    assert_eq!(as_f64(q), 2.3333333333333335);
    let half = div(-1, 2).unwrap();
    assert_eq!(as_f64(half), -0.5);
}

#[test]
fn div_by_zero_error() {
    for a in [-5, 0, 1, i32::MAX, i32::MIN] {
        let e = div(a, 0).unwrap_err();
        assert_eq!(e, MathError::DivisionByZero);
        assert_eq!(e.message(), "cannot divide by zero");
    }
}

#[test]
fn pow_of_exponent_zero_is_one() {
    for base in [-17, -1, 0, 1, 2, i32::MAX, i32::MIN] {
        assert_eq!(pow(base, 0), 1);
    }
    assert_eq!(pow(2, 10), 1024);
}
