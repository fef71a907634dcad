//! Fixed-width integer arithmetic: the sum, difference and product wrap on
//! overflow per 32-bit two's-complement semantics, the power function wraps at
//! every multiplication, and division rejects a zero divisor and otherwise
//! returns the quotient exactly, as a numerator/denominator pair.

use vstd::prelude::*;

verus! {

/// The wrapped 32-bit sum, as vstd's model of `i32::wrapping_add` states it.
pub open spec fn wrapped_add(a: i32, b: i32) -> i32 {
    vstd::wrapping::i32_specs::wrapping_add(a, b)
}

/// The wrapped 32-bit difference.
pub open spec fn wrapped_sub(a: i32, b: i32) -> i32 {
    vstd::wrapping::i32_specs::wrapping_sub(a, b)
}

/// The wrapped 32-bit product.
pub open spec fn wrapped_mul(a: i32, b: i32) -> i32 {
    vstd::wrapping::i32_specs::wrapping_mul(a, b)
}

/// Sum of `a` and `b`, wrapping on overflow.
pub fn add(a: i32, b: i32) -> (r: i32)
    ensures
        r == wrapped_add(a, b),
        i32::MIN <= a + b <= i32::MAX ==> r == a + b,
{
    a.wrapping_add(b)
}

/// Difference of `a` and `b`, wrapping on overflow.
pub fn sub(a: i32, b: i32) -> (r: i32)
    ensures
        r == wrapped_sub(a, b),
        i32::MIN <= a - b <= i32::MAX ==> r == a - b,
{
    a.wrapping_sub(b)
}

/// Product of `a` and `b`, wrapping on overflow.
pub fn mul(a: i32, b: i32) -> (r: i32)
    ensures
        r == wrapped_mul(a, b),
        i32::MIN <= a * b <= i32::MAX ==> r == a * b,
{
    a.wrapping_mul(b)
}

/// Subtracting an addend from a wrapped sum gives the other addend back:
/// wraparound loses no information.
pub proof fn lemma_sub_undoes_add(a: i32, b: i32)
    ensures
        wrapped_sub(wrapped_add(a, b), b) == a,
{
}

/// The single error of this library: a division was asked for with a zero
/// divisor.
#[derive(Clone, Copy, Debug, PartialEq, Eq, Structural)]
pub enum MathError {
    DivisionByZero,
}

impl MathError {
    /// A human-readable description of the error.
    pub fn message(&self) -> &'static str {
        match self {
            MathError::DivisionByZero => "cannot divide by zero",
        }
    }
}

/// An exact quotient: the dividend over a divisor known to be non-zero.
/// Callers that want the value as a floating-point number divide the two
/// fields themselves; the pair carries the quotient without rounding.
#[derive(Clone, Copy, Debug, PartialEq, Eq, Structural)]
pub struct Quotient {
    pub numerator: i32,
    pub denominator: i32,
}

impl Quotient {
    /// A quotient never holds a zero denominator.
    pub open spec fn wf(self) -> bool {
        self.denominator != 0
    }
}

/// Quotient of `a` over `b`. Fails exactly when the divisor is zero; any
/// other divisor is accepted and the pair returned is `a` over `b` itself.
pub fn div(a: i32, b: i32) -> (r: Result<Quotient, MathError>)
    ensures
        b == 0 <==> r is Err,
        r is Err ==> r->Err_0 == MathError::DivisionByZero,
        r is Ok ==> r->Ok_0 == (Quotient { numerator: a, denominator: b }) && r->Ok_0.wf(),
{
    if b == 0 {
        Err(MathError::DivisionByZero)
    } else {
        Ok(Quotient { numerator: a, denominator: b })
    }
}

/// `base` raised to `exponent` with every multiplication wrapped, so the
/// result follows 32-bit two's-complement semantics; a zero exponent yields
/// one for any base.
pub open spec fn wrapped_pow(base: i32, exponent: nat) -> i32
    decreases exponent,
{
    if exponent == 0 {
        1
    } else {
        wrapped_mul(wrapped_pow(base, (exponent - 1) as nat), base)
    }
}

/// Power with a non-negative exponent, wrapping on overflow.
pub fn pow(base: i32, exponent: u32) -> (r: i32)
    ensures
        r == wrapped_pow(base, exponent as nat),
        exponent == 0 ==> r == 1,
{
    let mut acc: i32 = 1;
    let mut done: u32 = 0;
    while done < exponent
        invariant
            done <= exponent,
            acc == wrapped_pow(base, done as nat),
        decreases exponent - done,
    {
        acc = acc.wrapping_mul(base);
        done = done + 1;
    }
    acc
}

} // verus!
