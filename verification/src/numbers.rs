//! Number-theory predicates and a pseudo-random range pick: parity tests that
//! are correct for negative numbers, trial-division primality, an iterative
//! Fibonacci with 64-bit accumulators, and the Euclidean greatest common
//! divisor on absolute values.

use std::collections::hash_map::DefaultHasher;
use std::collections::hash_map::RandomState;
use std::hash::BuildHasher;
use std::hash::Hasher;
use vstd::arithmetic::div_mod::lemma_fundamental_div_mod;
use vstd::arithmetic::div_mod::lemma_mod_bound;
use vstd::arithmetic::div_mod::lemma_mod_multiples_basic;
use vstd::prelude::*;

verus! {

/// Whether an integer is divisible by two; the remainder is the Euclidean
/// one, so the test is sign-correct for negative numbers.
pub open spec fn even(n: int) -> bool {
    n % 2 == 0
}

/// True exactly when `n` is even, negative numbers included.
pub fn is_even(n: i32) -> (r: bool)
    ensures
        r == even(n as int),
{
    n % 2 == 0
}

/// True exactly when `n` is odd, negative numbers included.
pub fn is_odd(n: i32) -> (r: bool)
    ensures
        r == !even(n as int),
{
    n % 2 != 0
}

/// Primality: at least two, and no integer strictly between one and itself
/// divides it.
pub open spec fn prime(n: int) -> bool {
    n >= 2 && forall|d: int| 2 <= d < n ==> #[trigger] (n % d) != 0
}

/// A product with an even factor is even.
proof fn lemma_even_factor_makes_even(d: int, e: int)
    requires
        d % 2 == 0,
    ensures
        (d * e) % 2 == 0,
{
    lemma_fundamental_div_mod(d, 2);
    let h = d / 2;
    assert(d * e == (h * e) * 2) by (nonlinear_arith)
        requires
            d == 2 * h,
    ;
    lemma_mod_multiples_basic(h * e, 2);
}

/// A divisor of `n` that is at least the first value whose square exceeds
/// `n` has a cofactor below that value.
proof fn lemma_cofactor_below_root(n: int, d: int, e: int, i: int)
    by (nonlinear_arith)
    requires
        n == d * e,
        i <= d,
        3 <= i,
        n < i * i,
        2 <= e,
    ensures
        e < i,
{
}

/// Primality test by trial division: even numbers above two are rejected at
/// once, and odd candidate divisors are tried up to the square root.
pub fn is_prime(n: i32) -> (r: bool)
    ensures
        r == prime(n as int),
{
    if n < 2 {
        return false;
    }
    if n == 2 {
        return true;
    }
    if n % 2 == 0 {
        assert((n as int) % 2 == 0);
        return false;
    }
    let mut i: i32 = 3;
    while i <= n / i
        invariant
            2 < n,
            (n as int) % 2 == 1,
            3 <= i <= 46343,
            i % 2 == 1,
            forall|d: int| 3 <= d < i && d % 2 == 1 ==> #[trigger] ((n as int) % d) != 0,
        decreases 46343 - i,
    {
        proof {
            let q = (n as int) / (i as int);
            lemma_fundamental_div_mod(n as int, i as int);
            lemma_mod_bound(n as int, i as int);
            assert((i as int) * (i as int) <= n as int) by (nonlinear_arith)
                requires
                    (i as int) <= q,
                    n as int == (i as int) * q + (n as int) % (i as int),
                    (n as int) % (i as int) >= 0,
                    3 <= i,
            ;
        }
        if n % i == 0 {
            proof {
                assert(i < n) by (nonlinear_arith)
                    requires
                        3 <= i,
                        i * i <= n,
                ;
            }
            return false;
        }
        proof {
            assert(i <= 46340) by (nonlinear_arith)
                requires
                    3 <= i,
                    i * i <= n <= 0x7fff_ffff,
            ;
        }
        i = i + 2;
    }
    proof {
        lemma_fundamental_div_mod(n as int, i as int);
        lemma_mod_bound(n as int, i as int);
        assert((n as int) < (i as int) * (i as int)) by (nonlinear_arith)
            requires
                (n as int) / (i as int) < i as int,
                n as int == (i as int) * ((n as int) / (i as int)) + (n as int) % (i as int),
                0 <= (n as int) % (i as int) < i as int,
                3 <= i,
                2 < n,
        ;
        let ni = n as int;
        assert forall|d: int| 2 <= d < ni implies #[trigger] (ni % d) != 0 by {
            if ni % d == 0 {
                lemma_fundamental_div_mod(ni, d);
                let e = ni / d;
                assert(ni == d * e);
                assert(e >= 2) by (nonlinear_arith)
                    requires
                        ni == d * e,
                        2 <= d < ni,
                        ni > 2,
                ;
                if d % 2 == 0 {
                    lemma_even_factor_makes_even(d, e);
                } else if d < i {
                    assert(ni % d != 0);
                } else {
                    lemma_cofactor_below_root(ni, d, e, i as int);
                    lemma_mod_multiples_basic(d, e);
                    assert(ni % e == 0);
                    if e % 2 == 0 {
                        lemma_even_factor_makes_even(e, d);
                        assert((e * d) % 2 == 0);
                        assert(ni == e * d) by (nonlinear_arith)
                            requires
                                ni == d * e,
                        ;
                    } else {
                        assert(3 <= e < i && e % 2 == 1);
                    }
                }
            }
        }
    }
    true
}

/// The Fibonacci numbers, zero-indexed: the first two are zero and one, and
/// each later one is the sum of the two before it.
pub open spec fn fib(n: nat) -> nat
    decreases n,
{
    if n == 0 {
        0
    } else if n == 1 {
        1
    } else {
        fib((n - 2) as nat) + fib((n - 1) as nat)
    }
}

/// Two adjacent Fibonacci numbers at once, in a form the interpreter can
/// evaluate in linearly many steps.
spec fn fib_pair(n: nat) -> (nat, nat)
    decreases n,
{
    if n == 0 {
        (0, 1)
    } else {
        let prev = fib_pair((n - 1) as nat);
        (prev.1, prev.0 + prev.1)
    }
}

proof fn lemma_fib_pair(n: nat)
    ensures
        fib_pair(n) == (fib(n), fib(n + 1)),
    decreases n,
{
    if n > 0 {
        lemma_fib_pair((n - 1) as nat);
    }
}

proof fn lemma_fib_monotonic(i: nat, j: nat)
    requires
        i <= j,
    ensures
        fib(i) <= fib(j),
    decreases j - i,
{
    if i < j {
        lemma_fib_monotonic(i, (j - 1) as nat);
        if j >= 2 {
            assert(fib(j) == fib((j - 2) as nat) + fib((j - 1) as nat));
        }
    }
}

/// The largest index whose Fibonacci number still fits in 64 bits. The value
/// is reached in stages so that each unrolling of `fib_pair` stays small.
#[verifier::rlimit(100)]
proof fn lemma_fib_93_fits()
    ensures
        fib(93) <= u64::MAX,
{
    lemma_fib_pair(92);
    assert(fib_pair(20) == (6765nat, 10946nat)) by {
        reveal_with_fuel(fib_pair, 22);
    }
    assert(fib_pair(40) == (102334155nat, 165580141nat)) by {
        reveal_with_fuel(fib_pair, 22);
    }
    assert(fib_pair(60) == (1548008755920nat, 2504730781961nat)) by {
        reveal_with_fuel(fib_pair, 22);
    }
    assert(fib_pair(80) == (23416728348467685nat, 37889062373143906nat)) by {
        reveal_with_fuel(fib_pair, 22);
    }
    assert(fib_pair(92) == (7540113804746346429nat, 12200160415121876738nat)) by {
        reveal_with_fuel(fib_pair, 14);
    }
}

/// The `n`-th Fibonacci number, computed iteratively with 64-bit
/// accumulators; indices past 93 would overflow them.
pub fn fibonacci(n: u32) -> (r: u64)
    requires
        n <= 93,
    ensures
        r == fib(n as nat),
{
    if n <= 1 {
        return n as u64;
    }
    let mut a: u64 = 0;
    let mut b: u64 = 1;
    let mut k: u32 = 2;
    while k <= n
        invariant
            2 <= k <= n + 1,
            n <= 93,
            a == fib((k - 2) as nat),
            b == fib((k - 1) as nat),
        decreases n + 1 - k,
    {
        proof {
            lemma_fib_monotonic(k as nat, 93);
            lemma_fib_93_fits();
        }
        let next = a + b;
        a = b;
        b = next;
        k = k + 1;
    }
    b
}

/// The absolute value of an integer, as a natural number.
pub open spec fn magnitude(x: int) -> nat {
    if x < 0 {
        (-x) as nat
    } else {
        x as nat
    }
}

/// The greatest common divisor by the Euclidean recursion; the divisor of
/// zero and `a` is `a` itself.
pub open spec fn gcd_nat(a: nat, b: nat) -> nat
    decreases b,
{
    if b == 0 {
        a
    } else {
        gcd_nat(b, a % b)
    }
}

/// Greatest common divisor of the absolute values of `a` and `b`; the result
/// is never negative. The two extreme negative inputs are excluded because
/// their absolute value does not fit the type.
pub fn gcd(a: i32, b: i32) -> (r: i32)
    requires
        a != i32::MIN,
        b != i32::MIN,
    ensures
        r >= 0,
        r as nat == gcd_nat(magnitude(a as int), magnitude(b as int)),
{
    let mut x: i32 = if a < 0 { -a } else { a };
    let mut y: i32 = if b < 0 { -b } else { b };
    while y != 0
        invariant
            x >= 0,
            y >= 0,
            gcd_nat(x as nat, y as nat) == gcd_nat(magnitude(a as int), magnitude(b as int)),
        decreases y,
    {
        let t = y;
        y = x % y;
        x = t;
    }
    x
}

/// Relies on std::collections::hash_map::RandomState::new: a hasher factory
/// seeded by the platform, differently for each call; nothing is promised of
/// the value.
#[verifier::external_body]
fn fresh_state() -> RandomState {
    RandomState::new()
}

/// Relies on std::hash::BuildHasher::build_hasher on RandomState: a hasher
/// keyed by the state's seed; nothing is promised of the value.
#[verifier::external_body]
fn hasher_of(state: &RandomState) -> DefaultHasher {
    state.build_hasher()
}

/// A pseudo-random integer in `[min, max)`, drawn from a platform-seeded
/// source; a degenerate range (`min >= max`) returns `min` unchanged rather
/// than failing. The draw is not cryptographically secure and is not
/// reproducible across runs.
pub fn random_between(min: i32, max: i32) -> (r: i32)
    ensures
        min >= max ==> r == min,
        min < max ==> min <= r < max,
{
    if min >= max {
        return min;
    }
    let state = fresh_state();
    let hasher = hasher_of(&state);
    let sample: u64 = hasher.finish();
    let range: u64 = (max as i64 - min as i64) as u64;
    let offset: u64 = sample % range;
    ((min as i64) + (offset as i64)) as i32
}

} // verus!
