//! Small utility functions: fixed-width arithmetic, Unicode-aware text
//! helpers, and number-theory predicates with a pseudo-random range pick.
//!
//! Every function is a stateless, terminating computation whose behaviour is
//! stated in its contract.

pub mod arith;
pub mod numbers;
pub mod text;

pub use arith::add;
pub use arith::div;
pub use arith::mul;
pub use arith::sub;
pub use arith::pow;
pub use arith::MathError;
pub use arith::Quotient;
pub use numbers::fibonacci;
pub use numbers::gcd;
pub use numbers::is_even;
pub use numbers::is_odd;
pub use numbers::is_prime;
pub use numbers::random_between;
pub use text::char_count;
pub use text::count_vowels;
pub use text::is_palindrome;
pub use text::reverse;
pub use text::to_lowercase;
pub use text::to_uppercase;
