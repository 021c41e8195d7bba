//! Exact arbitrary-precision polynomial and rational arithmetic, Chebyshev
//! polynomial construction, and a divisibility scanner that tests one big
//! integer per candidate against all primes in a bounded range.

pub mod bigint;
pub mod chebyshev;
pub mod evaluator;
pub mod fraction;
pub mod poly;
pub mod scanner;
