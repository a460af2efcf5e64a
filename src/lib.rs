//! Sorting and numeric compute kernels for a host environment.
//!
//! The sort bridge orders opaque values through a caller-supplied comparison
//! callback and always returns a permutation of its input, whatever the
//! callback replies. The numeric kernels are pure and deterministic: a
//! seeded Monte Carlo sampler, a row-major raster builder, a prime sieve, a
//! shape check for dense matrix products, a wrapping Fibonacci sequence and
//! a rolling mixing hash.

pub mod fibonacci;
pub mod hash;
pub mod matrix;
pub mod primes;
pub mod raster;
pub mod sampling;
pub mod sort;
pub mod strings;

pub use fibonacci::fibonacci_sequence;
pub use hash::hash_computation;
pub use matrix::product_len;
pub use primes::prime_sieve;
pub use raster::fill_raster;
pub use sampling::{monte_carlo_inside, point_in_disc, Lcg};
pub use sort::{comparison_of, sort_by_callback, CallbackReply, Comparison};
pub use strings::{compare_text, sort_strings};
