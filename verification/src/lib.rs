//! A Count-Min Sketch: a fixed-size probabilistic frequency estimator.
//!
//! The sketch keeps a `rows x columns` matrix of signed counters. Each row
//! owns one seeded hash function; an insert adds the amount to one slot per
//! row, and a query reads the minimum of those slots, which never falls
//! below the true total inserted for the key.

pub mod hashing;
pub mod matrix;
pub mod primes;
pub mod sketch;

pub use primes::get_prime;
pub use sketch::CountMinSketch;
pub use sketch::SketchError;
