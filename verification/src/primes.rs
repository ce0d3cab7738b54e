//! Primality testing by trial division, and the search for the smallest
//! prime at or above a requested column count.
//!
//! The sketch keeps a prime number of columns so that the per-row modulo
//! reductions do not share a common divisor with one another. The search
//! is capped at `COLUMN_LIMIT`, itself a prime, so that it always ends.

use vstd::prelude::*;
use vstd::arithmetic::div_mod::lemma_fundamental_div_mod;
use vstd::arithmetic::div_mod::lemma_mod_multiples_basic;

verus! {

/// The largest supported column count. It is prime, so the upward search
/// for a prime that starts at or below it always stops by here.
pub const COLUMN_LIMIT: i64 = 65521;

/// A prime: an integer at least 2 with no divisor strictly between 1 and itself.
pub open spec fn is_prime(p: int) -> bool {
    p >= 2 && forall|d: int| 2 <= d < p ==> #[trigger] (p % d) != 0
}

/// If `x` has no divisor below `bound` and `bound * bound` exceeds `x`,
/// then `x` has no divisor at all: of any factor pair, one member is at
/// most the square root.
proof fn lemma_no_small_divisors(x: int, bound: int)
    requires
        x >= 2,
        bound >= 2,
        bound * bound > x,
        forall|d: int| 2 <= d < bound ==> #[trigger] (x % d) != 0,
    ensures
        is_prime(x),
{
    assert forall|d: int| 2 <= d < x implies #[trigger] (x % d) != 0 by {
        if d >= bound && x % d == 0 {
            let q = x / d;
            lemma_fundamental_div_mod(x, d);
            assert(x == d * q);
            assert(q >= 1) by (nonlinear_arith)
                requires x >= 2 && d >= 2 && x == d * q,
            ;
            assert(q >= 2) by (nonlinear_arith)
                requires x == d * q && q >= 1 && d < x,
            ;
            assert(q < bound) by (nonlinear_arith)
                requires x == d * q && d >= bound && bound >= 2 && q >= 1 && bound * bound > x,
            ;
            lemma_mod_multiples_basic(d, q);
            assert(x % q == 0);
            assert(false);
        }
    }
}

/// The column cap is itself prime.
pub proof fn lemma_column_limit_prime()
    ensures
        is_prime(COLUMN_LIMIT as int),
{
    assert(forall|d: u32| 2 <= d < 256 ==> #[trigger] (65521u32 % d) != 0) by (bit_vector);
    assert forall|d: int| 2 <= d < 256 implies #[trigger] (65521int % d) != 0 by {
        let du = d as u32;
        assert(65521u32 % du != 0);
    }
    lemma_no_small_divisors(65521, 256);
}

/// Trial division up to the square root, as the primality test.
fn trial_is_prime(x: i64) -> (r: bool)
    requires
        1 <= x <= COLUMN_LIMIT,
    ensures
        r == is_prime(x as int),
{
    if x < 2 {
        return false;
    }
    let mut i: i64 = 2;
    loop
        invariant
            2 <= i <= 256,
            2 <= x <= COLUMN_LIMIT,
            forall|d: int| 2 <= d < i ==> #[trigger] ((x as int) % d) != 0,
        ensures
            2 <= i,
            i * i > x,
            forall|d: int| 2 <= d < i ==> #[trigger] ((x as int) % d) != 0,
        decreases 256 - i,
    {
        proof {
            assert(i * i <= 65536) by (nonlinear_arith)
                requires 2 <= i <= 256,
            ;
        }
        if i * i > x {
            break;
        }
        if x % i == 0 {
            assert(i < x) by (nonlinear_arith)
                requires i >= 2 && i * i <= x,
            ;
            return false;
        }
        assert(i < 256) by (nonlinear_arith)
            requires i * i <= x && x <= 65521 && i >= 2,
        ;
        i = i + 1;
    }
    proof {
        lemma_no_small_divisors(x as int, i as int);
    }
    true
}

/// The smallest prime at or above `n`: the result is prime, and nothing
/// prime lies between `n` and it.
pub fn get_prime(n: i64) -> (r: i64)
    requires
        1 <= n <= COLUMN_LIMIT,
    ensures
        n <= r <= COLUMN_LIMIT,
        is_prime(r as int),
        forall|m: int| n <= m < r ==> !is_prime(m),
{
    let mut c: i64 = n;
    loop
        invariant
            1 <= n <= c <= COLUMN_LIMIT,
            forall|m: int| n <= m < c ==> !is_prime(m),
        decreases COLUMN_LIMIT - c,
    {
        if trial_is_prime(c) {
            return c;
        }
        proof {
            lemma_column_limit_prime();
        }
        c = c + 1;
    }
}

/// The smallest prime at or above `n` is unique: two values that are both
/// prime, at or above `n`, and preceded by no prime in that range are equal.
pub proof fn lemma_smallest_prime_unique(n: int, c1: int, c2: int)
    requires
        c1 >= n,
        c2 >= n,
        is_prime(c1),
        is_prime(c2),
        forall|m: int| n <= m < c1 ==> !is_prime(m),
        forall|m: int| n <= m < c2 ==> !is_prime(m),
    ensures
        c1 == c2,
{
    if c1 < c2 {
        assert(!is_prime(c1));
    }
    if c2 < c1 {
        assert(!is_prime(c2));
    }
}

} // verus!
