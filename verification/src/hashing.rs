//! The per-row hash family: one 64-bit hash primitive, told apart across
//! rows by a distinct seed per row, and the slot it selects in a row.

use vstd::prelude::*;

verus! {

/// The seed of row 0; row `i` hashes with seed `ROW_SEED_BASE + i`, so the
/// rows draw from the same primitive but never share a seed.
pub const ROW_SEED_BASE: u64 = 114514;

/// What fasthash's `xx::hash64_with_seed` returns on the eight
/// little-endian bytes of a key: a function of the key and seed alone.
pub uninterp spec fn xx_hash64_of(key: i64, seed: u64) -> u64;

/// Relies on fasthash's `xx::hash64_with_seed`: the xxHash digest is
/// computed from the input bytes and the seed and from nothing else.
#[verifier::external_body]
pub(crate) fn xx_hash64(key: i64, seed: u64) -> (r: u64)
    ensures
        r == xx_hash64_of(key, seed),
{
    fasthash::xx::hash64_with_seed(key.to_le_bytes(), seed)
}

/// The column that `key` selects in row `row` of a sketch with `cols`
/// columns: the row-seeded hash of the key, reduced modulo the column count.
pub open spec fn slot_of(key: i64, row: int, cols: int) -> int
    recommends
        0 <= row,
        1 <= cols,
{
    (xx_hash64_of(key, (ROW_SEED_BASE + row) as u64) as int) % cols
}

/// A slot is always in range of the row it indexes.
pub proof fn lemma_slot_in_range(key: i64, row: int, cols: int)
    requires
        1 <= cols,
    ensures
        0 <= slot_of(key, row, cols) < cols,
{
}

} // verus!
