//! The Count-Min Sketch itself: construction with a prime column count,
//! hashed increment on insert, and minimum-read on query, together with the
//! laws the sketch obeys (one-sided overestimation, monotonicity, and
//! deterministic replay).

use vstd::prelude::*;
use crate::hashing::ROW_SEED_BASE;
use crate::hashing::lemma_slot_in_range;
use crate::hashing::slot_of;
use crate::hashing::xx_hash64;
use crate::matrix::CounterGrid;
use crate::matrix::grid_get;
use crate::matrix::grid_of;
use crate::matrix::grid_set;
use crate::matrix::grid_zeros;
use crate::primes::COLUMN_LIMIT;
use crate::primes::get_prime;
use crate::primes::is_prime;

verus! {

/// The largest supported row count; with the column cap it keeps the
/// counter matrix comfortably inside the sizes ndarray can allocate.
pub const ROW_LIMIT: u64 = 4096;

/// The one construction-time error: a dimension was zero.
#[derive(Clone, Copy, Debug, PartialEq, Eq, Structural)]
pub enum SketchError {
    InvalidDimension,
}

/// A fixed-size probabilistic frequency estimator: a `rows x columns`
/// matrix of signed counters, addressed per row by a seeded hash. Inserts
/// only ever increase counters; a query reads the minimum across rows.
pub struct CountMinSketch {
    num_row: u64,
    num_col: u64,
    counters: CounterGrid,
}

impl CountMinSketch {
    /// The number of hash rows, fixed at construction.
    pub closed spec fn rows(self) -> int {
        self.num_row as int
    }

    /// The number of counter slots per row, fixed at construction.
    pub closed spec fn cols(self) -> int {
        self.num_col as int
    }

    /// The counters: one sequence per row, one cell per column.
    pub closed spec fn grid(self) -> Seq<Seq<i64>> {
        grid_of(self.counters)
    }

    /// Well-formed: dimensions within the supported caps, and the matrix
    /// shaped exactly `rows x columns`.
    pub open spec fn wf(self) -> bool {
        &&& 1 <= self.rows() <= ROW_LIMIT
        &&& 1 <= self.cols() <= COLUMN_LIMIT
        &&& self.grid().len() == self.rows()
        &&& forall|i: int| 0 <= i < self.rows() ==> (#[trigger] self.grid()[i]).len() == self.cols()
    }

    /// The column that `key` selects in row `i`.
    pub open spec fn slot(self, key: i64, i: int) -> int {
        slot_of(key, i, self.cols())
    }

    /// The counter that row `i` holds for `key`.
    pub open spec fn row_read(self, key: i64, i: int) -> i64 {
        self.grid()[i][self.slot(key, i)]
    }

    /// The minimum among the first `n` row reads for `key`.
    pub open spec fn estimate_upto(self, key: i64, n: int) -> int
        recommends
            1 <= n <= self.rows(),
        decreases n,
    {
        if n <= 1 {
            self.row_read(key, 0) as int
        } else {
            vstd::math::min(self.estimate_upto(key, n - 1), self.row_read(key, n - 1) as int)
        }
    }

    /// The sketch's estimate for `key`: the least counter among the slots
    /// that `key` selects, one per row.
    pub open spec fn estimate(self, key: i64) -> int {
        self.estimate_upto(key, self.rows())
    }

    /// Every counter is zero, as right after construction.
    pub open spec fn fresh(self) -> bool {
        forall|i: int, j: int|
            0 <= i < self.rows() && 0 <= j < self.cols() ==> #[trigger] self.grid()[i][j] == 0
    }

    /// How one insert of `amount` under `key` changes a sketch: dimensions
    /// stand, in every row the key's slot grows by exactly `amount`, and
    /// every other cell is untouched.
    pub open spec fn inserted(pre: Self, post: Self, key: i64, amount: i64) -> bool {
        &&& post.rows() == pre.rows()
        &&& post.cols() == pre.cols()
        &&& post.grid().len() == pre.grid().len()
        &&& forall|i: int|
            0 <= i < pre.rows() ==> (#[trigger] post.grid()[i]).len() == pre.grid()[i].len()
        &&& forall|i: int|
            0 <= i < pre.rows() ==> #[trigger] post.row_read(key, i) as int == pre.row_read(
                key,
                i,
            ) + amount
        &&& forall|i: int, j: int|
            0 <= i < pre.rows() && 0 <= j < pre.cols() && j != pre.slot(key, i)
                ==> #[trigger] post.grid()[i][j] == pre.grid()[i][j]
    }

    /// Builds a sketch with `num_row` hash rows and the smallest prime at
    /// or above `num_col` columns, every counter zero. A zero dimension is
    /// rejected with `InvalidDimension`; nothing else is.
    pub fn new(num_row: u64, num_col: u64) -> (r: Result<CountMinSketch, SketchError>)
        requires
            num_row <= ROW_LIMIT,
            num_col <= COLUMN_LIMIT,
        ensures
            r is Err <==> (num_row == 0 || num_col == 0),
            r is Err ==> r == Err::<CountMinSketch, SketchError>(SketchError::InvalidDimension),
            r matches Ok(s) ==> {
                &&& s.wf()
                &&& s.fresh()
                &&& s.rows() == num_row
                &&& num_col <= s.cols()
                &&& is_prime(s.cols())
                &&& forall|m: int| num_col <= m < s.cols() ==> !is_prime(m)
            },
    {
        if num_row == 0 || num_col == 0 {
            return Err(SketchError::InvalidDimension);
        }
        let col = get_prime(num_col as i64);
        proof {
            assert((num_row as int) * (col as int) <= 0x7fff_ffff) by (nonlinear_arith)
                requires 1 <= num_row <= 4096 && 1 <= col <= 65521,
            ;
        }
        let counters = grid_zeros(num_row as usize, col as usize);
        Ok(CountMinSketch { num_row, num_col: col as u64, counters })
    }

    /// Adds `amount` to the one slot that `key` selects in every row.
    /// Amounts are non-negative: the sketch has no decrement. The headroom
    /// precondition keeps every counter within `i64`.
    #[verifier::loop_isolation(false)]
    pub fn insert(&mut self, key: i64, amount: i64)
        requires
            old(self).wf(),
            amount >= 0,
            forall|i: int, j: int|
                0 <= i < old(self).rows() && 0 <= j < old(self).cols()
                    ==> #[trigger] old(self).grid()[i][j] + amount <= i64::MAX,
        ensures
            final(self).wf(),
            Self::inserted(*old(self), *final(self), key, amount),
    {
        let ghost pre = *self;
        let rows = self.num_row as usize;
        let mut i: usize = 0;
        while i < rows
            invariant
                i <= rows,
                self.num_row == pre.num_row,
                self.num_col == pre.num_col,
                self.grid().len() == pre.grid().len(),
                forall|r: int|
                    0 <= r < pre.rows() ==> (#[trigger] self.grid()[r]).len() == pre.grid()[r].len(),
                forall|r: int|
                    0 <= r < i ==> #[trigger] self.row_read(key, r) as int == pre.row_read(
                        key,
                        r,
                    ) + amount,
                forall|r: int, c: int|
                    0 <= r < pre.rows() && 0 <= c < pre.cols() && (r >= i || c != pre.slot(key, r))
                        ==> #[trigger] self.grid()[r][c] == pre.grid()[r][c],
            decreases rows - i,
        {
            let h = xx_hash64(key, ROW_SEED_BASE + i as u64);
            let s = (h % self.num_col) as usize;
            assert(s as int == pre.slot(key, i as int));
            let cur = grid_get(&self.counters, i, s);
            let next = cur + amount;
            let ghost before = *self;
            grid_set(&mut self.counters, i, s, next);
            proof {
                let gi = i as int;
                assert(self.grid() == before.grid().update(
                    gi,
                    before.grid()[gi].update(s as int, next),
                ));
                assert(self.grid()[gi][s as int] == next);
                assert(before.grid()[gi][s as int] == pre.grid()[gi][s as int]);
                assert(self.row_read(key, gi) as int == pre.row_read(key, gi) + amount);
                assert(forall|r: int| 0 <= r < pre.rows() && r != gi
                    ==> #[trigger] self.grid()[r] == before.grid()[r]);
                assert forall|r: int| 0 <= r <= gi implies #[trigger] self.row_read(key, r)
                    as int == pre.row_read(key, r) + amount by {
                    if r < gi {
                        assert(before.row_read(key, r) as int == pre.row_read(key, r) + amount);
                        assert(self.grid()[r] == before.grid()[r]);
                    }
                }
            }
            i = i + 1;
        }
    }

    /// Reads the minimum, across rows, of the counter that `key` selects
    /// in each row: the tightest upper bound the sketch has on the total
    /// amount inserted under `key`.
    #[verifier::loop_isolation(false)]
    pub fn query(&self, key: i64) -> (r: i64)
        requires
            self.wf(),
        ensures
            r as int == self.estimate(key),
    {
        let h0 = xx_hash64(key, ROW_SEED_BASE);
        let s0 = (h0 % self.num_col) as usize;
        let mut result = grid_get(&self.counters, 0, s0);
        let rows = self.num_row as usize;
        let mut i: usize = 1;
        while i < rows
            invariant
                1 <= i <= rows,
                result as int == self.estimate_upto(key, i as int),
            decreases rows - i,
        {
            let h = xx_hash64(key, ROW_SEED_BASE + i as u64);
            let s = (h % self.num_col) as usize;
            let v = grid_get(&self.counters, i, s);
            if v < result {
                result = v;
            }
            i = i + 1;
        }
        result
    }

    /// The number of hash rows.
    pub fn num_rows(&self) -> (r: u64)
        ensures
            r as int == self.rows(),
    {
        self.num_row
    }

    /// The number of counter slots per row.
    pub fn num_columns(&self) -> (r: u64)
        ensures
            r as int == self.cols(),
    {
        self.num_col
    }
}

/// Every amount in a history of `(key, amount)` inserts is non-negative.
pub open spec fn amounts_nonneg(hist: Seq<(i64, i64)>) -> bool {
    forall|k: int| 0 <= k < hist.len() ==> (#[trigger] hist[k]).1 >= 0
}

/// Every insert in the history is under the one key `key`.
pub open spec fn single_key(hist: Seq<(i64, i64)>, key: i64) -> bool {
    forall|k: int| 0 <= k < hist.len() ==> (#[trigger] hist[k]).0 == key
}

/// The total amount that the inserts of `hist`, replayed in order on a
/// sketch with `cols` columns, put into the cell at row `i`, column `j`.
pub open spec fn cell_total(hist: Seq<(i64, i64)>, cols: int, i: int, j: int) -> int
    decreases hist.len(),
{
    if hist.len() == 0 {
        0
    } else {
        cell_total(hist.drop_last(), cols, i, j) + if slot_of(hist.last().0, i, cols) == j {
            hist.last().1 as int
        } else {
            0
        }
    }
}

/// The true total inserted under `key` by the inserts of `hist`.
pub open spec fn key_total(hist: Seq<(i64, i64)>, key: i64) -> int
    decreases hist.len(),
{
    if hist.len() == 0 {
        0
    } else {
        key_total(hist.drop_last(), key) + if hist.last().0 == key {
            hist.last().1 as int
        } else {
            0
        }
    }
}

impl CountMinSketch {
    /// The sketch is exactly the replay of `hist` on a fresh sketch: every
    /// cell holds the total that the inserts of `hist` put into it.
    pub open spec fn tracks(self, hist: Seq<(i64, i64)>) -> bool {
        &&& self.wf()
        &&& forall|i: int, j: int|
            0 <= i < self.rows() && 0 <= j < self.cols()
                ==> #[trigger] self.grid()[i][j] == cell_total(hist, self.cols(), i, j)
    }
}

/// A freshly constructed sketch is the replay of the empty history.
pub proof fn lemma_fresh_tracks_empty(s: CountMinSketch)
    requires
        s.wf(),
        s.fresh(),
    ensures
        s.tracks(Seq::<(i64, i64)>::empty()),
{
}

/// Replay extends: a sketch that is the replay of `hist`, after one insert
/// of `amount` under `key`, is the replay of `hist` with that insert
/// appended.
pub proof fn lemma_insert_tracks(
    pre: CountMinSketch,
    post: CountMinSketch,
    key: i64,
    amount: i64,
    hist: Seq<(i64, i64)>,
)
    requires
        pre.tracks(hist),
        CountMinSketch::inserted(pre, post, key, amount),
    ensures
        post.tracks(hist.push((key, amount))),
{
    lemma_inserted_wf(pre, post, key, amount);
    let h2 = hist.push((key, amount));
    assert(h2.drop_last() =~= hist);
    assert(h2.last() == (key, amount));
    assert forall|i: int, j: int| 0 <= i < post.rows() && 0 <= j < post.cols()
        implies #[trigger] post.grid()[i][j] == cell_total(h2, post.cols(), i, j) by {
        lemma_slot_in_range(key, i, pre.cols());
        if j == pre.slot(key, i) {
            assert(post.row_read(key, i) as int == pre.row_read(key, i) + amount);
            assert(pre.grid()[i][j] == cell_total(hist, pre.cols(), i, j));
        } else {
            assert(post.grid()[i][j] == pre.grid()[i][j]);
            assert(pre.grid()[i][j] == cell_total(hist, pre.cols(), i, j));
        }
    }
}

/// Non-negative inserts leave no cell total negative.
proof fn lemma_cell_total_nonneg(hist: Seq<(i64, i64)>, cols: int, i: int, j: int)
    requires
        amounts_nonneg(hist),
    ensures
        cell_total(hist, cols, i, j) >= 0,
    decreases hist.len(),
{
    if hist.len() > 0 {
        assert(amounts_nonneg(hist.drop_last()));
        lemma_cell_total_nonneg(hist.drop_last(), cols, i, j);
        assert(hist.last().1 >= 0);
    }
}

/// In any row, the cell that `key` selects collects at least the total
/// inserted under `key`: every insert of `key` lands there, and colliding
/// inserts only add.
proof fn lemma_cell_total_ge_key_total(hist: Seq<(i64, i64)>, cols: int, i: int, key: i64)
    requires
        amounts_nonneg(hist),
    ensures
        cell_total(hist, cols, i, slot_of(key, i, cols)) >= key_total(hist, key),
    decreases hist.len(),
{
    if hist.len() > 0 {
        assert(amounts_nonneg(hist.drop_last()));
        lemma_cell_total_ge_key_total(hist.drop_last(), cols, i, key);
        assert(hist.last().1 >= 0);
    }
}

/// When the history holds one key only, the cell that key selects collects
/// exactly its total: nothing else ever landed there.
proof fn lemma_cell_total_single_key(hist: Seq<(i64, i64)>, cols: int, i: int, key: i64)
    requires
        single_key(hist, key),
    ensures
        cell_total(hist, cols, i, slot_of(key, i, cols)) == key_total(hist, key),
    decreases hist.len(),
{
    if hist.len() > 0 {
        assert(single_key(hist.drop_last(), key));
        lemma_cell_total_single_key(hist.drop_last(), cols, i, key);
        assert(hist.last().0 == key);
    }
}

/// The estimate over the first `n` rows is at least `b` when every one of
/// those row reads is.
proof fn lemma_estimate_upto_lower(s: CountMinSketch, key: i64, n: int, b: int)
    requires
        1 <= n <= s.rows(),
        forall|i: int| 0 <= i < n ==> #[trigger] s.row_read(key, i) as int >= b,
    ensures
        s.estimate_upto(key, n) >= b,
    decreases n,
{
    if n > 1 {
        lemma_estimate_upto_lower(s, key, n - 1, b);
    }
}

/// The estimate over the first `n` rows is at most any one of those row
/// reads: it is a minimum.
proof fn lemma_estimate_upto_upper(s: CountMinSketch, key: i64, n: int, i: int)
    requires
        0 <= i < n <= s.rows(),
    ensures
        s.estimate_upto(key, n) <= s.row_read(key, i) as int,
    decreases n,
{
    if i < n - 1 {
        lemma_estimate_upto_upper(s, key, n - 1, i);
    }
}

/// After any sequence of non-negative inserts, every query is non-negative.
pub proof fn lemma_estimate_nonneg(s: CountMinSketch, hist: Seq<(i64, i64)>, key: i64)
    requires
        s.tracks(hist),
        amounts_nonneg(hist),
    ensures
        s.estimate(key) >= 0,
{
    assert forall|i: int| 0 <= i < s.rows() implies #[trigger] s.row_read(key, i) as int >= 0 by {
        lemma_slot_in_range(key, i, s.cols());
        lemma_cell_total_nonneg(hist, s.cols(), i, s.slot(key, i));
    }
    lemma_estimate_upto_lower(s, key, s.rows(), 0);
}

/// One-sided error: after any sequence of non-negative inserts, the
/// estimate for a key never falls below the total inserted under that key.
pub proof fn lemma_estimate_overestimates(s: CountMinSketch, hist: Seq<(i64, i64)>, key: i64)
    requires
        s.tracks(hist),
        amounts_nonneg(hist),
    ensures
        s.estimate(key) >= key_total(hist, key),
{
    assert forall|i: int| 0 <= i < s.rows() implies #[trigger] s.row_read(key, i) as int
        >= key_total(hist, key) by {
        lemma_slot_in_range(key, i, s.cols());
        lemma_cell_total_ge_key_total(hist, s.cols(), i, key);
    }
    lemma_estimate_upto_lower(s, key, s.rows(), key_total(hist, key));
}

/// Exactness without collisions: when only one key was ever inserted, the
/// estimate for that key equals its true total.
pub proof fn lemma_single_key_exact(s: CountMinSketch, hist: Seq<(i64, i64)>, key: i64)
    requires
        s.tracks(hist),
        single_key(hist, key),
    ensures
        s.estimate(key) == key_total(hist, key),
{
    let t = key_total(hist, key);
    assert forall|i: int| 0 <= i < s.rows() implies #[trigger] s.row_read(key, i) as int == t by {
        lemma_slot_in_range(key, i, s.cols());
        lemma_cell_total_single_key(hist, s.cols(), i, key);
    }
    lemma_estimate_upto_lower(s, key, s.rows(), t);
    lemma_estimate_upto_upper(s, key, s.rows(), 0);
}

/// A well-formed sketch stays well-formed across an insert.
pub proof fn lemma_inserted_wf(pre: CountMinSketch, post: CountMinSketch, key: i64, amount: i64)
    requires
        pre.wf(),
        CountMinSketch::inserted(pre, post, key, amount),
    ensures
        post.wf(),
{
}

/// When every row read of `s2` is at least the matching row read of `s1`,
/// the same order holds of the estimates over the first `n` rows.
proof fn lemma_estimate_upto_pointwise(s1: CountMinSketch, s2: CountMinSketch, key: i64, n: int)
    requires
        1 <= n <= s1.rows(),
        s1.rows() == s2.rows(),
        forall|i: int|
            0 <= i < n ==> #[trigger] s2.row_read(key, i) as int >= s1.row_read(key, i) as int,
    ensures
        s2.estimate_upto(key, n) >= s1.estimate_upto(key, n),
    decreases n,
{
    if n > 1 {
        lemma_estimate_upto_pointwise(s1, s2, key, n - 1);
    }
}

/// Monotonicity: a non-negative insert, under any key, never lowers the
/// estimate of any key.
pub proof fn lemma_insert_monotone(
    pre: CountMinSketch,
    post: CountMinSketch,
    key: i64,
    amount: i64,
    queried: i64,
)
    requires
        pre.wf(),
        CountMinSketch::inserted(pre, post, key, amount),
        amount >= 0,
    ensures
        post.estimate(queried) >= pre.estimate(queried),
{
    assert forall|i: int| 0 <= i < pre.rows() implies #[trigger] post.row_read(queried, i) as int
        >= pre.row_read(queried, i) as int by {
        lemma_slot_in_range(queried, i, pre.cols());
        if pre.slot(queried, i) == pre.slot(key, i) {
            assert(post.row_read(key, i) as int == pre.row_read(key, i) + amount);
        } else {
            assert(post.grid()[i][pre.slot(queried, i)] == pre.grid()[i][pre.slot(queried, i)]);
        }
    }
    lemma_estimate_upto_pointwise(pre, post, queried, pre.rows());
}

/// Two sketches with the same dimensions and the same counters give the
/// same estimate for every key.
pub proof fn lemma_same_grid_same_estimate(s1: CountMinSketch, s2: CountMinSketch, key: i64)
    requires
        s1.wf(),
        s2.wf(),
        s1.rows() == s2.rows(),
        s1.cols() == s2.cols(),
        forall|i: int, j: int|
            0 <= i < s1.rows() && 0 <= j < s1.cols() ==> #[trigger] s1.grid()[i][j]
                == s2.grid()[i][j],
    ensures
        s1.estimate(key) == s2.estimate(key),
{
    assert forall|i: int| 0 <= i < s1.rows() implies #[trigger] s2.row_read(key, i) as int
        == s1.row_read(key, i) as int by {
        lemma_slot_in_range(key, i, s1.cols());
    }
    lemma_estimate_upto_pointwise(s1, s2, key, s1.rows());
    lemma_estimate_upto_pointwise(s2, s1, key, s1.rows());
}

/// Determinism of replay: one insert, applied to two sketches that agree in
/// dimensions and counters, leaves them agreeing in dimensions and counters.
pub proof fn lemma_inserted_deterministic(
    pre1: CountMinSketch,
    post1: CountMinSketch,
    pre2: CountMinSketch,
    post2: CountMinSketch,
    key: i64,
    amount: i64,
)
    requires
        pre1.wf(),
        pre2.wf(),
        pre1.rows() == pre2.rows(),
        pre1.cols() == pre2.cols(),
        forall|i: int, j: int|
            0 <= i < pre1.rows() && 0 <= j < pre1.cols() ==> #[trigger] pre1.grid()[i][j]
                == pre2.grid()[i][j],
        CountMinSketch::inserted(pre1, post1, key, amount),
        CountMinSketch::inserted(pre2, post2, key, amount),
    ensures
        post1.rows() == post2.rows(),
        post1.cols() == post2.cols(),
        forall|i: int, j: int|
            0 <= i < post1.rows() && 0 <= j < post1.cols() ==> #[trigger] post1.grid()[i][j]
                == post2.grid()[i][j],
{
    assert forall|i: int, j: int| 0 <= i < post1.rows() && 0 <= j < post1.cols()
        implies #[trigger] post1.grid()[i][j] == post2.grid()[i][j] by {
        lemma_slot_in_range(key, i, pre1.cols());
        if j == pre1.slot(key, i) {
            assert(post1.row_read(key, i) as int == pre1.row_read(key, i) + amount);
            assert(post2.row_read(key, i) as int == pre2.row_read(key, i) + amount);
        } else {
            assert(post1.grid()[i][j] == pre1.grid()[i][j]);
            assert(post2.grid()[i][j] == pre2.grid()[i][j]);
        }
    }
}

/// Determinism of construction: two fresh sketches with equal dimensions
/// agree in every counter.
pub proof fn lemma_fresh_deterministic(s1: CountMinSketch, s2: CountMinSketch)
    requires
        s1.wf(),
        s2.wf(),
        s1.fresh(),
        s2.fresh(),
        s1.rows() == s2.rows(),
        s1.cols() == s2.cols(),
    ensures
        forall|i: int, j: int|
            0 <= i < s1.rows() && 0 <= j < s1.cols() ==> #[trigger] s1.grid()[i][j]
                == s2.grid()[i][j],
{
}

} // verus!
