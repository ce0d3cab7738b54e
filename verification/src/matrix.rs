//! The counter matrix: a two-dimensional ndarray of signed 64-bit counters,
//! held behind a small trusted layer. The spec-level contents of a matrix
//! are a sequence of rows, each a sequence of cell values.
//!
//! ndarray's `ArrayBase` cannot be declared to the verifier directly (its
//! generics carry an outside trait bound), so the array lives in a private
//! field of an opaque struct and is reached only through the wrappers below.

use vstd::prelude::*;

verus! {

/// A `rows x columns` matrix of `i64` counters, backed by ndarray. Opaque
/// to the verifier; its contents are spoken of through `grid_of`.
#[verifier::external_body]
pub struct CounterGrid {
    inner: ndarray::Array2<i64>,
}

/// What a counter matrix holds: its rows, each row the sequence of its
/// cell values in column order.
pub uninterp spec fn grid_of(g: CounterGrid) -> Seq<Seq<i64>>;

/// Relies on ndarray's `Array2::zeros`: the new array has exactly the
/// requested shape and every element is zero. `zeros` panics only when the
/// element count overflows `isize`, which the bound below rules out.
#[verifier::external_body]
pub(crate) fn grid_zeros(rows: usize, cols: usize) -> (g: CounterGrid)
    requires
        rows * cols <= 0x7fff_ffff,
    ensures
        grid_of(g).len() == rows,
        forall|i: int| 0 <= i < rows ==> #[trigger] grid_of(g)[i].len() == cols,
        forall|i: int, j: int|
            0 <= i < rows && 0 <= j < cols ==> #[trigger] grid_of(g)[i][j] == 0,
{
    CounterGrid { inner: ndarray::Array2::<i64>::zeros((rows, cols)) }
}

/// Relies on ndarray's `Index` impl for `[usize; 2]`: indexing reads the
/// element at the given row and column.
#[verifier::external_body]
pub(crate) fn grid_get(g: &CounterGrid, i: usize, j: usize) -> (v: i64)
    requires
        i < grid_of(*g).len(),
        j < grid_of(*g)[i as int].len(),
    ensures
        v == grid_of(*g)[i as int][j as int],
{
    g.inner[[i, j]]
}

/// Relies on ndarray's `IndexMut` impl for `[usize; 2]`: assigning through
/// it replaces the element at the given row and column and no other.
#[verifier::external_body]
pub(crate) fn grid_set(g: &mut CounterGrid, i: usize, j: usize, v: i64)
    requires
        i < grid_of(*old(g)).len(),
        j < grid_of(*old(g))[i as int].len(),
    ensures
        grid_of(*final(g)) == grid_of(*old(g)).update(
            i as int,
            grid_of(*old(g))[i as int].update(j as int, v),
        ),
{
    g.inner[[i, j]] = v;
}

} // verus!
