//! A dense matrix of occurrence counts, stored as an `ndarray` array.
use vstd::prelude::*;

verus! {

/// A row-major matrix of `u32` counters.
#[verifier::external_body]
pub struct CountMatrix {
    cells: ndarray::Array2<u32>,
}

/// The counters of a matrix, row by row.
pub uninterp spec fn count_cells(m: CountMatrix) -> Seq<Seq<u32>>;

/// The matrix of `rows` rows of `cols` zeros.
pub open spec fn zero_cells(rows: nat, cols: nat) -> Seq<Seq<u32>> {
    Seq::new(rows, |i: int| Seq::new(cols, |j: int| 0u32))
}

/// Relies on ndarray::Array2::zeros: an array of the given shape holding
/// zeros; it panics only where the element count overflows.
#[verifier::external_body]
pub(crate) fn zeroed(rows: usize, cols: usize) -> (r: CountMatrix)
    requires
        rows <= isize::MAX,
        cols <= isize::MAX,
        rows * cols * 4 <= isize::MAX,
    ensures
        count_cells(r) == zero_cells(rows as nat, cols as nat),
{
    CountMatrix { cells: ndarray::Array2::zeros((rows, cols)) }
}

/// Relies on ndarray's `Index<[usize; 2]>`: reads the element at row `i`,
/// column `j`.
#[verifier::external_body]
pub(crate) fn cell_at(m: &CountMatrix, i: usize, j: usize) -> (r: u32)
    requires
        i < count_cells(*m).len(),
        j < count_cells(*m)[i as int].len(),
    ensures
        r == count_cells(*m)[i as int][j as int],
{
    m.cells[[i, j]]
}

/// Relies on ndarray's `IndexMut<[usize; 2]>`: stores `v` at row `i`,
/// column `j`, and touches no other element.
#[verifier::external_body]
pub(crate) fn set_cell(m: &mut CountMatrix, i: usize, j: usize, v: u32)
    requires
        i < count_cells(*old(m)).len(),
        j < count_cells(*old(m))[i as int].len(),
    ensures
        count_cells(*final(m)) == count_cells(*old(m)).update(
            i as int,
            count_cells(*old(m))[i as int].update(j as int, v),
        ),
{
    m.cells[[i, j]] = v;
}

} // verus!
