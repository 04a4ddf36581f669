//! Trusted surface over `ndarray`'s 2D arrays.
//!
//! The matrices of this crate are held in `ndarray::Array2` values. Verus
//! cannot take `ArrayBase`'s declaration (its `RawData` bound), so each array
//! sits in an opaque struct of this crate. The uninterpreted functions
//! [`opt_cells`] and [`dense_cells`] name the contents as a sequence of rows,
//! and the wrappers below state what each `ndarray` operation the crate calls
//! does to that sequence, as the crate's documentation and source show.

use vstd::prelude::*;

verus! {

/// An optional-cell 2D matrix: absence is an explicit marker distinct from
/// zero. Holds an `ndarray::Array2<Option<i32>>`; the field is public so that
/// unverified callers can build and inspect the matrix directly.
#[verifier::external_body]
#[derive(Debug)]
pub struct OptArray {
    pub inner: ndarray::Array2<Option<i32>>,
}

/// A dense 2D matrix: the numeric zero stands for absence. Holds an
/// `ndarray::Array2<i32>`; the field is public so that unverified callers can
/// build and inspect the matrix directly.
#[verifier::external_body]
#[derive(Debug)]
pub struct DenseArray {
    pub inner: ndarray::Array2<i32>,
}

/// The contents of an optional-cell matrix, row by row.
pub uninterp spec fn opt_cells(m: OptArray) -> Seq<Seq<Option<i32>>>;

/// The contents of a dense matrix, row by row.
pub uninterp spec fn dense_cells(m: DenseArray) -> Seq<Seq<i32>>;

/// A `rows × cols` grid filled with one value.
pub open spec fn grid_of<A>(rows: nat, cols: nat, v: A) -> Seq<Seq<A>> {
    Seq::new(rows, |i: int| Seq::new(cols, |j: int| v))
}

/// Relies on `ndarray::Array::from_elem`: a `rows × cols` array of copies of
/// the element, which panics only if the product of the non-zero axis lengths
/// overflows `isize` — so each axis must fit on its own, for the case where
/// the other is zero.
#[verifier::external_body]
pub(crate) fn opt_new(rows: usize, cols: usize) -> (r: OptArray)
    requires
        rows * cols <= isize::MAX,
        rows <= isize::MAX,
        cols <= isize::MAX,
    ensures
        opt_cells(r) == grid_of(rows as nat, cols as nat, None::<i32>),
{
    OptArray { inner: ndarray::Array::from_elem((rows, cols), None) }
}

/// Relies on 2D `ndarray` indexing: the element at row `i`, column `j`.
#[verifier::external_body]
pub(crate) fn opt_get(m: &OptArray, i: usize, j: usize) -> (r: Option<i32>)
    requires
        i < opt_cells(*m).len(),
        j < opt_cells(*m)[i as int].len(),
    ensures
        r == opt_cells(*m)[i as int][j as int],
{
    m.inner[[i, j]]
}

/// Relies on 2D `ndarray` index assignment: replaces the element at row `i`,
/// column `j` and moves no other cell.
#[verifier::external_body]
pub(crate) fn opt_set(m: &mut OptArray, i: usize, j: usize, v: Option<i32>)
    requires
        i < opt_cells(*old(m)).len(),
        j < opt_cells(*old(m))[i as int].len(),
    ensures
        opt_cells(*final(m)) == opt_cells(*old(m)).update(
            i as int,
            opt_cells(*old(m))[i as int].update(j as int, v),
        ),
{
    m.inner[[i, j]] = v;
}

/// Relies on `ndarray`'s `shape`: `[rows, cols]` for a 2D array.
#[verifier::external_body]
pub(crate) fn opt_nrows(m: &OptArray) -> (r: usize)
    ensures
        r == opt_cells(*m).len(),
{
    m.inner.shape()[0]
}

/// Relies on `ndarray`'s `shape`: every row of a 2D array has the length
/// `shape()[1]`.
#[verifier::external_body]
pub(crate) fn opt_ncols(m: &OptArray) -> (r: usize)
    ensures
        forall|i: int| 0 <= i < opt_cells(*m).len() ==> #[trigger] opt_cells(*m)[i].len() == r,
{
    m.inner.shape()[1]
}

/// Relies on `ndarray`'s `Clone`: an element-wise copy.
#[verifier::external_body]
pub(crate) fn opt_clone(m: &OptArray) -> (r: OptArray)
    ensures
        opt_cells(r) == opt_cells(*m),
{
    OptArray { inner: m.inner.clone() }
}

/// Relies on `ndarray::Array::from_elem`, as [`opt_new`] does.
#[verifier::external_body]
pub(crate) fn dense_new(rows: usize, cols: usize) -> (r: DenseArray)
    requires
        rows * cols <= isize::MAX,
        rows <= isize::MAX,
        cols <= isize::MAX,
    ensures
        dense_cells(r) == grid_of(rows as nat, cols as nat, 0i32),
{
    DenseArray { inner: ndarray::Array::from_elem((rows, cols), 0) }
}

/// Relies on 2D `ndarray` indexing: the element at row `i`, column `j`.
#[verifier::external_body]
pub(crate) fn dense_get(m: &DenseArray, i: usize, j: usize) -> (r: i32)
    requires
        i < dense_cells(*m).len(),
        j < dense_cells(*m)[i as int].len(),
    ensures
        r == dense_cells(*m)[i as int][j as int],
{
    m.inner[[i, j]]
}

/// Relies on 2D `ndarray` index assignment, as [`opt_set`] does.
#[verifier::external_body]
pub(crate) fn dense_set(m: &mut DenseArray, i: usize, j: usize, v: i32)
    requires
        i < dense_cells(*old(m)).len(),
        j < dense_cells(*old(m))[i as int].len(),
    ensures
        dense_cells(*final(m)) == dense_cells(*old(m)).update(
            i as int,
            dense_cells(*old(m))[i as int].update(j as int, v),
        ),
{
    m.inner[[i, j]] = v;
}

/// Relies on `ndarray`'s `Clone`: an element-wise copy.
#[verifier::external_body]
pub(crate) fn dense_clone(m: &DenseArray) -> (r: DenseArray)
    ensures
        dense_cells(r) == dense_cells(*m),
{
    DenseArray { inner: m.inner.clone() }
}

/// Relies on `ndarray`'s `shape`: `[rows, cols]` for a 2D array.
#[verifier::external_body]
pub(crate) fn dense_nrows(m: &DenseArray) -> (r: usize)
    ensures
        r == dense_cells(*m).len(),
{
    m.inner.shape()[0]
}

/// Relies on `ndarray`'s `shape`: every row of a 2D array has the length
/// `shape()[1]`.
#[verifier::external_body]
pub(crate) fn dense_ncols(m: &DenseArray) -> (r: usize)
    ensures
        forall|i: int| 0 <= i < dense_cells(*m).len() ==> #[trigger] dense_cells(*m)[i].len() == r,
{
    m.inner.shape()[1]
}

} // verus!
