//! Planes of level-shifted samples.
use vstd::prelude::*;
use crate::error::EncodeError;
use crate::grid::{addressable, fills, lemma_flat_position, Grid};

verus! {

/// A plane of level-shifted samples, signed and 8 bits wide, held in an `ndarray::Array2<i8>`.
///
/// Verus cannot look into the array: what it holds is named by
/// [`shifted_rows`] and [`shifted_width`], and the view of a plane is the
/// [`Grid`] made of the two.
#[verifier::external_body]
#[derive(Debug, PartialEq, Eq)]
pub struct ShiftedPlane {
    cells: ndarray::Array2<i8>,
}

/// The rows of samples that the array of a [`ShiftedPlane`] holds.
pub uninterp spec fn shifted_rows(p: ShiftedPlane) -> Seq<Seq<i8>>;

/// The length of axis 1 of the array of a [`ShiftedPlane`].
pub uninterp spec fn shifted_width(p: ShiftedPlane) -> nat;

impl View for ShiftedPlane {
    type V = Grid<i8>;

    open spec fn view(&self) -> Grid<i8> {
        Grid { cells: shifted_rows(*self), width: shifted_width(*self) }
    }
}

/// `Array2::<i8>::zeros((rows, cols))`: an array of that shape with every
/// element zero. ndarray panics when the product of the non-zero axis
/// lengths exceeds `isize::MAX`, which `requires` rules out.
#[verifier::external_body]
fn zeros(rows: usize, cols: usize) -> (p: ShiftedPlane)
    requires
        addressable(rows as int, cols as int, 1),
    ensures
        shifted_width(p) == cols,
        shifted_rows(p) == Seq::new(rows as nat, |i: int| Seq::new(cols as nat, |j: int| 0i8)),
{
    ShiftedPlane { cells: ndarray::Array2::zeros((rows, cols)) }
}

/// `Array2::dim`: the lengths of the two axes. The array is rectangular,
/// and its shape is one that `zeros` accepted, since nothing else makes a
/// [`ShiftedPlane`] and no operation on it changes the shape.
#[verifier::external_body]
fn dim(p: &ShiftedPlane) -> (d: (usize, usize))
    ensures
        d.0 == shifted_rows(*p).len(),
        d.1 == shifted_width(*p),
        forall|i: int| 0 <= i < d.0 ==> (#[trigger] shifted_rows(*p)[i]).len() == d.1,
        addressable(d.0 as int, d.1 as int, 1),
{
    p.cells.dim()
}

/// `Index<(usize, usize)>` of the array: the element in row `i`, column
/// `j`. ndarray panics on an index out of bounds, which `requires` rules out.
#[verifier::external_body]
fn get(p: &ShiftedPlane, i: usize, j: usize) -> (v: i8)
    requires
        i < shifted_rows(*p).len(),
        j < shifted_width(*p),
    ensures
        v == shifted_rows(*p)[i as int][j as int],
{
    p.cells[(i, j)]
}

/// `IndexMut<(usize, usize)>` of the array: stores `v` in row `i`, column
/// `j` and leaves every other element and the shape as they were. ndarray
/// panics on an index out of bounds, which `requires` rules out.
#[verifier::external_body]
fn set(p: &mut ShiftedPlane, i: usize, j: usize, v: i8)
    requires
        i < shifted_rows(*old(p)).len(),
        j < shifted_width(*old(p)),
    ensures
        shifted_width(*final(p)) == shifted_width(*old(p)),
        shifted_rows(*final(p)) == shifted_rows(*old(p)).update(
            i as int,
            shifted_rows(*old(p))[i as int].update(j as int, v),
        ),
{
    p.cells[(i, j)] = v;
}

impl ShiftedPlane {
    /// A plane of `rows` by `cols` samples, all zero.
    pub fn zeroed(rows: usize, cols: usize) -> (p: ShiftedPlane)
        requires
            addressable(rows as int, cols as int, 1),
        ensures
            p@ == Grid::tabulate(rows as nat, cols as nat, |i: int, j: int| 0i8),
    {
        let p = zeros(rows, cols);
        proof {
            assert(p@.cells =~~= Grid::tabulate(rows as nat, cols as nat, |i: int, j: int| 0i8).cells);
        }
        p
    }

    /// Lays `data` out row by row as a plane of `rows` by `cols` samples.
    ///
    /// Fails with `InvalidShape` exactly when the number of samples is not
    /// `rows * cols` or ndarray cannot hold that shape.
    pub fn from_vec(rows: usize, cols: usize, data: Vec<i8>) -> (made: Result<ShiftedPlane, EncodeError>)
        ensures
            made is Ok <==> fills(data.len() as int, rows as int, cols as int, 1),
            made matches Ok(p) ==> p@ == Grid::from_flat(rows as nat, cols as nat, data@),
            made matches Err(e) ==> e == EncodeError::InvalidShape,
    {
        let limit: usize = isize::MAX as usize;
        if rows > limit || cols > limit {
            return Err(EncodeError::InvalidShape);
        }
        let count: usize = match rows.checked_mul(cols) {
            Some(n) => n,
            None => {
                return Err(EncodeError::InvalidShape);
            },
        };
        if count > limit || count != data.len() {
            return Err(EncodeError::InvalidShape);
        }
        let mut p = zeros(rows, cols);
        let ghost want = Grid::from_flat(rows as nat, cols as nat, data@);
        let mut i: usize = 0;
        while i < rows
            invariant
                i <= rows,
                data.len() == rows * cols,
                want == Grid::from_flat(rows as nat, cols as nat, data@),
                p@.filled_before(want, i as int, 0),
            decreases rows - i,
        {
            let mut j: usize = 0;
            while j < cols
                invariant
                    i < rows,
                    j <= cols,
                    data.len() == rows * cols,
                    want == Grid::from_flat(rows as nat, cols as nat, data@),
                    p@.filled_before(want, i as int, j as int),
                decreases cols - j,
            {
                proof {
                    lemma_flat_position(i as int, j as int, rows as int, cols as int);
                    p@.lemma_fill_cell(want, i as int, j as int);
                }
                set(&mut p, i, j, data[i * cols + j]);
                j += 1;
            }
            proof {
                p@.lemma_fill_row(want, i as int);
            }
            i += 1;
        }
        proof {
            p@.lemma_fill_done(want);
        }
        Ok(p)
    }

    /// The samples of the plane, row by row.
    pub fn to_vec(&self) -> (data: Vec<i8>)
        ensures
            data@ == self@.flat(),
            self@.wf(),
    {
        let (rows, cols) = dim(self);
        let mut data: Vec<i8> = Vec::new();
        let mut i: usize = 0;
        while i < rows
            invariant
                i <= rows,
                rows == self@.height(),
                cols == self@.width,
                self@.wf(),
                data.len() == i * cols,
                forall|k: int| 0 <= k < data.len() ==> #[trigger] data@[k] == self@.flat()[k],
            decreases rows - i,
        {
            let mut j: usize = 0;
            while j < cols
                invariant
                    i < rows,
                    j <= cols,
                    rows == self@.height(),
                    cols == self@.width,
                    self@.wf(),
                    data.len() == i * cols + j,
                    forall|k: int| 0 <= k < data.len() ==> #[trigger] data@[k] == self@.flat()[k],
                decreases cols - j,
            {
                proof {
                    lemma_flat_position(i as int, j as int, rows as int, cols as int);
                }
                data.push(get(self, i, j));
                j += 1;
            }
            proof {
                assert((i + 1) * cols == i * cols + cols) by (nonlinear_arith);
            }
            i += 1;
        }
        data
    }

    /// The sample in row `i`, column `j`.
    pub fn get(&self, i: usize, j: usize) -> (v: i8)
        requires
            self@.has(i as int, j as int),
        ensures
            v == self@.at(i as int, j as int),
    {
        get(self, i, j)
    }

    /// Stores `v` in row `i`, column `j`.
    pub fn put(&mut self, i: usize, j: usize, v: i8)
        requires
            old(self)@.has(i as int, j as int),
        ensures
            final(self)@ == old(self)@.with(i as int, j as int, v),
    {
        set(self, i, j, v);
    }

    /// Number of rows and of columns. Every plane is rectangular and of a
    /// shape that ndarray can hold.
    pub fn extent(&self) -> (d: (usize, usize))
        ensures
            d.0 == self@.height(),
            d.1 == self@.width,
            self@.wf(),
            addressable(d.0 as int, d.1 as int, 1),
    {
        dim(self)
    }

    /// Number of rows.
    pub fn rows(&self) -> (r: usize)
        ensures
            r == self@.height(),
    {
        dim(self).0
    }

    /// Number of columns.
    pub fn cols(&self) -> (c: usize)
        ensures
            c == self@.width,
    {
        dim(self).1
    }
}

} // verus!
