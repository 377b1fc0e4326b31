//! Blocks of integer coefficients.
use vstd::prelude::*;
use crate::error::EncodeError;
use crate::grid::{addressable, fills, lemma_flat_position, Grid};

verus! {

/// A block of integer coefficients, of any rectangular extent, held in an `ndarray::Array2<i32>`.
///
/// Verus cannot look into the array: what it holds is named by
/// [`coeff_rows`] and [`coeff_width`], and the view of a block is the
/// [`Grid`] made of the two.
#[verifier::external_body]
#[derive(Debug, PartialEq, Eq)]
pub struct CoeffBlock {
    cells: ndarray::Array2<i32>,
}

/// The rows of coefficients that the array of a [`CoeffBlock`] holds.
pub uninterp spec fn coeff_rows(p: CoeffBlock) -> Seq<Seq<i32>>;

/// The length of axis 1 of the array of a [`CoeffBlock`].
pub uninterp spec fn coeff_width(p: CoeffBlock) -> nat;

impl View for CoeffBlock {
    type V = Grid<i32>;

    open spec fn view(&self) -> Grid<i32> {
        Grid { cells: coeff_rows(*self), width: coeff_width(*self) }
    }
}

/// `Array2::<i32>::zeros((rows, cols))`: an array of that shape with every
/// element zero. ndarray panics when the product of the non-zero axis
/// lengths exceeds `isize::MAX`, and the allocation when the array takes
/// more bytes than that; `requires` rules out both.
#[verifier::external_body]
fn zeros(rows: usize, cols: usize) -> (p: CoeffBlock)
    requires
        addressable(rows as int, cols as int, 4),
    ensures
        coeff_width(p) == cols,
        coeff_rows(p) == Seq::new(rows as nat, |i: int| Seq::new(cols as nat, |j: int| 0i32)),
{
    CoeffBlock { cells: ndarray::Array2::zeros((rows, cols)) }
}

/// `Array2::dim`: the lengths of the two axes. The array is rectangular,
/// and its shape is one that `zeros` accepted, since nothing else makes a
/// [`CoeffBlock`] and no operation on it changes the shape.
#[verifier::external_body]
fn dim(p: &CoeffBlock) -> (d: (usize, usize))
    ensures
        d.0 == coeff_rows(*p).len(),
        d.1 == coeff_width(*p),
        forall|i: int| 0 <= i < d.0 ==> (#[trigger] coeff_rows(*p)[i]).len() == d.1,
        addressable(d.0 as int, d.1 as int, 4),
{
    p.cells.dim()
}

/// `Index<(usize, usize)>` of the array: the element in row `i`, column
/// `j`. ndarray panics on an index out of bounds, which `requires` rules out.
#[verifier::external_body]
fn get(p: &CoeffBlock, i: usize, j: usize) -> (v: i32)
    requires
        i < coeff_rows(*p).len(),
        j < coeff_width(*p),
    ensures
        v == coeff_rows(*p)[i as int][j as int],
{
    p.cells[(i, j)]
}

/// `IndexMut<(usize, usize)>` of the array: stores `v` in row `i`, column
/// `j` and leaves every other element and the shape as they were. ndarray
/// panics on an index out of bounds, which `requires` rules out.
#[verifier::external_body]
fn set(p: &mut CoeffBlock, i: usize, j: usize, v: i32)
    requires
        i < coeff_rows(*old(p)).len(),
        j < coeff_width(*old(p)),
    ensures
        coeff_width(*final(p)) == coeff_width(*old(p)),
        coeff_rows(*final(p)) == coeff_rows(*old(p)).update(
            i as int,
            coeff_rows(*old(p))[i as int].update(j as int, v),
        ),
{
    p.cells[(i, j)] = v;
}

impl CoeffBlock {
    /// Lays `data` out row by row as a block of `rows` by `cols` coefficients.
    ///
    /// Fails with `InvalidShape` exactly when the number of coefficients is not
    /// `rows * cols` or ndarray cannot hold that shape.
    pub fn from_vec(rows: usize, cols: usize, data: Vec<i32>) -> (made: Result<CoeffBlock, EncodeError>)
        ensures
            made is Ok <==> fills(data.len() as int, rows as int, cols as int, 4),
            made matches Ok(p) ==> p@ == Grid::from_flat(rows as nat, cols as nat, data@),
            made matches Err(e) ==> e == EncodeError::InvalidShape,
    {
        let limit: usize = isize::MAX as usize;
        if rows > limit || cols > limit {
            return Err(EncodeError::InvalidShape);
        }
        let count: usize = match rows.checked_mul(cols) {
            Some(n) => n,
            None => {
                return Err(EncodeError::InvalidShape);
            },
        };
        if count > limit / 4 || count != data.len() {
            return Err(EncodeError::InvalidShape);
        }
        let mut p = zeros(rows, cols);
        let ghost want = Grid::from_flat(rows as nat, cols as nat, data@);
        let mut i: usize = 0;
        while i < rows
            invariant
                i <= rows,
                data.len() == rows * cols,
                want == Grid::from_flat(rows as nat, cols as nat, data@),
                p@.filled_before(want, i as int, 0),
            decreases rows - i,
        {
            let mut j: usize = 0;
            while j < cols
                invariant
                    i < rows,
                    j <= cols,
                    data.len() == rows * cols,
                    want == Grid::from_flat(rows as nat, cols as nat, data@),
                    p@.filled_before(want, i as int, j as int),
                decreases cols - j,
            {
                proof {
                    lemma_flat_position(i as int, j as int, rows as int, cols as int);
                    p@.lemma_fill_cell(want, i as int, j as int);
                }
                set(&mut p, i, j, data[i * cols + j]);
                j += 1;
            }
            proof {
                p@.lemma_fill_row(want, i as int);
            }
            i += 1;
        }
        proof {
            p@.lemma_fill_done(want);
        }
        Ok(p)
    }

    /// The coefficient in row `i`, column `j`.
    pub fn get(&self, i: usize, j: usize) -> (v: i32)
        requires
            self@.has(i as int, j as int),
        ensures
            v == self@.at(i as int, j as int),
    {
        get(self, i, j)
    }

    /// Number of rows and of columns. Every block is rectangular and of a
    /// shape that ndarray can hold.
    pub fn extent(&self) -> (d: (usize, usize))
        ensures
            d.0 == self@.height(),
            d.1 == self@.width,
            self@.wf(),
            addressable(d.0 as int, d.1 as int, 4),
    {
        dim(self)
    }

    /// Number of rows.
    pub fn rows(&self) -> (r: usize)
        ensures
            r == self@.height(),
    {
        dim(self).0
    }

    /// Number of columns.
    pub fn cols(&self) -> (c: usize)
        ensures
            c == self@.width,
    {
        dim(self).1
    }
}

} // verus!
