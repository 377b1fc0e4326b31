//! The mathematical model of a plane of samples, over which every contract
//! of the crate is stated, and the arithmetic of row-major positions.
use vstd::prelude::*;
use vstd::arithmetic::div_mod::{
    lemma_fundamental_div_mod, lemma_fundamental_div_mod_converse, lemma_mod_bound,
};

verus! {

/// The mathematical value of a plane of samples: `cells[i][j]` is the sample
/// in row `i` and column `j`, and `width` is the number of columns (kept
/// apart from `cells` so that a plane without rows still has a width).
pub struct Grid<T> {
    pub cells: Seq<Seq<T>>,
    pub width: nat,
}

impl<T> Grid<T> {
    /// Number of rows.
    pub open spec fn height(self) -> nat {
        self.cells.len()
    }

    /// Every row holds exactly `width` samples.
    pub open spec fn wf(self) -> bool {
        forall|i: int| 0 <= i < self.cells.len() ==> (#[trigger] self.cells[i]).len() == self.width
    }

    /// The sample in row `i`, column `j`.
    pub open spec fn at(self, i: int, j: int) -> T {
        self.cells[i][j]
    }

    /// Whether `(i, j)` names a cell of the grid.
    pub open spec fn has(self, i: int, j: int) -> bool {
        0 <= i < self.height() && 0 <= j < self.width
    }

    /// The grid of `rows` by `cols` cells whose cell `(i, j)` is `f(i, j)`.
    pub open spec fn tabulate(rows: nat, cols: nat, f: spec_fn(int, int) -> T) -> Grid<T> {
        Grid { cells: Seq::new(rows, |i: int| Seq::new(cols, |j: int| f(i, j))), width: cols }
    }

    /// The grid of `rows` by `cols` cells that `data` lists row by row.
    pub open spec fn from_flat(rows: nat, cols: nat, data: Seq<T>) -> Grid<T> {
        Grid::tabulate(rows, cols, |i: int, j: int| data[i * cols + j])
    }

    /// The cells of the grid, row by row.
    pub open spec fn flat(self) -> Seq<T> {
        Seq::new(
            self.height() * self.width,
            |k: int| self.cells[k / self.width as int][k % self.width as int],
        )
    }

    /// The grid with cell `(i, j)` replaced by `v`.
    pub open spec fn with(self, i: int, j: int, v: T) -> Grid<T> {
        Grid { cells: self.cells.update(i, self.cells[i].update(j, v)), width: self.width }
    }

    /// Whether the grid has the extent of `want` and its cells that come
    /// before `(i, j)`, row by row, are those of `want`: what holds of a
    /// grid that is being filled row by row when cell `(i, j)` is next.
    pub open spec fn filled_before(self, want: Grid<T>, i: int, j: int) -> bool {
        &&& self.wf()
        &&& want.wf()
        &&& self.height() == want.height()
        &&& self.width == want.width
        &&& forall|a: int| 0 <= a < i ==> #[trigger] self.cells[a] == want.cells[a]
        &&& forall|b: int| 0 <= b < j ==> #[trigger] self.cells[i][b] == want.cells[i][b]
    }

    /// Writing the cell of `want` at `(i, j)` moves the filling on by one
    /// cell.
    pub proof fn lemma_fill_cell(self, want: Grid<T>, i: int, j: int)
        requires
            self.filled_before(want, i, j),
            self.has(i, j),
        ensures
            self.with(i, j, want.at(i, j)).filled_before(want, i, j + 1),
    {
    }

    /// A row filled to its end is the row of `want`, and the filling goes on
    /// with the next row.
    pub proof fn lemma_fill_row(self, want: Grid<T>, i: int)
        requires
            self.filled_before(want, i, self.width as int),
            0 <= i < self.height(),
        ensures
            self.filled_before(want, i + 1, 0),
    {
        assert(self.cells[i] =~= want.cells[i]);
    }

    /// A grid filled to its last row is `want`.
    pub proof fn lemma_fill_done(self, want: Grid<T>)
        requires
            self.filled_before(want, self.height() as int, 0),
        ensures
            self == want,
    {
        assert(self.cells =~= want.cells);
    }
}

/// Whether ndarray accepts `rows` by `cols` as the shape of an array of
/// elements of `elem_bytes` bytes each: neither axis is longer than
/// `isize::MAX`, nor does the array take more bytes than that.
pub open spec fn addressable(rows: int, cols: int, elem_bytes: int) -> bool {
    &&& 0 <= rows <= isize::MAX
    &&& 0 <= cols <= isize::MAX
    &&& rows * cols * elem_bytes <= isize::MAX
}

/// Whether `len` samples fill a grid of `rows` by `cols` cells that ndarray
/// can hold.
pub open spec fn fills(len: int, rows: int, cols: int, elem_bytes: int) -> bool {
    len == rows * cols && addressable(rows, cols, elem_bytes)
}

/// Row-major position `i * cols + j` of cell `(i, j)`: it lies within the
/// `rows * cols` positions and gives `i` and `j` back.
pub proof fn lemma_flat_position(i: int, j: int, rows: int, cols: int)
    requires
        0 <= i < rows,
        0 <= j < cols,
    ensures
        0 <= i * cols + j < rows * cols,
        (i * cols + j) / cols == i,
        (i * cols + j) % cols == j,
        (i + 1) * cols == i * cols + cols,
{
    assert(0 <= i * cols && (i + 1) * cols <= rows * cols && (i + 1) * cols == i * cols + cols)
        by (nonlinear_arith)
        requires
            0 <= i < rows,
            0 < cols,
    ;
    lemma_fundamental_div_mod_converse(i * cols + j, cols, i, j);
}

/// Every position below `rows * cols` is the row-major position of the
/// cell `(k / cols, k % cols)`.
pub proof fn lemma_cell_of_position(k: int, rows: int, cols: int)
    requires
        0 <= k < rows * cols,
        0 <= rows,
        0 <= cols,
    ensures
        0 < cols,
        0 <= k / cols < rows,
        0 <= k % cols < cols,
        k == (k / cols) * cols + k % cols,
{
    assert(0 < cols) by (nonlinear_arith)
        requires
            0 <= k < rows * cols,
            0 <= cols,
    ;
    lemma_fundamental_div_mod(k, cols);
    lemma_mod_bound(k, cols);
    let q = k / cols;
    assert(0 <= q < rows) by (nonlinear_arith)
        requires
            0 <= k < rows * cols,
            0 < cols,
            k == cols * q + k % cols,
            0 <= k % cols < cols,
    ;
    assert(cols * q == q * cols) by (nonlinear_arith);
}

/// Laying a list out as a grid and listing the grid row by row gives the
/// list back.
pub proof fn lemma_flat_round_trip<T>(rows: nat, cols: nat, data: Seq<T>)
    requires
        data.len() == rows * cols,
    ensures
        Grid::from_flat(rows, cols, data).wf(),
        Grid::from_flat(rows, cols, data).height() == rows,
        Grid::from_flat(rows, cols, data).flat() == data,
{
    let g = Grid::from_flat(rows, cols, data);
    assert forall|k: int| 0 <= k < data.len() implies g.flat()[k] == data[k] by {
        lemma_cell_of_position(k, rows as int, cols as int);
    }
    assert(g.flat() =~= data);
}

/// Listing a grid row by row and laying the list out again gives the
/// grid back.
pub proof fn lemma_grid_round_trip<T>(g: Grid<T>)
    requires
        g.wf(),
    ensures
        g.flat().len() == g.height() * g.width,
        Grid::from_flat(g.height(), g.width, g.flat()) == g,
{
    let back = Grid::from_flat(g.height(), g.width, g.flat());
    assert forall|i: int| 0 <= i < g.height() implies #[trigger] back.cells[i] == g.cells[i] by {
        assert forall|j: int| 0 <= j < g.width implies back.cells[i][j] == g.cells[i][j] by {
            lemma_flat_position(i, j, g.height() as int, g.width as int);
        }
        assert(back.cells[i] =~= g.cells[i]);
    }
    assert(back.cells =~= g.cells);
}

} // verus!
