//! Segmentation of a plane into 8x8 blocks, with edge replication where the
//! extent is no multiple of eight, and the zigzag scan of a quantised block.
use vstd::prelude::*;
use crate::coeff_block::CoeffBlock;
use crate::grid::{addressable, lemma_cell_of_position, lemma_flat_position, Grid};
use crate::scan::{lemma_scan_cell_rank, next_cell, scan_cell, zigzagged};
use crate::shifted_plane::ShiftedPlane;

verus! {

/// The side of a block.
pub const BLOCK: usize = 8;

/// `n` rounded up to the next multiple of eight.
pub open spec fn round_up_8(n: nat) -> nat {
    ((n + 7) / 8 * 8) as nat
}

/// `i` itself where it is below `n`, else the last index below `n`.
pub open spec fn clamped(i: int, n: nat) -> int {
    if i < n {
        i
    } else {
        n - 1
    }
}

/// The plane padded to multiples of eight by repeating its last column to
/// the right and its last row downwards: a cell beyond the plane shows the
/// nearest cell of the plane.
pub open spec fn stretched<T>(g: Grid<T>) -> Grid<T> {
    Grid::tabulate(
        round_up_8(g.height()),
        round_up_8(g.width),
        |i: int, j: int| g.at(clamped(i, g.height()), clamped(j, g.width)),
    )
}

/// The block in block-row `bi` and block-column `bj` of a plane.
pub open spec fn block_of<T>(g: Grid<T>, bi: int, bj: int) -> Grid<T> {
    Grid::tabulate(8, 8, |i: int, j: int| g.at(8 * bi + i, 8 * bj + j))
}

/// The number of block-rows of the stretched plane.
pub open spec fn blocks_down<T>(g: Grid<T>) -> int {
    round_up_8(g.height()) as int / 8
}

/// The number of block-columns of the stretched plane.
pub open spec fn blocks_across<T>(g: Grid<T>) -> int {
    round_up_8(g.width) as int / 8
}

/// The blocks of the stretched plane, block-rows from top to bottom and,
/// within each, blocks from left to right.
pub open spec fn segmented<T>(g: Grid<T>) -> Seq<Grid<T>> {
    Seq::new(
        (blocks_down(g) * blocks_across(g)) as nat,
        |k: int| block_of(stretched(g), k / blocks_across(g), k % blocks_across(g)),
    )
}

/// A plane whose extents are multiples of eight is its own stretch.
pub proof fn lemma_stretch_idempotent<T>(g: Grid<T>)
    requires
        g.wf(),
        g.height() % 8 == 0,
        g.width % 8 == 0,
    ensures
        stretched(g) == g,
{
    assert(stretched(g).cells =~~= g.cells);
}

/// Stretching keeps the plane in the top left corner; each cell added to
/// the right of a row repeats the last cell of that row, and each row
/// added below repeats the last row as extended.
pub proof fn lemma_stretch_replicates<T>(g: Grid<T>)
    ensures
        stretched(g).wf(),
        stretched(g).height() == round_up_8(g.height()),
        stretched(g).width == round_up_8(g.width),
        g.height() <= stretched(g).height() < g.height() + 8,
        g.width <= stretched(g).width < g.width + 8,
        stretched(g).height() % 8 == 0,
        stretched(g).width % 8 == 0,
        forall|i: int, j: int| g.has(i, j) ==> #[trigger] stretched(g).at(i, j) == g.at(i, j),
        forall|i: int, j: int|
            0 <= i < g.height() && g.width <= j < stretched(g).width ==> #[trigger] stretched(
                g,
            ).at(i, j) == g.at(i, g.width - 1),
        forall|i: int, j: int|
            g.height() <= i < stretched(g).height() && 0 <= j < stretched(g).width
                ==> #[trigger] stretched(g).at(i, j) == stretched(g).at(g.height() - 1, j),
{
}

/// Block `(bi, bj)` of a plane shows the region of eight by eight cells
/// whose top left corner is `(8 bi, 8 bj)`; a plane of eight by eight is
/// its own single block.
pub proof fn lemma_block_shows_region<T>(g: Grid<T>, bi: int, bj: int)
    requires
        g.wf(),
        0 <= bi,
        0 <= bj,
        8 * bi + 8 <= g.height(),
        8 * bj + 8 <= g.width,
    ensures
        block_of(g, bi, bj).wf(),
        block_of(g, bi, bj).height() == 8,
        block_of(g, bi, bj).width == 8,
        forall|i: int, j: int|
            0 <= i < 8 && 0 <= j < 8 ==> #[trigger] block_of(g, bi, bj).at(i, j) == g.at(
                8 * bi + i,
                8 * bj + j,
            ),
        g.height() == 8 && g.width == 8 ==> block_of(g, 0, 0) == g,
{
    if g.height() == 8 && g.width == 8 {
        assert(block_of(g, 0, 0).cells =~~= g.cells);
    }
}

/// Segmentation gives one block of eight by eight for each block-row and
/// block-column of the stretched plane, in row-major order of the blocks:
/// block `k` is the one in block-row `k / blocks_across` and block-column
/// `k % blocks_across`. A plane without cells has no blocks.
pub proof fn lemma_segmented_blocks<T>(g: Grid<T>)
    ensures
        segmented(g).len() == blocks_down(g) * blocks_across(g),
        g.height() == 0 || g.width == 0 ==> segmented(g).len() == 0,
        forall|k: int|
            0 <= k < segmented(g).len() ==> {
                &&& (#[trigger] segmented(g)[k]).wf()
                &&& segmented(g)[k].height() == 8
                &&& segmented(g)[k].width == 8
                &&& 0 <= k / blocks_across(g) < blocks_down(g)
                &&& 0 <= k % blocks_across(g) < blocks_across(g)
                &&& segmented(g)[k] == block_of(
                    stretched(g),
                    k / blocks_across(g),
                    k % blocks_across(g),
                )
            },
{
    let down = blocks_down(g);
    let across = blocks_across(g);
    assert(0 <= down * across && (g.height() == 0 || g.width == 0 ==> down * across == 0))
        by (nonlinear_arith)
        requires
            0 <= down,
            0 <= across,
            g.height() == 0 ==> down == 0,
            g.width == 0 ==> across == 0,
    ;
    assert forall|k: int| 0 <= k < segmented(g).len() implies {
        &&& (#[trigger] segmented(g)[k]).wf()
        &&& 0 <= k / across < down
        &&& 0 <= k % across < across
    } by {
        lemma_cell_of_position(k, down, across);
    }
}

/// The window of `rows` by `cols` cells onto `g` whose top left corner
/// is `(top, left)`: where the window reaches beyond `g`, it shows the
/// nearest cell of `g`.
pub open spec fn window<T>(g: Grid<T>, top: int, left: int, rows: nat, cols: nat) -> Grid<T> {
    Grid::tabulate(
        rows,
        cols,
        |i: int, j: int| g.at(clamped(top + i, g.height()), clamped(left + j, g.width)),
    )
}

/// Copies a window out of `source`.
fn copy_window(source: &ShiftedPlane, top: usize, left: usize, rows: usize, cols: usize) -> (out:
    ShiftedPlane)
    requires
        addressable(rows as int, cols as int, 1),
        top + rows <= usize::MAX,
        left + cols <= usize::MAX,
        rows > 0 && cols > 0 ==> source@.height() > 0 && source@.width > 0,
    ensures
        out@ == window(source@, top as int, left as int, rows as nat, cols as nat),
{
    let (have_rows, have_cols) = source.extent();
    let mut out = ShiftedPlane::zeroed(rows, cols);
    let ghost want = window(source@, top as int, left as int, rows as nat, cols as nat);
    let mut i: usize = 0;
    while i < rows
        invariant
            i <= rows,
            top + rows <= usize::MAX,
            left + cols <= usize::MAX,
            rows > 0 && cols > 0 ==> have_rows > 0 && have_cols > 0,
            have_rows == source@.height(),
            have_cols == source@.width,
            source@.wf(),
            want == window(source@, top as int, left as int, rows as nat, cols as nat),
            out@.filled_before(want, i as int, 0),
        decreases rows - i,
    {
        let mut j: usize = 0;
        while j < cols
            invariant
                i < rows,
                j <= cols,
                top + rows <= usize::MAX,
                left + cols <= usize::MAX,
                rows > 0 && cols > 0 ==> have_rows > 0 && have_cols > 0,
                have_rows == source@.height(),
                have_cols == source@.width,
                source@.wf(),
                want == window(source@, top as int, left as int, rows as nat, cols as nat),
                out@.filled_before(want, i as int, j as int),
            decreases cols - j,
        {
            let from_row: usize = if top + i < have_rows {
                top + i
            } else {
                have_rows - 1
            };
            let from_col: usize = if left + j < have_cols {
                left + j
            } else {
                have_cols - 1
            };
            proof {
                out@.lemma_fill_cell(want, i as int, j as int);
            }
            out.put(i, j, source.get(from_row, from_col));
            j += 1;
        }
        proof {
            out@.lemma_fill_row(want, i as int);
        }
        i += 1;
    }
    proof {
        out@.lemma_fill_done(want);
    }
    out
}

/// Whether ndarray can hold the plane once stretched: what [`stretch`] and
/// [`make_cells`] ask of their argument.
pub fn stretchable(input: &ShiftedPlane) -> (ok: bool)
    ensures
        ok == addressable(round_up_8(input@.height()) as int, round_up_8(input@.width) as int, 1),
{
    let limit: usize = isize::MAX as usize;
    let (rows, cols) = input.extent();
    let stretched_rows: usize = (rows + 7) / BLOCK * BLOCK;
    let stretched_cols: usize = (cols + 7) / BLOCK * BLOCK;
    if stretched_rows > limit || stretched_cols > limit {
        return false;
    }
    match stretched_rows.checked_mul(stretched_cols) {
        Some(cells) => cells <= limit,
        None => false,
    }
}

/// Stretches the plane so that its extents are multiples of eight,
/// repeating the last column and then the last row.
///
/// The stretched shape has to be one that ndarray can hold.
pub fn stretch(input: &ShiftedPlane) -> (out: ShiftedPlane)
    requires
        addressable(round_up_8(input@.height()) as int, round_up_8(input@.width) as int, 1),
    ensures
        out@ == stretched(input@),
{
    let (rows, cols) = input.extent();
    let stretched_rows: usize = (rows + 7) / BLOCK * BLOCK;
    let stretched_cols: usize = (cols + 7) / BLOCK * BLOCK;
    let out = copy_window(input, 0, 0, stretched_rows, stretched_cols);
    proof {
        assert(out@.cells =~~= stretched(input@).cells);
    }
    out
}

/// Splits the plane into blocks of eight by eight, stretching it first
/// where its extents are no multiples of eight. The blocks come row of
/// blocks by row of blocks, each from left to right.
///
/// The stretched shape has to be one that ndarray can hold.
pub fn make_cells(input: &ShiftedPlane) -> (cells: Vec<ShiftedPlane>)
    requires
        addressable(round_up_8(input@.height()) as int, round_up_8(input@.width) as int, 1),
    ensures
        cells@.len() == segmented(input@).len(),
        forall|k: int| 0 <= k < cells@.len() ==> (#[trigger] cells@[k])@ == segmented(input@)[k],
{
    let whole = stretch(input);
    let (rows, cols) = whole.extent();
    let cell_rows: usize = rows / BLOCK;
    let cell_cols: usize = cols / BLOCK;
    let mut cells: Vec<ShiftedPlane> = Vec::new();
    let mut bi: usize = 0;
    while bi < cell_rows
        invariant
            bi <= cell_rows,
            whole@ == stretched(input@),
            whole@.wf(),
            rows == whole@.height(),
            cols == whole@.width,
            rows == round_up_8(input@.height()),
            cols == round_up_8(input@.width),
            cell_rows == rows / 8,
            cell_cols == cols / 8,
            cells@.len() == bi * cell_cols,
            forall|k: int| 0 <= k < cells@.len() ==> (#[trigger] cells@[k])@ == segmented(input@)[k],
        decreases cell_rows - bi,
    {
        let mut bj: usize = 0;
        while bj < cell_cols
            invariant
                bi < cell_rows,
                bj <= cell_cols,
                whole@ == stretched(input@),
                whole@.wf(),
                rows == whole@.height(),
                cols == whole@.width,
                rows == round_up_8(input@.height()),
                cols == round_up_8(input@.width),
                cell_rows == rows / 8,
                cell_cols == cols / 8,
                cells@.len() == bi * cell_cols + bj,
                forall|k: int|
                    0 <= k < cells@.len() ==> (#[trigger] cells@[k])@ == segmented(input@)[k],
            decreases cell_cols - bj,
        {
            proof {
                lemma_flat_position(bi as int, bj as int, cell_rows as int, cell_cols as int);
            }
            let cell = copy_window(&whole, bi * BLOCK, bj * BLOCK, BLOCK, BLOCK);
            proof {
                assert(cell@.cells =~~= block_of(whole@, bi as int, bj as int).cells);
            }
            cells.push(cell);
            bj += 1;
        }
        proof {
            assert((bi + 1) * cell_cols == bi * cell_cols + cell_cols) by (nonlinear_arith);
        }
        bi += 1;
    }
    cells
}

/// Lists the cells of the block in zigzag order: along the diagonals,
/// upwards and downwards in turn, starting at the top left corner.
pub fn zigzag(block: &CoeffBlock) -> (out: Vec<i32>)
    ensures
        out@ == zigzagged(block@),
{
    let (rows, cols) = block.extent();
    proof {
        assert(rows * cols <= isize::MAX) by (nonlinear_arith)
            requires
                0 <= rows * cols * 4 <= isize::MAX,
                0 <= rows,
                0 <= cols,
        ;
    }
    let count: usize = rows * cols;
    let mut out: Vec<i32> = Vec::new();
    let mut row: usize = 0;
    let mut col: usize = 0;
    let mut i: usize = 0;
    while i < count
        invariant
            i <= count,
            count == rows * cols,
            rows <= isize::MAX,
            cols <= isize::MAX,
            rows == block@.height(),
            cols == block@.width,
            block@.wf(),
            (row as int, col as int) == scan_cell(i as nat, rows as int, cols as int),
            out@.len() == i,
            forall|k: int| 0 <= k < i ==> #[trigger] out@[k] == zigzagged(block@)[k],
        decreases count - i,
    {
        proof {
            lemma_scan_cell_rank(i as nat, rows as int, cols as int);
        }
        out.push(block.get(row, col));
        if (row + col) % 2 == 0 {
            if row > 0 && col < cols - 1 {
                row -= 1;
                col += 1;
            } else if col < cols - 1 {
                col += 1;
            } else {
                row += 1;
            }
        } else {
            if col > 0 && row < rows - 1 {
                col -= 1;
                row += 1;
            } else if row < rows - 1 {
                row += 1;
            } else {
                col += 1;
            }
        }
        i += 1;
        proof {
            assert(scan_cell(i as nat, rows as int, cols as int) == next_cell(
                scan_cell((i - 1) as nat, rows as int, cols as int),
                rows as int,
                cols as int,
            ));
        }
    }
    out
}

} // verus!
