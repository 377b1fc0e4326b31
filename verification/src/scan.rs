//! The zigzag scan of a rectangular block: the walk that defines it, the
//! position that each cell has in it, and the proof that the two agree.
use vstd::prelude::*;
use vstd::seq_lib::{to_multiset_build, to_multiset_insert};
use crate::grid::{lemma_flat_position, Grid};

verus! {

/// The cell that follows `cell` in the scan of a block of `rows` by `cols`.
///
/// On an upward diagonal (row plus column even) the walk moves up and
/// right; at the top row it moves right instead, and at the rightmost
/// column down. On a downward diagonal it moves down and left; at the
/// leftmost column it moves down instead, and at the bottom row right.
pub open spec fn next_cell(cell: (int, int), rows: int, cols: int) -> (int, int) {
    let (r, c) = cell;
    if (r + c) % 2 == 0 {
        if r > 0 && c < cols - 1 {
            (r - 1, c + 1)
        } else if c < cols - 1 {
            (r, c + 1)
        } else {
            (r + 1, c)
        }
    } else {
        if c > 0 && r < rows - 1 {
            (r + 1, c - 1)
        } else if r < rows - 1 {
            (r + 1, c)
        } else {
            (r, c + 1)
        }
    }
}

/// The cell that the scan visits at step `k`, starting from the top left
/// corner at step zero.
pub open spec fn scan_cell(k: nat, rows: int, cols: int) -> (int, int)
    decreases k,
{
    if k == 0 {
        (0, 0)
    } else {
        next_cell(scan_cell((k - 1) as nat, rows, cols), rows, cols)
    }
}

/// The smallest row of a cell on diagonal `d` (row plus column equal `d`).
pub open spec fn diagonal_top(d: int, cols: int) -> int {
    if d - (cols - 1) > 0 {
        d - (cols - 1)
    } else {
        0
    }
}

/// The largest row of a cell on diagonal `d`.
pub open spec fn diagonal_bottom(d: int, rows: int) -> int {
    if d < rows - 1 {
        d
    } else {
        rows - 1
    }
}

/// The number of cells on diagonal `d`.
pub open spec fn diagonal_len(d: int, rows: int, cols: int) -> int {
    if diagonal_bottom(d, rows) >= diagonal_top(d, cols) {
        diagonal_bottom(d, rows) - diagonal_top(d, cols) + 1
    } else {
        0
    }
}

/// The number of cells on the diagonals before diagonal `d`.
pub open spec fn cells_before(d: int, rows: int, cols: int) -> int
    decreases d,
{
    if d <= 0 {
        0
    } else {
        cells_before(d - 1, rows, cols) + diagonal_len(d - 1, rows, cols)
    }
}

/// The step at which the scan visits cell `(r, c)`: the cells of the
/// earlier diagonals come first, then those of its own diagonal, from the
/// bottom up where the diagonal is even and from the top down where it is
/// odd.
pub open spec fn scan_rank(r: int, c: int, rows: int, cols: int) -> int {
    let d = r + c;
    cells_before(d, rows, cols) + if d % 2 == 0 {
        diagonal_bottom(d, rows) - r
    } else {
        r - diagonal_top(d, cols)
    }
}

/// Whether `(r, c)` is a cell of a block of `rows` by `cols`.
pub open spec fn in_block(r: int, c: int, rows: int, cols: int) -> bool {
    0 <= r < rows && 0 <= c < cols
}

/// The cells of a block in scan order.
pub open spec fn zigzagged<T>(g: Grid<T>) -> Seq<T> {
    Seq::new(
        g.height() * g.width,
        |k: int|
            g.at(
                scan_cell(k as nat, g.height() as int, g.width as int).0,
                scan_cell(k as nat, g.height() as int, g.width as int).1,
            ),
    )
}

/// The count of earlier cells never shrinks from one diagonal to a later one.
proof fn lemma_cells_before_grows(d: int, e: int, rows: int, cols: int)
    requires
        d <= e,
    ensures
        cells_before(d, rows, cols) <= cells_before(e, rows, cols),
    decreases e - d,
{
    if d < e {
        lemma_cells_before_grows(d, e - 1, rows, cols);
    }
}

/// A block without rows has no cells on any diagonal.
proof fn lemma_cells_before_empty(d: int, cols: int)
    ensures
        cells_before(d, 0, cols) == 0,
    decreases d,
{
    if d > 0 {
        lemma_cells_before_empty(d - 1, cols);
    }
}

/// The last row of a block adds one cell to each of the diagonals
/// `rows - 1` to `rows + cols - 2`.
proof fn lemma_cells_before_last_row(d: int, rows: int, cols: int)
    requires
        rows >= 1,
        cols >= 1,
    ensures
        cells_before(d, rows, cols) == cells_before(d, rows - 1, cols) + if d <= rows - 1 {
            0
        } else if d - (rows - 1) <= cols {
            d - (rows - 1)
        } else {
            cols
        },
    decreases d,
{
    if d > 0 {
        lemma_cells_before_last_row(d - 1, rows, cols);
    }
}

/// The diagonals of a block hold `rows * cols` cells between them.
pub proof fn lemma_cells_before_all(d: int, rows: int, cols: int)
    requires
        rows >= 0,
        cols >= 1,
        d >= rows + cols - 1,
    ensures
        cells_before(d, rows, cols) == rows * cols,
    decreases rows,
{
    if rows == 0 {
        lemma_cells_before_empty(d, cols);
    } else {
        lemma_cells_before_all(d, rows - 1, cols);
        lemma_cells_before_last_row(d, rows, cols);
        assert((rows - 1) * cols + cols == rows * cols) by (nonlinear_arith);
    }
}

/// Every cell of the block has a rank below `rows * cols`.
pub proof fn lemma_rank_in_range(r: int, c: int, rows: int, cols: int)
    requires
        in_block(r, c, rows, cols),
    ensures
        0 <= scan_rank(r, c, rows, cols) < rows * cols,
        cells_before(r + c, rows, cols) <= scan_rank(r, c, rows, cols) < cells_before(
            r + c + 1,
            rows,
            cols,
        ),
{
    let d = r + c;
    lemma_cells_before_grows(0, d, rows, cols);
    lemma_cells_before_grows(d + 1, rows + cols - 1, rows, cols);
    lemma_cells_before_all(rows + cols - 1, rows, cols);
}

/// Two cells of the block with the same rank are the same cell.
pub proof fn lemma_rank_injective(r1: int, c1: int, r2: int, c2: int, rows: int, cols: int)
    requires
        in_block(r1, c1, rows, cols),
        in_block(r2, c2, rows, cols),
        scan_rank(r1, c1, rows, cols) == scan_rank(r2, c2, rows, cols),
    ensures
        r1 == r2,
        c1 == c2,
{
    lemma_rank_in_range(r1, c1, rows, cols);
    lemma_rank_in_range(r2, c2, rows, cols);
    if r1 + c1 < r2 + c2 {
        lemma_cells_before_grows(r1 + c1 + 1, r2 + c2, rows, cols);
    } else if r2 + c2 < r1 + c1 {
        lemma_cells_before_grows(r2 + c2 + 1, r1 + c1, rows, cols);
    }
}

/// From every cell but the last, the walk moves to a cell of the block
/// whose rank is one more.
pub proof fn lemma_next_cell_rank(r: int, c: int, rows: int, cols: int)
    requires
        in_block(r, c, rows, cols),
        !(r == rows - 1 && c == cols - 1),
    ensures
        in_block(next_cell((r, c), rows, cols).0, next_cell((r, c), rows, cols).1, rows, cols),
        scan_rank(next_cell((r, c), rows, cols).0, next_cell((r, c), rows, cols).1, rows, cols)
            == scan_rank(r, c, rows, cols) + 1,
{
}

/// At every step below `rows * cols` the scan is at a cell of the block,
/// and that cell's rank is the step.
pub proof fn lemma_scan_cell_rank(k: nat, rows: int, cols: int)
    requires
        0 <= rows,
        0 <= cols,
        k < rows * cols,
    ensures
        in_block(scan_cell(k, rows, cols).0, scan_cell(k, rows, cols).1, rows, cols),
        scan_rank(scan_cell(k, rows, cols).0, scan_cell(k, rows, cols).1, rows, cols) == k,
    decreases k,
{
    assert(rows >= 1 && cols >= 1) by (nonlinear_arith)
        requires
            0 <= rows,
            0 <= cols,
            0 <= k < rows * cols,
    ;
    if k > 0 {
        let before = scan_cell((k - 1) as nat, rows, cols);
        lemma_scan_cell_rank((k - 1) as nat, rows, cols);
        lemma_rank_in_range(rows - 1, cols - 1, rows, cols);
        lemma_cells_before_all(rows + cols - 1, rows, cols);
        lemma_next_cell_rank(before.0, before.1, rows, cols);
    }
}

/// The scan is a bijection between the steps `0 .. rows * cols` and the
/// cells of the block: `scan_cell` and `scan_rank` are inverse to each
/// other, so the scan visits every cell, and none twice.
pub proof fn lemma_scan_is_bijection(rows: int, cols: int)
    requires
        0 <= rows,
        0 <= cols,
    ensures
        forall|k: nat|
            k < rows * cols ==> {
                let cell = #[trigger] scan_cell(k, rows, cols);
                in_block(cell.0, cell.1, rows, cols) && scan_rank(cell.0, cell.1, rows, cols) == k
            },
        forall|r: int, c: int|
            in_block(r, c, rows, cols) ==> {
                let k = #[trigger] scan_rank(r, c, rows, cols);
                0 <= k < rows * cols && scan_cell(k as nat, rows, cols) == (r, c)
            },
{
    assert forall|k: nat| k < rows * cols implies {
        let cell = #[trigger] scan_cell(k, rows, cols);
        in_block(cell.0, cell.1, rows, cols) && scan_rank(cell.0, cell.1, rows, cols) == k
    } by {
        lemma_scan_cell_rank(k, rows, cols);
    }
    assert forall|r: int, c: int| in_block(r, c, rows, cols) implies {
        let k = #[trigger] scan_rank(r, c, rows, cols);
        0 <= k < rows * cols && scan_cell(k as nat, rows, cols) == (r, c)
    } by {
        let k = scan_rank(r, c, rows, cols);
        lemma_rank_in_range(r, c, rows, cols);
        lemma_scan_cell_rank(k as nat, rows, cols);
        let cell = scan_cell(k as nat, rows, cols);
        lemma_rank_injective(cell.0, cell.1, r, c, rows, cols);
    }
}

/// The scanned sequence is a rearrangement of the block: it has one entry
/// for each cell, and cell `(r, c)` is found again at position
/// `scan_rank(r, c)`.
pub proof fn lemma_zigzag_recovers<T>(g: Grid<T>)
    ensures
        zigzagged(g).len() == g.height() * g.width,
        forall|r: int, c: int|
            g.has(r, c) ==> {
                let k = #[trigger] scan_rank(r, c, g.height() as int, g.width as int);
                0 <= k < zigzagged(g).len() && zigzagged(g)[k] == g.at(r, c)
            },
        forall|k: int|
            0 <= k < zigzagged(g).len() ==> {
                let cell = #[trigger] scan_cell(k as nat, g.height() as int, g.width as int);
                g.has(cell.0, cell.1) && zigzagged(g)[k] == g.at(cell.0, cell.1)
            },
{
    lemma_scan_is_bijection(g.height() as int, g.width as int);
}

/// A sequence read through a one-to-one renumbering of its positions holds
/// the same entries, each as often.
proof fn lemma_renumbered_multiset<A>(s: Seq<A>, t: Seq<A>, f: spec_fn(int) -> int)
    requires
        s.len() == t.len(),
        forall|i: int| 0 <= i < t.len() ==> 0 <= #[trigger] f(i) < s.len() && t[i] == s[f(i)],
        forall|i: int, j: int|
            0 <= i < t.len() && 0 <= j < t.len() && #[trigger] f(i) == #[trigger] f(j) ==> i == j,
    ensures
        s.to_multiset() == t.to_multiset(),
    decreases t.len(),
{
    if t.len() == 0 {
        assert(s =~= t);
    } else {
        let last = t.len() - 1;
        let p = f(last);
        let s_rest = s.remove(p);
        let t_rest = t.drop_last();
        let f_rest = |i: int|
            if f(i) < p {
                f(i)
            } else {
                f(i) - 1
            };
        assert forall|i: int| 0 <= i < t_rest.len() implies 0 <= #[trigger] f_rest(i)
            < s_rest.len() && t_rest[i] == s_rest[f_rest(i)] by {
            assert(f(i) != f(last));
        }
        assert forall|i: int, j: int|
            0 <= i < t_rest.len() && 0 <= j < t_rest.len() && #[trigger] f_rest(i)
                == #[trigger] f_rest(j) implies i == j by {
            assert(f(i) != f(last));
            assert(f(j) != f(last));
            assert(f(i) == f(j));
        }
        lemma_renumbered_multiset(s_rest, t_rest, f_rest);
        assert(s =~= s_rest.insert(p, s[p]));
        to_multiset_insert(s_rest, p, s[p]);
        assert(t =~= t_rest.push(t[last]));
        to_multiset_build(t_rest, t[last]);
    }
}

/// The scanned sequence is a permutation of the cells of the block: it
/// holds every value as often as the block does.
pub proof fn lemma_zigzag_is_permutation<T>(g: Grid<T>)
    ensures
        zigzagged(g).to_multiset() == g.flat().to_multiset(),
{
    let rows = g.height() as int;
    let cols = g.width as int;
    let f = |k: int| scan_cell(k as nat, rows, cols).0 * cols + scan_cell(k as nat, rows, cols).1;
    assert forall|k: int| 0 <= k < zigzagged(g).len() implies 0 <= #[trigger] f(k)
        < g.flat().len() && zigzagged(g)[k] == g.flat()[f(k)] by {
        lemma_scan_cell_rank(k as nat, rows, cols);
        let cell = scan_cell(k as nat, rows, cols);
        lemma_flat_position(cell.0, cell.1, rows, cols);
    }
    assert forall|i: int, j: int|
        0 <= i < zigzagged(g).len() && 0 <= j < zigzagged(g).len() && #[trigger] f(i)
            == #[trigger] f(j) implies i == j by {
        lemma_scan_cell_rank(i as nat, rows, cols);
        lemma_scan_cell_rank(j as nat, rows, cols);
        let a = scan_cell(i as nat, rows, cols);
        let b = scan_cell(j as nat, rows, cols);
        lemma_flat_position(a.0, a.1, rows, cols);
        lemma_flat_position(b.0, b.1, rows, cols);
    }
    lemma_renumbered_multiset(g.flat(), zigzagged(g), f);
}

} // verus!
