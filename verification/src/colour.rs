//! Colour conversion from 8-bit RGB to YCbCr, level shift and 4:2:0 chroma
//! subsampling.
use vstd::prelude::*;
use crate::binary64::{lemma_spacing_bounds, nearest, round_nearest};
use crate::grid::Grid;
use crate::plane::Plane;
use crate::shifted_plane::ShiftedPlane;

verus! {

/// The binary64 number nearest to 0.299, in units of `2^-56`.
pub const LUMA_RED: u128 = 21_545_220_617_340_452;

/// The binary64 number nearest to 0.587, in units of `2^-56`.
pub const LUMA_GREEN: u128 = 42_297_807_700_263_696;

/// The binary64 number nearest to 0.114, in units of `2^-56`.
pub const LUMA_BLUE: u128 = 8_214_565_720_323_785;

/// Two to the power 56: the number of luma units in one.
pub const LUMA_UNIT: u128 = 0x100_0000_0000_0000;

/// The weighted sum `0.299 r + 0.587 g + 0.114 b` as binary64 arithmetic
/// gives it, in units of `2^-56`: each product is rounded, then each of the
/// two additions, from left to right.
pub open spec fn luma_sum(r: u8, g: u8, b: u8) -> nat {
    let red = nearest((LUMA_RED * r) as nat);
    let green = nearest((LUMA_GREEN * g) as nat);
    let blue = nearest((LUMA_BLUE * b) as nat);
    nearest(nearest(red + green) + blue)
}

/// Luma of a pixel: the binary64 weighted sum, truncated to an integer.
pub open spec fn luma(r: u8, g: u8, b: u8) -> int {
    luma_sum(r, g, b) as int / LUMA_UNIT as int
}

/// Blue-difference chroma of a pixel:
/// `-0.16874 r - 0.33126 g + 0.5 b + 128`, truncated to an integer. The sum
/// is at least one half, so that truncation is the floor.
pub open spec fn chroma_blue(r: u8, g: u8, b: u8) -> int {
    (12_800_000 - 16_874 * r - 33_126 * g + 50_000 * b) / 100_000
}

/// Red-difference chroma of a pixel:
/// `0.5 r - 0.41869 g - 0.08131 b + 128`, truncated to an integer. The sum
/// is at least one half, so that truncation is the floor.
pub open spec fn chroma_red(r: u8, g: u8, b: u8) -> int {
    (12_800_000 + 50_000 * r - 41_869 * g - 8_131 * b) / 100_000
}

/// The binary64 weighted sum stays within a few thousand units of the sum
/// of the three exact products.
pub proof fn lemma_luma_sum_bounds(r: u8, g: u8, b: u8)
    ensures
        LUMA_RED * r + LUMA_GREEN * g + LUMA_BLUE * b <= luma_sum(r, g, b) + 8192,
        luma_sum(r, g, b) <= LUMA_RED * r + LUMA_GREEN * g + LUMA_BLUE * b + 8192,
{
    let pr = (LUMA_RED * r) as nat;
    let pg = (LUMA_GREEN * g) as nat;
    let pb = (LUMA_BLUE * b) as nat;
    let red = nearest(pr);
    let green = nearest(pg);
    let blue = nearest(pb);
    let first = nearest(red + green);
    lemma_spacing_bounds(pr);
    lemma_spacing_bounds(pg);
    lemma_spacing_bounds(pb);
    lemma_spacing_bounds(red + green);
    lemma_spacing_bounds(first + blue);
}

/// All three components of every pixel fit in eight bits.
pub proof fn lemma_components_in_range(r: u8, g: u8, b: u8)
    ensures
        0 <= luma(r, g, b) <= 255,
        0 <= chroma_blue(r, g, b) <= 255,
        0 <= chroma_red(r, g, b) <= 255,
{
    lemma_luma_sum_bounds(r, g, b);
}

/// Luma is the integer part of the exact weighted sum
/// `(299 r + 587 g + 114 b) / 1000`, except that binary64 rounding may leave
/// the sum just below an integer that the exact sum reaches: then luma is
/// one less.
pub proof fn lemma_luma_follows_weights(r: u8, g: u8, b: u8)
    ensures
        (299 * r + 587 * g + 114 * b) % 1000 != 0 ==> luma(r, g, b) == (299 * r + 587 * g + 114
            * b) / 1000,
        (299 * r + 587 * g + 114 * b) / 1000 - 1 <= luma(r, g, b) <= (299 * r + 587 * g + 114 * b)
            / 1000,
{
    lemma_luma_sum_bounds(r, g, b);
}

/// Converts one RGB pixel to YCbCr.
///
/// Luma is evaluated as binary64 arithmetic evaluates it; the two chroma
/// components are the floors of the exact sums, from which the binary64
/// evaluation differs for no pixel.
pub fn rgb_to_ycbcr(r: u8, g: u8, b: u8) -> (ycbcr: (u8, u8, u8))
    ensures
        ycbcr.0 == luma(r, g, b),
        ycbcr.1 == chroma_blue(r, g, b),
        ycbcr.2 == chroma_red(r, g, b),
{
    let red: u128 = round_nearest(LUMA_RED * (r as u128));
    let green: u128 = round_nearest(LUMA_GREEN * (g as u128));
    let blue: u128 = round_nearest(LUMA_BLUE * (b as u128));
    let first: u128 = round_nearest(red + green);
    let sum: u128 = round_nearest(first + blue);
    let y: u128 = sum / LUMA_UNIT;
    proof {
        lemma_components_in_range(r, g, b);
    }

    let rr: u32 = r as u32;
    let gg: u32 = g as u32;
    let bb: u32 = b as u32;
    let cb: u32 = (12_800_000 + 50_000 * bb - 16_874 * rr - 33_126 * gg) / 100_000;
    let cr: u32 = (12_800_000 + 50_000 * rr - 41_869 * gg - 8_131 * bb) / 100_000;
    (y as u8, cb as u8, cr as u8)
}

/// A sample recentred from `0..=255` to `-128..=127`.
pub open spec fn shifted(s: u8) -> i8 {
    (s - 128) as i8
}

/// A plane with every sample recentred.
pub open spec fn level_shifted(g: Grid<u8>) -> Grid<i8> {
    Grid::tabulate(g.height(), g.width, |i: int, j: int| shifted(g.at(i, j)))
}

/// Every second sample of every second row, starting with the first: cell
/// `(i, j)` of the result is cell `(2i, 2j)` of `g`, and an odd extent is
/// rounded up.
pub open spec fn subsampled<T>(g: Grid<T>) -> Grid<T> {
    Grid::tabulate(
        (g.height() + 1) / 2,
        (g.width + 1) / 2,
        |i: int, j: int| g.at(2 * i, 2 * j),
    )
}

/// Adding 128 to a shifted sample gives the sample back.
pub proof fn lemma_level_shift_round_trip(s: u8)
    ensures
        shifted(s) + 128 == s,
        -128 <= shifted(s) <= 127,
{
}

/// Subsampling halves each extent, rounding up, and reads only cells that
/// the plane has.
pub proof fn lemma_subsampled_shape<T>(g: Grid<T>)
    ensures
        subsampled(g).wf(),
        subsampled(g).height() == (g.height() + 1) / 2,
        subsampled(g).width == (g.width + 1) / 2,
        g.height() == 0 && g.width == 0 ==> subsampled(g).height() == 0 && subsampled(g).width
            == 0,
        forall|i: int, j: int| #[trigger]
            subsampled(g).has(i, j) ==> g.has(2 * i, 2 * j) && subsampled(g).at(i, j) == g.at(
                2 * i,
                2 * j,
            ),
{
}

/// Recentres one sample.
fn shift_sample(s: u8) -> (v: i8)
    ensures
        v == shifted(s),
{
    (s as i16 - 128) as i8
}

/// Subtracts 128 from every sample of the plane.
pub fn level_shift(layer: &Plane) -> (out: ShiftedPlane)
    ensures
        out@ == level_shifted(layer@),
{
    let (rows, cols) = layer.extent();
    let mut out = ShiftedPlane::zeroed(rows, cols);
    let ghost want = level_shifted(layer@);
    let mut i: usize = 0;
    while i < rows
        invariant
            i <= rows,
            rows == layer@.height(),
            cols == layer@.width,
            layer@.wf(),
            want == level_shifted(layer@),
            out@.filled_before(want, i as int, 0),
        decreases rows - i,
    {
        let mut j: usize = 0;
        while j < cols
            invariant
                i < rows,
                j <= cols,
                rows == layer@.height(),
                cols == layer@.width,
                layer@.wf(),
                want == level_shifted(layer@),
                out@.filled_before(want, i as int, j as int),
            decreases cols - j,
        {
            proof {
                out@.lemma_fill_cell(want, i as int, j as int);
            }
            out.put(i, j, shift_sample(layer.get(i, j)));
            j += 1;
        }
        proof {
            out@.lemma_fill_row(want, i as int);
        }
        i += 1;
    }
    proof {
        out@.lemma_fill_done(want);
    }
    out
}

/// Applies 4:2:0 chroma subsampling by point decimation: keeps the top
/// left sample of every group of two by two.
pub fn chroma_subsample(layer: &Plane) -> (out: Plane)
    ensures
        out@ == subsampled(layer@),
{
    let (rows, cols) = layer.extent();
    let half_rows: usize = rows / 2 + rows % 2;
    let half_cols: usize = cols / 2 + cols % 2;
    proof {
        assert(half_rows * half_cols <= rows * cols) by (nonlinear_arith)
            requires
                0 <= half_rows <= rows,
                0 <= half_cols <= cols,
        ;
    }
    let mut out = Plane::zeroed(half_rows, half_cols);
    let ghost want = subsampled(layer@);
    let mut i: usize = 0;
    while i < half_rows
        invariant
            i <= half_rows,
            rows == layer@.height(),
            cols == layer@.width,
            half_rows == (rows + 1) / 2,
            half_cols == (cols + 1) / 2,
            layer@.wf(),
            want == subsampled(layer@),
            out@.filled_before(want, i as int, 0),
        decreases half_rows - i,
    {
        let mut j: usize = 0;
        while j < half_cols
            invariant
                i < half_rows,
                j <= half_cols,
                rows == layer@.height(),
                cols == layer@.width,
                half_rows == (rows + 1) / 2,
                half_cols == (cols + 1) / 2,
                layer@.wf(),
                want == subsampled(layer@),
                out@.filled_before(want, i as int, j as int),
            decreases half_cols - j,
        {
            proof {
                out@.lemma_fill_cell(want, i as int, j as int);
            }
            out.put(i, j, layer.get(2 * i, 2 * j));
            j += 1;
        }
        proof {
            out@.lemma_fill_row(want, i as int);
        }
        i += 1;
    }
    proof {
        out@.lemma_fill_done(want);
    }
    out
}

} // verus!
