//! The three planes of an image in YCbCr 4:2:0, made from an RGB raster.
use vstd::prelude::*;
use crate::colour::{
    chroma_blue, chroma_red, chroma_subsample, level_shift, level_shifted, luma, rgb_to_ycbcr,
    subsampled,
};
use crate::error::EncodeError;
use crate::grid::{addressable, lemma_flat_position, Grid};
use crate::plane::Plane;
use crate::shifted_plane::ShiftedPlane;

verus! {

/// An image as luma at full resolution and the two chroma planes at half
/// resolution, rounded up, all level-shifted.
pub struct YcbcrImage {
    pub y: ShiftedPlane,
    pub cb: ShiftedPlane,
    pub cr: ShiftedPlane,
}

/// The pixel in row `i`, column `j` of a raster of `width` columns whose
/// bytes are red, green and blue of one pixel after the other, row by row.
pub open spec fn pixel_at(data: Seq<u8>, width: nat, i: int, j: int) -> (u8, u8, u8) {
    (data[3 * (i * width + j)], data[3 * (i * width + j) + 1], data[3 * (i * width + j) + 2])
}

/// Whether `data` is a raster of `width` by `height` pixels of three bytes
/// each, of a shape that ndarray can hold.
pub open spec fn is_raster(width: nat, height: nat, data: Seq<u8>) -> bool {
    data.len() == 3 * (height * width) && addressable(height as int, width as int, 1)
}

/// The luma of every pixel of the raster.
pub open spec fn luma_plane(width: nat, height: nat, data: Seq<u8>) -> Grid<u8> {
    Grid::tabulate(
        height,
        width,
        |i: int, j: int|
            luma(
                pixel_at(data, width, i, j).0,
                pixel_at(data, width, i, j).1,
                pixel_at(data, width, i, j).2,
            ) as u8,
    )
}

/// The blue-difference chroma of every pixel of the raster.
pub open spec fn chroma_blue_plane(width: nat, height: nat, data: Seq<u8>) -> Grid<u8> {
    Grid::tabulate(
        height,
        width,
        |i: int, j: int|
            chroma_blue(
                pixel_at(data, width, i, j).0,
                pixel_at(data, width, i, j).1,
                pixel_at(data, width, i, j).2,
            ) as u8,
    )
}

/// The red-difference chroma of every pixel of the raster.
pub open spec fn chroma_red_plane(width: nat, height: nat, data: Seq<u8>) -> Grid<u8> {
    Grid::tabulate(
        height,
        width,
        |i: int, j: int|
            chroma_red(
                pixel_at(data, width, i, j).0,
                pixel_at(data, width, i, j).1,
                pixel_at(data, width, i, j).2,
            ) as u8,
    )
}

impl YcbcrImage {
    /// The three planes are rectangular, and each chroma plane has half the
    /// extent of the luma plane, rounded up.
    pub open spec fn wf(&self) -> bool {
        &&& self.y@.wf()
        &&& self.cb@.wf()
        &&& self.cr@.wf()
        &&& self.cb@.height() == (self.y@.height() + 1) / 2
        &&& self.cb@.width == (self.y@.width + 1) / 2
        &&& self.cr@.height() == self.cb@.height()
        &&& self.cr@.width == self.cb@.width
    }

    /// Converts a raster of `width` by `height` RGB pixels, three bytes a
    /// pixel and row by row, to YCbCr: luma at every pixel, each chroma
    /// plane subsampled by two in both directions, every plane level-shifted.
    ///
    /// Fails with `InvalidShape` exactly when `data` is not such a raster.
    pub fn from_rgb8(width: usize, height: usize, data: &[u8]) -> (made: Result<
        YcbcrImage,
        EncodeError,
    >)
        ensures
            made is Ok <==> is_raster(width as nat, height as nat, data@),
            made matches Ok(image) ==> {
                &&& image.wf()
                &&& image.y@.height() == height
                &&& image.y@.width == width
                &&& image.y@ == level_shifted(luma_plane(width as nat, height as nat, data@))
                &&& image.cb@ == level_shifted(
                    subsampled(chroma_blue_plane(width as nat, height as nat, data@)),
                )
                &&& image.cr@ == level_shifted(
                    subsampled(chroma_red_plane(width as nat, height as nat, data@)),
                )
            },
            made matches Err(e) ==> e == EncodeError::InvalidShape,
    {
        let limit: usize = isize::MAX as usize;
        let len: usize = data.len();
        if width > limit || height > limit {
            return Err(EncodeError::InvalidShape);
        }
        let pixels: usize = match height.checked_mul(width) {
            Some(n) => n,
            None => {
                return Err(EncodeError::InvalidShape);
            },
        };
        let bytes: usize = match pixels.checked_mul(3) {
            Some(n) => n,
            None => {
                return Err(EncodeError::InvalidShape);
            },
        };
        if pixels > limit || bytes != len {
            return Err(EncodeError::InvalidShape);
        }
        let mut y_mat = Plane::zeroed(height, width);
        let mut cb_mat = Plane::zeroed(height, width);
        let mut cr_mat = Plane::zeroed(height, width);
        let ghost want_y = luma_plane(width as nat, height as nat, data@);
        let ghost want_cb = chroma_blue_plane(width as nat, height as nat, data@);
        let ghost want_cr = chroma_red_plane(width as nat, height as nat, data@);
        let mut i: usize = 0;
        while i < height
            invariant
                i <= height,
                data@.len() == 3 * (height * width),
                data@.len() <= usize::MAX,
                want_y == luma_plane(width as nat, height as nat, data@),
                want_cb == chroma_blue_plane(width as nat, height as nat, data@),
                want_cr == chroma_red_plane(width as nat, height as nat, data@),
                y_mat@.filled_before(want_y, i as int, 0),
                cb_mat@.filled_before(want_cb, i as int, 0),
                cr_mat@.filled_before(want_cr, i as int, 0),
            decreases height - i,
        {
            let mut j: usize = 0;
            while j < width
                invariant
                    i < height,
                    j <= width,
                    data@.len() == 3 * (height * width),
                    data@.len() <= usize::MAX,
                    want_y == luma_plane(width as nat, height as nat, data@),
                    want_cb == chroma_blue_plane(width as nat, height as nat, data@),
                    want_cr == chroma_red_plane(width as nat, height as nat, data@),
                    y_mat@.filled_before(want_y, i as int, j as int),
                    cb_mat@.filled_before(want_cb, i as int, j as int),
                    cr_mat@.filled_before(want_cr, i as int, j as int),
                decreases width - j,
            {
                proof {
                    lemma_flat_position(i as int, j as int, height as int, width as int);
                    y_mat@.lemma_fill_cell(want_y, i as int, j as int);
                    cb_mat@.lemma_fill_cell(want_cb, i as int, j as int);
                    cr_mat@.lemma_fill_cell(want_cr, i as int, j as int);
                }
                let at: usize = 3 * (i * width + j);
                let (y, cb, cr) = rgb_to_ycbcr(data[at], data[at + 1], data[at + 2]);
                y_mat.put(i, j, y);
                cb_mat.put(i, j, cb);
                cr_mat.put(i, j, cr);
                j += 1;
            }
            proof {
                y_mat@.lemma_fill_row(want_y, i as int);
                cb_mat@.lemma_fill_row(want_cb, i as int);
                cr_mat@.lemma_fill_row(want_cr, i as int);
            }
            i += 1;
        }
        proof {
            y_mat@.lemma_fill_done(want_y);
            cb_mat@.lemma_fill_done(want_cb);
            cr_mat@.lemma_fill_done(want_cr);
        }
        let cb_half = chroma_subsample(&cb_mat);
        let cr_half = chroma_subsample(&cr_mat);
        Ok(
            YcbcrImage {
                y: level_shift(&y_mat),
                cb: level_shift(&cb_half),
                cr: level_shift(&cr_half),
            },
        )
    }
}

} // verus!
