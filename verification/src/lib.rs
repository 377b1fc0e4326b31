//! Transform front end of a block-based still-image coder: colour conversion,
//! chroma subsampling, edge-replicating segmentation into 8x8 blocks and
//! zigzag serialisation of quantised blocks.
//!
//! Sample planes are kept in `ndarray` arrays; every contract is stated over
//! the mathematical [`grid::Grid`] that a plane denotes. The arrays are
//! opaque to Verus: the four calls that the crate makes on each kind of
//! array (`zeros`, `dim` and the two index operators) are stated and not
//! proved, in the modules [`plane`], [`shifted_plane`] and [`coeff_block`].
//! Everything else is proved from those statements.
//!
//! The cosine transform and the quantiser work in floating point and are
//! not part of this library.

pub mod binary64;
pub mod coeff_block;
pub mod colour;
pub mod encode;
pub mod error;
pub mod grid;
pub mod image_buffer;
pub mod plane;
pub mod quantisation_tables;
pub mod scan;
pub mod shifted_plane;
