//! The integer stages of one request: before inference, a sparse request is
//! decoded and flipped; after inference and thresholding, the binary grid is
//! flipped back and encoded as a sparse response.

use vstd::prelude::*;
use crate::matrix::{
    coo_to_flat, coords_valid, dense_of, flat_horizontal_flip, flat_to_coo, flipped, sparse_of,
    CodecError,
};

verus! {

/// Rows of the grid the model was trained on.
pub const GRID_ROWS: usize = 16;

/// Columns of the grid the model was trained on.
pub const GRID_COLS: usize = 16;

/// Decodes a sparse request into a dense grid of `rows` by `cols` cells and
/// flips it horizontally, ready for noise and inference.
pub fn prepare_input(coords: Vec<usize>, rows: usize, cols: usize) -> (r: Result<
    Vec<usize>,
    CodecError,
>)
    requires
        rows * cols <= usize::MAX,
    ensures
        coords_valid(coords@, rows as nat, cols as nat) ==> r is Ok && r->Ok_0@ == flipped(
            dense_of(coords@, rows as nat, cols as nat),
            cols as nat,
        ),
        !coords_valid(coords@, rows as nat, cols as nat) ==> r == Err::<Vec<usize>, CodecError>(
            CodecError::InvalidEncoding,
        ),
{
    let dense = match coo_to_flat(coords, rows, cols) {
        Ok(d) => d,
        Err(e) => {
            return Err(e);
        },
    };
    assert(dense@.len() == rows * cols);
    match flat_horizontal_flip(dense, rows, cols) {
        Ok(f) => Ok(f),
        Err(e) => Err(e),
    }
}

/// Flips a thresholded grid of `rows` by `cols` cells back and encodes it as
/// the sparse response.
pub fn finish_output(binary: Vec<usize>, rows: usize, cols: usize) -> (r: Result<
    Vec<usize>,
    CodecError,
>)
    ensures
        binary@.len() == rows * cols ==> r is Ok && r->Ok_0@ == sparse_of(flipped(binary@, cols as nat), cols as nat),
        binary@.len() != rows * cols ==> r == Err::<Vec<usize>, CodecError>(
            CodecError::ShapeMismatch,
        ),
{
    let back = match flat_horizontal_flip(binary, rows, cols) {
        Ok(f) => f,
        Err(e) => {
            return Err(e);
        },
    };
    flat_to_coo(back, rows, cols)
}

} // verus!
