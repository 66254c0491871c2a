//! The integer side of running a network on a split: laying an image out
//! as one vector, and counting the predictions that meet their labels.

use crate::error::DimensionError;
use crate::idx::grid_of;
use vstd::prelude::*;

verus! {

/// How many of the first `n` predictions equal the label at their index.
pub open spec fn agreements(predictions: Seq<usize>, labels: Seq<u8>, n: nat) -> nat
    decreases n,
{
    if n == 0 {
        0
    } else {
        agreements(predictions, labels, (n - 1) as nat) + if predictions[n - 1] == labels[n - 1] {
            1nat
        } else {
            0nat
        }
    }
}

/// The pixels of an image in row-major order: its rows, one after the
/// other.
pub fn flatten_image(image: &Vec<Vec<u8>>) -> (pixels: Vec<u8>)
    ensures
        pixels@ == grid_of(*image).flatten(),
{
    let mut pixels: Vec<u8> = Vec::new();
    let mut r: usize = 0;
    while r < image.len()
        invariant
            r <= image@.len(),
            pixels@ == grid_of(*image).subrange(0, r as int).flatten(),
        decreases image@.len() - r,
    {
        proof {
            let done = grid_of(*image).subrange(0, r as int);
            done.lemma_flatten_push(image@[r as int]@);
            assert(done.push(image@[r as int]@) =~= grid_of(*image).subrange(0, r as int + 1));
        }
        pixels.extend_from_slice(image[r].as_slice());
        r = r + 1;
    }
    proof {
        assert(grid_of(*image).subrange(0, r as int) =~= grid_of(*image));
    }
    pixels
}

/// The pixels of an image whose rows all have `cols` bytes are as many as
/// rows times `cols`, and byte `col` of row `row` is the pixel at
/// `row * cols + col`.
pub proof fn lemma_pixel_of_grid(grid: Seq<Seq<u8>>, cols: nat)
    requires
        forall|row: int| 0 <= row < grid.len() ==> (#[trigger] grid[row]).len() == cols,
    ensures
        grid.flatten().len() == grid.len() * cols,
        forall|row: int, col: int|
            0 <= row < grid.len() && 0 <= col < cols ==> grid.flatten()[row * cols + col]
                == #[trigger] grid[row][col],
    decreases grid.len(),
{
    if grid.len() == 0 {
        assert(grid.flatten().len() == grid.len() * cols) by (nonlinear_arith)
            requires
                grid.len() == 0,
                grid.flatten().len() == 0,
        ;
    } else {
        let front = grid.drop_last();
        let rows = grid.len() as int;
        lemma_pixel_of_grid(front, cols);
        front.lemma_flatten_push(grid.last());
        assert(front.push(grid.last()) =~= grid);
        assert(grid.flatten() == front.flatten() + grid.last());
        assert((rows - 1) * cols + cols == rows * cols) by (nonlinear_arith);
        assert forall|row: int, col: int| 0 <= row < rows && 0 <= col < cols implies grid.flatten()[row
            * cols + col] == #[trigger] grid[row][col] by {
            if row < rows - 1 {
                assert(row * cols + col < (rows - 1) * cols) by (nonlinear_arith)
                    requires
                        0 <= row < rows - 1,
                        0 <= col < cols,
                ;
                assert(0 <= row * cols + col) by (nonlinear_arith)
                    requires
                        0 <= row,
                        0 <= col < cols,
                ;
                assert(front[row][col] == grid[row][col]);
            } else {
                assert(row * cols + col == (rows - 1) * cols + col);
                assert(0 <= (rows - 1) * cols) by (nonlinear_arith)
                    requires
                        1 <= rows,
                        0 <= cols,
                ;
            }
        }
    }
}

/// Counts the predictions that equal the label at their index.
///
/// Predictions and labels are paired by index, so lists of different
/// lengths are rejected.
pub fn count_correct(predictions: &[usize], labels: &[u8]) -> (result: Result<
    usize,
    DimensionError,
>)
    ensures
        match result {
            Ok(count) => predictions@.len() == labels@.len() && count == agreements(
                predictions@,
                labels@,
                labels@.len(),
            ),
            Err(e) => predictions@.len() != labels@.len() && e == (DimensionError::Pairing {
                predictions: predictions@.len() as usize,
                labels: labels@.len() as usize,
            }),
        },
{
    if predictions.len() != labels.len() {
        return Err(
            DimensionError::Pairing { predictions: predictions.len(), labels: labels.len() },
        );
    }
    let mut count: usize = 0;
    let mut i: usize = 0;
    while i < labels.len()
        invariant
            predictions@.len() == labels@.len(),
            i <= labels@.len(),
            count <= i,
            count == agreements(predictions@, labels@, i as nat),
        decreases labels@.len() - i,
    {
        if predictions[i] == labels[i] as usize {
            count = count + 1;
        }
        i = i + 1;
    }
    Ok(count)
}

/// No more predictions can agree than there are, and all of them do
/// exactly where each equals its label.
pub proof fn lemma_agreements_bounded(predictions: Seq<usize>, labels: Seq<u8>, n: nat)
    requires
        n <= predictions.len(),
        n <= labels.len(),
    ensures
        agreements(predictions, labels, n) <= n,
        agreements(predictions, labels, n) == n <==> forall|i: int|
            0 <= i < n ==> predictions[i] == labels[i],
    decreases n,
{
    if n > 0 {
        lemma_agreements_bounded(predictions, labels, (n - 1) as nat);
    }
}

} // verus!
