//! Grid geometry of the terrain derivatives.
use vstd::prelude::*;

verus! {

/// Whether cell `(i, j)` has its whole 3×3 neighbourhood inside a grid of
/// `rows` rows and `cols` columns, that is, it is not on the border.
pub fn is_interior(i: usize, j: usize, rows: usize, cols: usize) -> (b: bool)
    ensures
        b == (1 <= i && i + 1 < rows && 1 <= j && j + 1 < cols),
{
    !(i == 0 || j == 0 || i >= rows || rows - i <= 1 || j >= cols || cols - j <= 1)
}

} // verus!
