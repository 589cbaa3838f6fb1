//! Errors of the snow model, and the grid-shape checks that raise them.
use vstd::prelude::*;

verus! {

/// Errors produced by the snow model.
#[derive(Debug)]
pub enum SnowmeltError {
    /// A grid does not match the DEM shape; shapes are `(rows, cols)`.
    ShapeMismatch { expected: (usize, usize), got: (usize, usize) },
    /// A parameter or input value is out of its valid domain.
    InvalidParameter { name: &'static str, reason: String },
    /// The DEM has zero rows or columns.
    EmptyGrid,
}

/// Checks that a grid of shape `got` matches the shape `expected`.
pub fn check_shape(expected: (usize, usize), got: (usize, usize)) -> (r: Result<
    (),
    SnowmeltError,
>)
    ensures
        r is Ok <==> expected == got,
        r is Err ==> r == Err::<(), SnowmeltError>(SnowmeltError::ShapeMismatch { expected, got }),
{
    if expected.0 != got.0 || expected.1 != got.1 {
        return Err(SnowmeltError::ShapeMismatch { expected, got });
    }
    Ok(())
}

/// Checks that a DEM of `rows` rows and `cols` columns has at least one cell.
pub fn check_nonempty(rows: usize, cols: usize) -> (r: Result<(), SnowmeltError>)
    ensures
        r is Ok <==> rows > 0 && cols > 0,
        r is Err ==> r == Err::<(), SnowmeltError>(SnowmeltError::EmptyGrid),
{
    if rows == 0 || cols == 0 {
        return Err(SnowmeltError::EmptyGrid);
    }
    Ok(())
}

} // verus!
