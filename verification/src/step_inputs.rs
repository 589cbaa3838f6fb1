//! The order in which the snow model checks the inputs of a run: a step's
//! time step, radiation grid and forcing grids, and an initial snowpack.
//!
//! The checks that compare real numbers (a finite, positive time step; a
//! finite, non-negative snow water equivalent) are made by the caller and
//! arrive here as flags; which fault is reported, and when, is decided here.
use vstd::prelude::*;

verus! {

/// Why the inputs of a step or of an initial snowpack are refused.
#[derive(Debug, PartialEq, Eq)]
pub enum InputFault {
    /// The time step is not finite and positive.
    TimeStep,
    /// The melt needs a radiation grid and none is given.
    MissingRadiation,
    /// A grid of shape `got` where the DEM has shape `expected`.
    ShapeMismatch { expected: (usize, usize), got: (usize, usize) },
    /// The initial snow water equivalent of valid cell `at` (row-major) is
    /// negative or not finite.
    InitialSwe { at: usize },
}

/// The first fault of a step's inputs, in the order the model checks them:
/// the time step, the presence of a needed radiation grid, the radiation
/// grid's shape, then the shapes of distributed temperature and
/// precipitation grids.
pub open spec fn step_fault(
    dt_ok: bool,
    needs_radiation: bool,
    radiation: Option<(usize, usize)>,
    grids: Option<((usize, usize), (usize, usize))>,
    shape: (usize, usize),
) -> Option<InputFault> {
    if !dt_ok {
        Some(InputFault::TimeStep)
    } else if needs_radiation && radiation is None {
        Some(InputFault::MissingRadiation)
    } else if radiation matches Some(r) && r != shape {
        Some(InputFault::ShapeMismatch { expected: shape, got: radiation->0 })
    } else {
        match grids {
            Some((t, p)) => if t != shape {
                Some(InputFault::ShapeMismatch { expected: shape, got: t })
            } else if p != shape {
                Some(InputFault::ShapeMismatch { expected: shape, got: p })
            } else {
                None
            },
            None => None,
        }
    }
}

fn same_shape(a: (usize, usize), b: (usize, usize)) -> (r: bool)
    ensures
        r == (a == b),
{
    a.0 == b.0 && a.1 == b.1
}

/// Checks a step's inputs: whether the time step is finite and positive,
/// whether the melt needs radiation, the radiation grid's shape if one is
/// given, and the temperature and precipitation grids' shapes if the
/// forcing is distributed, against the DEM's `shape`.
pub fn check_step_inputs(
    dt_ok: bool,
    needs_radiation: bool,
    radiation: Option<(usize, usize)>,
    grids: Option<((usize, usize), (usize, usize))>,
    shape: (usize, usize),
) -> (r: Result<(), InputFault>)
    ensures
        match r {
            Ok(()) => step_fault(dt_ok, needs_radiation, radiation, grids, shape) is None,
            Err(f) => step_fault(dt_ok, needs_radiation, radiation, grids, shape) == Some(f),
        },
{
    if !dt_ok {
        return Err(InputFault::TimeStep);
    }
    if needs_radiation && radiation.is_none() {
        return Err(InputFault::MissingRadiation);
    }
    if let Some(r) = radiation {
        if !same_shape(r, shape) {
            return Err(InputFault::ShapeMismatch { expected: shape, got: r });
        }
    }
    if let Some((t, p)) = grids {
        if !same_shape(t, shape) {
            return Err(InputFault::ShapeMismatch { expected: shape, got: t });
        }
        if !same_shape(p, shape) {
            return Err(InputFault::ShapeMismatch { expected: shape, got: p });
        }
    }
    Ok(())
}

/// The first cell, at or after `k`, whose flag is down.
pub open spec fn first_down(flags: Seq<bool>, k: nat) -> Option<nat>
    decreases flags.len() - k,
{
    if k >= flags.len() {
        None
    } else if !flags[k as int] {
        Some(k)
    } else {
        first_down(flags, (k + 1) as nat)
    }
}

/// The fault of an initial snowpack of shape `got` on a DEM of shape
/// `shape`, where `cell_ok[i]` tells whether cell `i` (row-major) is nodata
/// or holds a finite, non-negative snow water equivalent: the shape first,
/// then the first cell that is not.
pub open spec fn initial_swe_fault(shape: (usize, usize), got: (usize, usize), cell_ok: Seq<bool>) -> Option<
    InputFault,
> {
    if got != shape {
        Some(InputFault::ShapeMismatch { expected: shape, got })
    } else {
        match first_down(cell_ok, 0) {
            Some(i) => Some(InputFault::InitialSwe { at: i as usize }),
            None => None,
        }
    }
}

/// Checks an initial snowpack against the DEM: its shape, then each cell.
pub fn check_initial_swe(shape: (usize, usize), got: (usize, usize), cell_ok: &Vec<bool>) -> (r:
    Result<(), InputFault>)
    ensures
        match r {
            Ok(()) => initial_swe_fault(shape, got, cell_ok@) is None,
            Err(f) => initial_swe_fault(shape, got, cell_ok@) == Some(f),
        },
{
    if !same_shape(got, shape) {
        return Err(InputFault::ShapeMismatch { expected: shape, got });
    }
    let mut i: usize = 0;
    while i < cell_ok.len()
        invariant
            i <= cell_ok@.len(),
            got == shape,
            first_down(cell_ok@, 0) == first_down(cell_ok@, i as nat),
        decreases cell_ok.len() - i,
    {
        if !cell_ok[i] {
            return Err(InputFault::InitialSwe { at: i });
        }
        i += 1;
    }
    Ok(())
}

} // verus!
