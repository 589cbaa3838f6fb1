//! Verified core of the snowmelt tools: the text formats they read (ESRI
//! ASCII grids, the forcing series, `YYYY-MM-DD` dates and `SIM:OBS`
//! pairs), the cover-validation confusion matrix, and the grid checks of
//! the snow model.
use vstd::prelude::*;

pub mod asc;
pub mod coupling;
pub mod date;
pub mod error;
pub mod forcing_csv;
pub mod run_config;
pub mod step_inputs;
pub mod terrain;
pub mod text;
pub mod validate;

verus! {

} // verus!
