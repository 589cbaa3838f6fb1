//! Consistency rules of a simulation run's options: which inputs the
//! radiation term needs, and where each forcing field comes from.
use vstd::prelude::*;

verus! {

/// Why a combination of run options is refused.
#[derive(Debug, Clone, Copy, PartialEq, Eq, Structural)]
pub enum ConfigError {
    /// The radiative or energy-balance melt needs a latitude.
    MissingLatitude,
    /// Topographic downscaling and external grids both define the
    /// distributed forcing.
    DownscaleWithGrids,
}

/// Where a distributed forcing field comes from.
#[derive(Debug, Clone, Copy, PartialEq, Eq, Structural)]
pub enum FieldSource {
    /// A daily grid file per date.
    Grids,
    /// The topographic downscaler applied to the series value.
    Downscaled,
    /// The series value extrapolated over the DEM (lapse rate for
    /// temperature, orographic gradient for precipitation).
    Extrapolated,
}

/// How a run builds its forcing: uniform (series value with the model's
/// own extrapolation) unless some field is distributed, and then the source
/// of each field.
#[derive(Debug, Clone, Copy, PartialEq, Eq, Structural)]
pub struct ForcingPlan {
    pub distributed: bool,
    pub temp: FieldSource,
    pub precip: FieldSource,
}

/// Checks that a run whose melt needs radiation has a latitude to compute
/// it.
pub fn check_radiation_inputs(needs_radiation: bool, has_latitude: bool) -> (r: Result<
    (),
    ConfigError,
>)
    ensures
        r is Ok <==> (!needs_radiation || has_latitude),
        r is Err ==> r == Err::<(), ConfigError>(ConfigError::MissingLatitude),
{
    if needs_radiation && !has_latitude {
        return Err(ConfigError::MissingLatitude);
    }
    Ok(())
}

/// The source of one field: its grids where given, else the downscaler
/// where enabled, else the extrapolated series value.
pub open spec fn source_of(grids: bool, downscale: bool) -> FieldSource {
    if grids {
        FieldSource::Grids
    } else if downscale {
        FieldSource::Downscaled
    } else {
        FieldSource::Extrapolated
    }
}

/// Plans the forcing of a run from the options given: temperature grids,
/// precipitation grids, topographic downscaling. Downscaling excludes
/// external grids.
pub fn plan_forcing(temp_grids: bool, precip_grids: bool, downscale: bool) -> (r: Result<
    ForcingPlan,
    ConfigError,
>)
    ensures
        r is Err <==> downscale && (temp_grids || precip_grids),
        r is Err ==> r == Err::<ForcingPlan, ConfigError>(ConfigError::DownscaleWithGrids),
        r matches Ok(p) ==> {
            &&& p.distributed == (temp_grids || precip_grids || downscale)
            &&& p.temp == source_of(temp_grids, downscale)
            &&& p.precip == source_of(precip_grids, downscale)
        },
{
    if downscale && (temp_grids || precip_grids) {
        return Err(ConfigError::DownscaleWithGrids);
    }
    let temp = if temp_grids {
        FieldSource::Grids
    } else if downscale {
        FieldSource::Downscaled
    } else {
        FieldSource::Extrapolated
    };
    let precip = if precip_grids {
        FieldSource::Grids
    } else if downscale {
        FieldSource::Downscaled
    } else {
        FieldSource::Extrapolated
    };
    Ok(ForcingPlan { distributed: temp_grids || precip_grids || downscale, temp, precip })
}

} // verus!
