use snowmelt::run_config::{check_radiation_inputs, plan_forcing, ConfigError, FieldSource, ForcingPlan};

#[test]
fn radiation_needs_a_latitude() {
    assert_eq!(check_radiation_inputs(true, false), Err(ConfigError::MissingLatitude));
    assert!(check_radiation_inputs(true, true).is_ok());
    assert!(check_radiation_inputs(false, false).is_ok());
}

#[test]
fn downscaling_excludes_grids() {
    assert_eq!(plan_forcing(true, false, true), Err(ConfigError::DownscaleWithGrids));
    assert_eq!(plan_forcing(false, true, true), Err(ConfigError::DownscaleWithGrids));
}

#[test]
fn each_field_takes_its_source() {
    assert_eq!(
        plan_forcing(false, false, false),
        Ok(ForcingPlan { distributed: false, temp: FieldSource::Extrapolated, precip: FieldSource::Extrapolated })
    );
    assert_eq!(
        plan_forcing(false, true, false),
        Ok(ForcingPlan { distributed: true, temp: FieldSource::Extrapolated, precip: FieldSource::Grids })
    );
    assert_eq!(
        plan_forcing(true, true, false),
        Ok(ForcingPlan { distributed: true, temp: FieldSource::Grids, precip: FieldSource::Grids })
    );
    assert_eq!(
        plan_forcing(false, false, true),
        Ok(ForcingPlan { distributed: true, temp: FieldSource::Downscaled, precip: FieldSource::Downscaled })
    );
}
