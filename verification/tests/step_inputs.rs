use snowmelt::step_inputs::{check_initial_swe, check_step_inputs, InputFault};

#[test]
fn time_step_is_checked_first() {
    assert_eq!(
        check_step_inputs(false, true, None, Some(((1, 1), (1, 1))), (2, 2)),
        Err(InputFault::TimeStep)
    );
}

#[test]
fn radiation_required_when_needed() {
    assert_eq!(check_step_inputs(true, true, None, None, (2, 3)), Err(InputFault::MissingRadiation));
    assert_eq!(check_step_inputs(true, false, None, None, (2, 3)), Ok(()));
    assert_eq!(check_step_inputs(true, true, Some((2, 3)), None, (2, 3)), Ok(()));
}

#[test]
fn radiation_grid_shape_checked_before_forcing_grids() {
    assert_eq!(
        check_step_inputs(true, true, Some((3, 2)), Some(((1, 1), (1, 1))), (2, 3)),
        Err(InputFault::ShapeMismatch { expected: (2, 3), got: (3, 2) })
    );
    // a radiation grid given though unneeded is still checked
    assert_eq!(
        check_step_inputs(true, false, Some((3, 2)), None, (2, 3)),
        Err(InputFault::ShapeMismatch { expected: (2, 3), got: (3, 2) })
    );
}

#[test]
fn distributed_grids_checked_temperature_first() {
    assert_eq!(
        check_step_inputs(true, false, None, Some(((2, 2), (2, 2))), (2, 3)),
        Err(InputFault::ShapeMismatch { expected: (2, 3), got: (2, 2) })
    );
    assert_eq!(
        check_step_inputs(true, false, None, Some(((2, 3), (1, 3))), (2, 3)),
        Err(InputFault::ShapeMismatch { expected: (2, 3), got: (1, 3) })
    );
    assert_eq!(check_step_inputs(true, false, None, Some(((2, 3), (2, 3))), (2, 3)), Ok(()));
}

#[test]
fn initial_swe_shape_then_first_bad_cell() {
    assert_eq!(
        check_initial_swe((2, 2), (2, 3), &vec![]),
        Err(InputFault::ShapeMismatch { expected: (2, 2), got: (2, 3) })
    );
    assert_eq!(
        check_initial_swe((2, 2), (2, 2), &vec![true, false, true, false]),
        Err(InputFault::InitialSwe { at: 1 })
    );
    assert_eq!(check_initial_swe((2, 2), (2, 2), &vec![true; 4]), Ok(()));
}
