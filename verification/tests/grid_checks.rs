use snowmelt::error::{check_nonempty, check_shape, SnowmeltError};
use snowmelt::terrain::is_interior;

#[test]
fn rejects_empty_grid() {
    let err = check_nonempty(0, 4).unwrap_err();
    assert!(matches!(err, SnowmeltError::EmptyGrid));
    assert!(matches!(check_nonempty(3, 0), Err(SnowmeltError::EmptyGrid)));
    assert!(check_nonempty(1, 1).is_ok());
}

#[test]
fn shape_mismatch_reports_both_shapes() {
    assert!(check_shape((3, 4), (3, 4)).is_ok());
    match check_shape((3, 4), (4, 3)) {
        Err(SnowmeltError::ShapeMismatch { expected, got }) => {
            assert_eq!(expected, (3, 4));
            assert_eq!(got, (4, 3));
        }
        other => panic!("unexpected {other:?}"),
    }
}

#[test]
fn interior_cells_exclude_the_border() {
    assert!(is_interior(1, 1, 3, 3));
    assert!(!is_interior(0, 1, 3, 3));
    assert!(!is_interior(2, 1, 3, 3));
    assert!(!is_interior(1, 2, 3, 3));
    assert!(!is_interior(1, 1, 2, 5));
    assert!(!is_interior(5, 5, 3, 3));
}
