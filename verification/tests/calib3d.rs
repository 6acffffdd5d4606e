use purecv::calib3d::undistort::{
    check_rectify_map_inputs, check_undistort_points_inputs, dist_coeff_count_valid,
    is_3x3_single_channel, MatShape,
};
use purecv::cvcore::error::PureCvError;

fn shape(rows: usize, cols: usize, channels: usize) -> MatShape {
    MatShape { rows, cols, channels, len: rows * cols * channels }
}

#[test]
fn accepted_distortion_counts() {
    for n in [0usize, 4, 5, 8, 12, 14] {
        assert!(dist_coeff_count_valid(n));
    }
    for n in [1usize, 2, 3, 6, 7, 9, 10, 11, 13, 15] {
        assert!(!dist_coeff_count_valid(n));
    }
}

#[test]
fn three_by_three_shapes() {
    assert!(is_3x3_single_channel(shape(3, 3, 1)));
    assert!(!is_3x3_single_channel(shape(3, 3, 2)));
    assert!(!is_3x3_single_channel(shape(3, 4, 1)));
}

#[test]
fn rectify_map_shape_errors() {
    let k = shape(3, 3, 1);
    assert!(check_rectify_map_inputs(k, k, None).is_ok());
    assert!(check_rectify_map_inputs(k, k, Some(k)).is_ok());
    assert!(matches!(
        check_rectify_map_inputs(shape(2, 3, 1), k, None),
        Err(PureCvError::InvalidDimensions(_))
    ));
    assert!(matches!(
        check_rectify_map_inputs(k, shape(3, 3, 3), None),
        Err(PureCvError::InvalidDimensions(_))
    ));
    assert!(matches!(
        check_rectify_map_inputs(k, k, Some(shape(3, 4, 1))),
        Err(PureCvError::InvalidDimensions(_))
    ));
}

#[test]
fn undistort_points_input_errors() {
    let k = shape(3, 3, 1);
    assert!(check_undistort_points_inputs(k, 4, None, None).is_ok());
    assert!(check_undistort_points_inputs(k, 0, Some(k), Some(shape(3, 4, 1))).is_ok());
    assert!(matches!(
        check_undistort_points_inputs(k, 4, None, Some(shape(3, 5, 1))),
        Err(PureCvError::InvalidDimensions(_))
    ));
    assert!(matches!(
        check_undistort_points_inputs(k, 3, None, None),
        Err(PureCvError::InvalidInput(_))
    ));
    let short = MatShape { rows: 3, cols: 3, channels: 1, len: 8 };
    assert!(matches!(
        check_undistort_points_inputs(short, 4, None, None),
        Err(PureCvError::InvalidInput(_))
    ));
    // A shape error is reported before a coefficient-count error.
    assert!(matches!(
        check_undistort_points_inputs(shape(3, 3, 2), 3, None, None),
        Err(PureCvError::InvalidDimensions(_))
    ));
}
