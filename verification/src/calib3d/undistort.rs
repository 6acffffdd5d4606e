use vstd::prelude::*;

use crate::cvcore::error::{PureCvError, Result};

verus! {

/// The shape of a matrix operand: its rows, columns, channels and number of
/// stored elements.
#[derive(Clone, Copy, Debug)]
pub struct MatShape {
    pub rows: usize,
    pub cols: usize,
    pub channels: usize,
    pub len: usize,
}

/// A 3x3 single-channel matrix, as camera and rotation matrices must be.
pub open spec fn is_3x3(s: MatShape) -> bool {
    s.rows == 3 && s.cols == 3 && s.channels == 1
}

/// A 3x3 or 3x4 single-channel matrix, as a new projection matrix may be.
pub open spec fn is_3x3_or_3x4(s: MatShape) -> bool {
    s.rows == 3 && (s.cols == 3 || s.cols == 4) && s.channels == 1
}

/// The distortion-coefficient counts the pinhole model accepts: none,
/// or `k1, k2, p1, p2` extended to 5, 8, 12 or 14 coefficients.
pub open spec fn dist_count_ok(count: int) -> bool {
    count == 0 || count == 4 || count == 5 || count == 8 || count == 12 || count == 14
}

/// Whether `s` is a 3x3 single-channel shape.
pub fn is_3x3_single_channel(s: MatShape) -> (r: bool)
    ensures
        r == is_3x3(s),
{
    s.rows == 3 && s.cols == 3 && s.channels == 1
}

/// Whether `count` distortion coefficients make a valid pinhole model.
pub fn dist_coeff_count_valid(count: usize) -> (r: bool)
    ensures
        r == dist_count_ok(count as int),
{
    count == 0 || count == 4 || count == 5 || count == 8 || count == 12 || count == 14
}

/// The shape checks of `init_undistort_rectify_map`: the camera matrix, the
/// new camera matrix and the rectification, if any, must all be 3x3
/// single-channel.  The first that is not is reported as
/// `InvalidDimensions`.
pub fn check_rectify_map_inputs(camera: MatShape, new_camera: MatShape, r: Option<MatShape>) -> (res: Result<()>)
    ensures
        res is Ok <==> is_3x3(camera) && is_3x3(new_camera) && (r matches Some(s) ==> is_3x3(s)),
        res is Err ==> res matches Err(PureCvError::InvalidDimensions(_)),
{
    if !is_3x3_single_channel(camera) {
        return Err(PureCvError::InvalidDimensions("camera_matrix must be 3x3 single-channel".to_string()));
    }
    if !is_3x3_single_channel(new_camera) {
        return Err(
            PureCvError::InvalidDimensions("new_camera_matrix must be 3x3 single-channel".to_string()),
        );
    }
    if let Some(s) = r {
        if !is_3x3_single_channel(s) {
            return Err(PureCvError::InvalidDimensions("R must be 3x3 single-channel".to_string()));
        }
    }
    Ok(())
}

/// The checks `undistort_points` makes before any arithmetic, in its order:
/// the camera matrix, the rectification and the projection must have
/// accepted shapes (`InvalidDimensions` otherwise); then the camera matrix
/// must hold nine elements and the coefficient count must be valid
/// (`InvalidInput` otherwise).
pub fn check_undistort_points_inputs(
    camera: MatShape,
    dist_count: usize,
    r: Option<MatShape>,
    p: Option<MatShape>,
) -> (res: Result<()>)
    ensures
        res is Ok <==> is_3x3(camera) && (r matches Some(s) ==> is_3x3(s)) && (p matches Some(s)
            ==> s.rows == 3 && (s.cols == 3 || s.cols == 4) && s.channels == 1) && camera.len == 9
            && dist_count_ok(dist_count as int),
        !(is_3x3(camera) && (r matches Some(s) ==> is_3x3(s)) && (p matches Some(s) ==> s.rows == 3
            && (s.cols == 3 || s.cols == 4) && s.channels == 1)) ==> res matches Err(
            PureCvError::InvalidDimensions(_),
        ),
        (is_3x3(camera) && (r matches Some(s) ==> is_3x3(s)) && (p matches Some(s) ==> s.rows == 3 && (
        s.cols == 3 || s.cols == 4) && s.channels == 1)) && res is Err ==> res matches Err(
            PureCvError::InvalidInput(_),
        ),
        // A projection that is a 3x3 camera matrix, or a 3x4 one, is never the
        // cause of a failure: the answer is the one given without it.
        (p matches Some(s) && s.rows == 3 && s.channels == 1 && (s.cols == 3 || s.cols == 4)) ==> (
        res is Ok <==> is_3x3(camera) && (r matches Some(s) ==> is_3x3(s)) && camera.len == 9
            && dist_count_ok(dist_count as int)),
{
    if !is_3x3_single_channel(camera) {
        return Err(PureCvError::InvalidDimensions("camera_matrix must be 3x3 single-channel".to_string()));
    }
    if let Some(s) = r {
        if !is_3x3_single_channel(s) {
            return Err(PureCvError::InvalidDimensions("R must be 3x3 single-channel".to_string()));
        }
    }
    if let Some(s) = p {
        if s.rows != 3 || (s.cols != 3 && s.cols != 4) || s.channels != 1 {
            return Err(PureCvError::InvalidDimensions("P must be 3x3 or 3x4 single-channel".to_string()));
        }
    }
    if camera.len != 9 {
        return Err(PureCvError::InvalidInput("camera_matrix must contain exactly 9 elements".to_string()));
    }
    if !dist_coeff_count_valid(dist_count) {
        return Err(
            PureCvError::InvalidInput("dist_coeffs must have 4, 5, 8, 12 or 14 elements".to_string()),
        );
    }
    Ok(())
}

} // verus!
