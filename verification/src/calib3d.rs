//! Camera calibration and 3-D geometry: the integer decisions of the
//! undistortion routines.

pub mod undistort;
