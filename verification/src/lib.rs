//! Pure integer image and matrix kernels with machine-checked contracts.

pub mod cvcore;
pub mod calib3d;
