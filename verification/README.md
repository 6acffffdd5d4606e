# purecv

A small computer-vision core in Rust whose integer logic is verified with
Verus.

## Layout

- `src/` — the verified library.
  - `cvcore/matrix.rs`: the dense `Matrix<T>` (rows, cols, channels, row-major
    data) with its shape model and checked element access.
  - `cvcore/element.rs`: the `Element` trait over the integer element types,
    whose arithmetic and bitwise operations are specified over their
    mathematical values.
  - `cvcore/arithm.rs`: element-wise arithmetic and bitwise operations, identity,
    trace, dot and cross products, range checks, and the algebraic laws that
    relate them.
  - `cvcore/gemm.rs`: index arithmetic and exact integer terms of the general
    matrix product, with its transposition flags.
  - `cvcore/simd.rs`: the `SimdElement` kernels for `u8` (saturating add and
    subtract, min, max, sum, threshold) and the grey conversions, run through
    runtime CPU-feature dispatch.
  - `calib3d/undistort.rs`: the input checks of undistortion and rectification.
- `app/` — the floating-point parts (Levenberg–Marquardt, distortion models,
  float kernels, dynamic matrices) that call into the library.
- `tests/` — tests of the library's public functions.
