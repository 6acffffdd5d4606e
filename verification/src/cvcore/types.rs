use vstd::prelude::*;

verus! {

/// A four-component value, one entry per channel.
pub struct Scalar<T> {
    pub v: [T; 4],
}

/// The element depths a matrix can have.
#[derive(Clone, Copy, Debug, PartialEq, Eq, Structural)]
pub enum Depth {
    U8,
    I8,
    U16,
    I16,
    I32,
    U32,
    I64,
    U64,
    F32,
    F64,
}

impl Depth {
    /// Whether the library has SIMD kernels for elements of this depth:
    /// `u8` and the two floating-point depths.
    pub open spec fn spec_has_simd(self) -> bool {
        self is U8 || self is F32 || self is F64
    }

    /// Whether the library has SIMD kernels for elements of this depth.
    pub fn has_simd(self) -> (r: bool)
        ensures
            r == self.spec_has_simd(),
    {
        match self {
            Depth::U8 => true,
            Depth::F32 => true,
            Depth::F64 => true,
            _ => false,
        }
    }
}

} // verus!
