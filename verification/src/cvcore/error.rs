use vstd::prelude::*;

verus! {

/// Errors reported by the library.
#[derive(Debug)]
pub enum PureCvError {
    /// The shapes of the operands do not fit the operation.
    InvalidDimensions(String),
    /// An argument has a value the operation does not accept.
    InvalidInput(String),
    /// An internal invariant did not hold.
    InternalError(String),
}

/// The library's result type.
pub type Result<T> = std::result::Result<T, PureCvError>;

} // verus!
