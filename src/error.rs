//! The errors that the pipeline reports to its callers.
use vstd::prelude::*;

verus! {

/// Why an operation of the pipeline could not be carried out.
#[derive(Clone, Copy, Debug, PartialEq, Eq, Structural)]
pub enum GeomError {
    /// A matrix operation got operands of incompatible shapes.
    ShapeMismatch,
    /// A matrix element was addressed outside the matrix's shape.
    IndexOutOfBounds,
    /// A zero-length vector was normalized.
    DegenerateVector,
    /// A camera was configured with parameters that cannot project.
    ConfigurationError,
    /// A result left the representable fixed-point range.
    OutOfRange,
}

} // verus!
