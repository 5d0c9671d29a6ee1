use vstd::prelude::*;

verus! {

/// Why an operation on grids or grid functions could not be carried out.
#[derive(Clone, Copy, Debug, PartialEq, Eq, Structural)]
pub enum GridError {
    /// The grid has too few points for the operation (a derivative needs
    /// two, the Newton update needs three).
    InvalidDomain,
    /// Two grid functions that are combined point by point differ in length.
    ShapeMismatch,
    /// The residual function produced a value that is not finite.
    ResidualEvaluationError,
}

} // verus!
