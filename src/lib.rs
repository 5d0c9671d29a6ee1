//! One-dimensional grids, functions sampled on them, finite-difference
//! derivative operators and a Newton solver for two-point boundary value
//! problems.
//!
//! The library is generic over the scalar type: the caller hands in the
//! arithmetic it needs as closures, and every result is stated in terms of
//! what those closures promise.
mod bvp;
mod error;
mod grid;
mod grid_function;
mod newton;

pub use bvp::{
    apply_boundary_conditions, differential_equation_function, with_boundary_values,
    BoundaryConditions,
};
pub use error::GridError;
pub use grid::Grid;
pub use newton::{
    apply, arithmetic_is_function, back_substitute, comparison_is_function, eliminate,
    evaluation_failed, gauss_solve, holds, is_newton_run, jacobian_of, newton_update,
    newtons_method, pivot, reduce, reduced_row, residual_is_function, residual_of,
    residual_succeeds_on, row_sum, rows_of, shifted, ScalarOp,
};
pub use grid_function::{
    central_neighbours, central_stencil, forward_neighbours, forward_stencil, is_difference, is_sum,
    lemma_constant_has_zero_derivative, lemma_two_point_operators_agree, GridFunction,
};
