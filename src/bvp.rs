use vstd::prelude::*;
use crate::error::GridError;
use crate::grid_function::{is_difference, is_sum, GridFunction};

verus! {

/// Dirichlet boundary conditions: the values prescribed at the first and at
/// the last grid point.
pub struct BoundaryConditions<T> {
    pub left_value: T,
    pub right_value: T,
}

impl<T: Copy> BoundaryConditions<T> {
    /// Stores the two prescribed end-point values.
    pub fn new_dirichlet_bcs(left_value: T, right_value: T) -> (bcs: Self)
        ensures
            bcs.left_value == left_value,
            bcs.right_value == right_value,
    {
        BoundaryConditions { left_value, right_value }
    }
}

/// `g` is `f` with its first value replaced by the left and its last value by
/// the right prescribed value of `bcs`.
pub open spec fn with_boundary_values<T>(bcs: BoundaryConditions<T>, f: Seq<T>, g: Seq<T>) -> bool {
    &&& g.len() == f.len()
    &&& g[0] == bcs.left_value
    &&& g[f.len() - 1] == bcs.right_value
    &&& forall|i: int| 0 < i < f.len() - 1 ==> #[trigger] g[i] == f[i]
}

/// Imposes `bcs` on `grid_function`, which has at least two points: its
/// end-point values are overwritten, all others are kept.
pub fn apply_boundary_conditions<T: Copy>(
    bcs: &BoundaryConditions<T>,
    grid_function: &GridFunction<T>,
) -> (r: GridFunction<T>)
    requires
        grid_function.wf(),
        grid_function.values().len() >= 2,
    ensures
        r.wf(),
        r.grid.points() == grid_function.grid.points(),
        with_boundary_values(*bcs, grid_function.values(), r.values()),
{
    let mut r = grid_function.duplicate();
    let n = r.function_values.len();
    r.function_values.set(0, bcs.left_value);
    r.function_values.set(n - 1, bcs.right_value);
    r
}

/// The residual of the harmonic oscillator equation `y'' + y = 0` for the
/// trial solution `grid_func`: the central-difference derivative taken twice,
/// plus the function itself.
///
/// `quotient(v_hi, v_lo, x_hi, x_lo)` computes
/// `(v_hi - v_lo) / (x_hi - x_lo)` and `plus` adds two scalars.
pub fn differential_equation_function<T: Copy, Q: Fn(T, T, T, T) -> T + Copy, A: Fn(T, T) -> T>(
    grid_func: &GridFunction<T>,
    quotient: Q,
    plus: A,
) -> (r: Result<GridFunction<T>, GridError>)
    requires
        grid_func.wf(),
        forall|a: T, b: T, c: T, d: T| #[trigger] quotient.requires((a, b, c, d)),
        forall|x: T, y: T| #[trigger] plus.requires((x, y)),
    ensures
        grid_func.values().len() >= 2 <==> r is Ok,
        r is Err ==> r->Err_0 == GridError::InvalidDomain,
        r is Ok ==> {
            &&& r->Ok_0.wf()
            &&& exists|first: GridFunction<T>, second: GridFunction<T>|
                {
                    &&& is_difference(quotient, *grid_func, first, true)
                    &&& #[trigger] is_difference(quotient, first, second, true)
                    &&& is_sum(plus, second, *grid_func, r->Ok_0)
                }
        },
{
    let first = match GridFunction::central_difference_derivative(grid_func, quotient) {
        Ok(d) => d,
        Err(e) => return Err(e),
    };
    let second = match GridFunction::central_difference_derivative(&first, quotient) {
        Ok(d) => d,
        Err(e) => return Err(e),
    };
    let r = GridFunction::grid_function_addition(&second, grid_func, plus);
    assert(is_difference(quotient, first, second, true));
    r
}

} // verus!
