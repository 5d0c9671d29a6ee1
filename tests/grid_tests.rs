use bvp_grid::{
    apply_boundary_conditions, central_neighbours, differential_equation_function, forward_neighbours,
    newtons_method, BoundaryConditions, Grid, GridError, GridFunction, ScalarOp,
};

fn quotient(v_hi: f64, v_lo: f64, x_hi: f64, x_lo: f64) -> f64 {
    (v_hi - v_lo) / (x_hi - x_lo)
}

fn plus(a: f64, b: f64) -> f64 {
    a + b
}

fn arithmetic(op: ScalarOp, a: f64, b: f64) -> f64 {
    match op {
        ScalarOp::Add => a + b,
        ScalarOp::Sub => a - b,
        ScalarOp::Mul => a * b,
        ScalarOp::Div => a / b,
    }
}

fn larger(a: f64, b: f64) -> bool {
    a.abs() > b.abs()
}

fn finite(a: f64) -> bool {
    a.is_finite()
}

fn uniform(start: f64, end: f64, n: usize) -> Grid<f64> {
    let step = if n > 1 { (end - start) / (n as f64 - 1.0) } else { 0.0 };
    Grid::new_uniform_grid(start, end, n, start < end, move |i| start + (i as f64) * step)
}

fn close(a: f64, b: f64) -> bool {
    (a - b).abs() < 1e-9
}

fn max_distance(a: &[f64], b: &[f64]) -> f64 {
    a.iter().zip(b.iter()).map(|(x, y)| (x - y).abs()).fold(0.0, f64::max)
}

#[test]
fn uniform_grid_spans_interval() {
    let grid = uniform(0.0, 10.0, 11);
    assert_eq!(grid.grid_points.len(), 11);
    assert_eq!(grid.grid_points[0], 0.0);
    assert_eq!(grid.grid_points[10], 10.0);
    for i in 1..11 {
        assert!(close(grid.grid_points[i] - grid.grid_points[i - 1], 1.0));
    }
    let grid = uniform(-1.0, 2.0, 4);
    assert_eq!(grid.grid_points, vec![-1.0, 0.0, 1.0, 2.0]);
    let grid = uniform(0.0, 1.0, 2);
    assert_eq!(grid.grid_points, vec![0.0, 1.0]);
    let grid = uniform(0.1, 0.7, 7);
    assert_eq!(grid.grid_points.len(), 7);
    assert_eq!(grid.grid_points[0], 0.1);
    assert_eq!(grid.grid_points[6], 0.7);
}

#[test]
fn degenerate_grid_is_single_start_point() {
    assert_eq!(uniform(3.0, 1.0, 5).grid_points, vec![3.0]);
    assert_eq!(uniform(2.0, 2.0, 5).grid_points, vec![2.0]);
    assert_eq!(uniform(0.0, 1.0, 1).grid_points, vec![0.0]);
    assert_eq!(uniform(0.0, 1.0, 0).grid_points, vec![0.0]);
    assert_eq!(uniform(0.0, 1.0, 1).len(), 1);
}

#[test]
fn sampling_evaluates_at_each_point() {
    let grid = uniform(0.0, 4.0, 5);
    let points = grid.grid_points.clone();
    let f = GridFunction::new_grid_function(grid, |x: f64| 3.0 * x - 1.0);
    assert_eq!(f.len(), 5);
    assert_eq!(f.grid.grid_points, points);
    for i in 0..5 {
        assert_eq!(f.function_values[i], 3.0 * points[i] - 1.0);
    }
}

#[test]
fn two_point_operators_use_single_quotient() {
    let grid = Grid { grid_points: vec![1.0, 3.0] };
    let f = GridFunction { grid, function_values: vec![5.0, 9.0] };
    let forward = GridFunction::forward_difference_derivative(&f, quotient).unwrap();
    let central = GridFunction::central_difference_derivative(&f, quotient).unwrap();
    assert_eq!(forward.function_values, vec![2.0, 2.0]);
    assert_eq!(central.function_values, vec![2.0, 2.0]);
    assert_eq!(forward.grid.grid_points, vec![1.0, 3.0]);
}

#[test]
fn central_difference_exact_for_quadratic() {
    let grid = uniform(-2.0, 3.0, 21);
    let f = GridFunction::new_grid_function(grid, |x: f64| x * x);
    let d = GridFunction::central_difference_derivative(&f, quotient).unwrap();
    for i in 1..20 {
        let x = d.grid.grid_points[i];
        assert!(close(d.function_values[i], 2.0 * x));
    }
}

#[test]
fn constant_function_has_zero_derivative() {
    let f = GridFunction::new_grid_function(uniform(0.0, 1.0, 7), |_x: f64| 4.5);
    let forward = GridFunction::forward_difference_derivative(&f, quotient).unwrap();
    let central = GridFunction::central_difference_derivative(&f, quotient).unwrap();
    assert!(forward.function_values.iter().all(|v| *v == 0.0));
    assert!(central.function_values.iter().all(|v| *v == 0.0));
    assert_eq!(forward.len(), 7);
    assert_eq!(central.len(), 7);
}

#[test]
fn derivatives_of_square_on_unit_steps() {
    let f = GridFunction::new_grid_function(uniform(0.0, 10.0, 11), |x: f64| x * x);
    let forward = GridFunction::forward_difference_derivative(&f, quotient).unwrap();
    let central = GridFunction::central_difference_derivative(&f, quotient).unwrap();
    assert_eq!(forward.function_values[5], 11.0);
    assert_eq!(central.function_values[5], 10.0);
    assert_eq!(forward.function_values[0], 1.0);
    assert_eq!(forward.function_values[10], 19.0);
    assert_eq!(central.function_values[0], 1.0);
    assert_eq!(central.function_values[10], 19.0);
}

#[test]
fn derivative_of_single_point_is_invalid_domain() {
    let f = GridFunction::new_grid_function(uniform(1.0, 0.0, 4), |x: f64| x);
    assert_eq!(f.len(), 1);
    assert_eq!(
        GridFunction::forward_difference_derivative(&f, quotient).err(),
        Some(GridError::InvalidDomain)
    );
    assert_eq!(
        GridFunction::central_difference_derivative(&f, quotient).err(),
        Some(GridError::InvalidDomain)
    );
}

#[test]
fn stencils_pick_neighbours() {
    assert_eq!(forward_neighbours(5, 0), (0, 1));
    assert_eq!(forward_neighbours(5, 2), (2, 3));
    assert_eq!(forward_neighbours(5, 4), (3, 4));
    assert_eq!(central_neighbours(5, 0), (0, 1));
    assert_eq!(central_neighbours(5, 2), (1, 3));
    assert_eq!(central_neighbours(5, 4), (3, 4));
}

#[test]
fn addition_sums_pointwise() {
    let a = GridFunction::new_grid_function(uniform(0.0, 2.0, 3), |x: f64| x);
    let b = GridFunction::new_grid_function(uniform(0.0, 2.0, 3), |x: f64| 10.0 * x + 1.0);
    let s = GridFunction::grid_function_addition(&a, &b, plus).unwrap();
    assert_eq!(s.function_values, vec![1.0, 12.0, 23.0]);
    assert_eq!(s.grid.grid_points, vec![0.0, 1.0, 2.0]);
}

#[test]
fn addition_of_unequal_lengths_is_shape_mismatch() {
    let a = GridFunction::new_grid_function(uniform(0.0, 2.0, 3), |x: f64| x);
    let b = GridFunction::new_grid_function(uniform(0.0, 2.0, 4), |x: f64| x);
    assert_eq!(
        GridFunction::grid_function_addition(&a, &b, plus).err(),
        Some(GridError::ShapeMismatch)
    );
}

#[test]
fn residual_of_square() {
    let f = GridFunction::new_grid_function(uniform(0.0, 10.0, 11), |x: f64| x * x);
    let r = differential_equation_function(&f, quotient, plus).unwrap();
    assert_eq!(r.len(), 11);
    assert_eq!(r.function_values[5], 27.0);
    let single = GridFunction::new_grid_function(uniform(0.0, 10.0, 1), |x: f64| x);
    assert_eq!(
        differential_equation_function(&single, quotient, plus).err(),
        Some(GridError::InvalidDomain)
    );
}

#[test]
fn boundary_conditions_overwrite_end_points() {
    let bcs = BoundaryConditions::new_dirichlet_bcs(-1.0, 7.0);
    assert_eq!(bcs.left_value, -1.0);
    assert_eq!(bcs.right_value, 7.0);
    let f = GridFunction::new_grid_function(uniform(0.0, 3.0, 4), |x: f64| x);
    let g = apply_boundary_conditions(&bcs, &f);
    assert_eq!(g.function_values, vec![-1.0, 1.0, 2.0, 7.0]);
}

fn harmonic(g: &GridFunction<f64>) -> Result<GridFunction<f64>, GridError> {
    differential_equation_function(g, quotient, plus)
}

#[test]
fn newton_moves_towards_solution_of_harmonic_equation() {
    let pi = std::f64::consts::PI;
    let grid = uniform(0.0, pi, 20);
    let truth = GridFunction::new_grid_function(grid.duplicate(), f64::sin);
    let guess = GridFunction::new_grid_function(grid, |x: f64| x * (pi - x));
    let bcs = BoundaryConditions::new_dirichlet_bcs(0.0, 0.0);
    let before = max_distance(&guess.function_values, &truth.function_values);
    for iterations in [1usize, 2, 20] {
        let solution =
            newtons_method(harmonic, arithmetic, larger, finite, 1e-6, &bcs, &guess, iterations).unwrap();
        assert_eq!(solution.len(), 20);
        assert_eq!(solution.function_values[0], 0.0);
        assert_eq!(solution.function_values[19], 0.0);
        let after = max_distance(&solution.function_values, &truth.function_values);
        assert!(after < before);
    }
}

#[test]
fn newton_without_iterations_imposes_boundary_values() {
    let guess = GridFunction::new_grid_function(uniform(0.0, 3.0, 4), |x: f64| x + 1.0);
    let bcs = BoundaryConditions::new_dirichlet_bcs(5.0, 6.0);
    let r = newtons_method(harmonic, arithmetic, larger, finite, 1e-6, &bcs, &guess, 0).unwrap();
    assert_eq!(r.function_values, vec![5.0, 2.0, 3.0, 6.0]);
}

#[test]
fn newton_solves_linear_problem() {
    // y'' = 0 with y(0) = 1, y(4) = 9: the straight line 1 + 2x.
    let residual = |g: &GridFunction<f64>| {
        let first = GridFunction::central_difference_derivative(g, quotient)?;
        GridFunction::central_difference_derivative(&first, quotient)
    };
    let guess = GridFunction::new_grid_function(uniform(0.0, 4.0, 5), |_x: f64| 0.0);
    let bcs = BoundaryConditions::new_dirichlet_bcs(1.0, 9.0);
    let r = newtons_method(residual, arithmetic, larger, finite, 1e-3, &bcs, &guess, 3).unwrap();
    let expected = [1.0, 3.0, 5.0, 7.0, 9.0];
    for i in 0..5 {
        assert!((r.function_values[i] - expected[i]).abs() < 1e-6);
    }
}

#[test]
fn newton_needs_an_interior_point() {
    let guess = GridFunction::new_grid_function(uniform(0.0, 1.0, 2), |x: f64| x);
    let bcs = BoundaryConditions::new_dirichlet_bcs(0.0, 0.0);
    assert_eq!(
        newtons_method(harmonic, arithmetic, larger, finite, 1e-6, &bcs, &guess, 5).err(),
        Some(GridError::InvalidDomain)
    );
}

#[test]
fn newton_reports_non_finite_residual() {
    let residual = |g: &GridFunction<f64>| {
        let mut r = harmonic(g)?;
        r.function_values[1] = f64::NAN;
        Ok(r)
    };
    let guess = GridFunction::new_grid_function(uniform(0.0, 3.0, 4), |x: f64| x);
    let bcs = BoundaryConditions::new_dirichlet_bcs(0.0, 0.0);
    assert_eq!(
        newtons_method(residual, arithmetic, larger, finite, 1e-6, &bcs, &guess, 1).err(),
        Some(GridError::ResidualEvaluationError)
    );
}

#[test]
fn newton_reports_residual_of_wrong_length() {
    let residual = |g: &GridFunction<f64>| {
        let mut r = harmonic(g)?;
        r.function_values.pop();
        Ok(r)
    };
    let guess = GridFunction::new_grid_function(uniform(0.0, 3.0, 4), |x: f64| x);
    let bcs = BoundaryConditions::new_dirichlet_bcs(0.0, 0.0);
    assert_eq!(
        newtons_method(residual, arithmetic, larger, finite, 1e-6, &bcs, &guess, 1).err(),
        Some(GridError::ShapeMismatch)
    );
}

#[test]
fn newton_passes_on_residual_error() {
    let residual = |_g: &GridFunction<f64>| -> Result<GridFunction<f64>, GridError> {
        Err(GridError::ResidualEvaluationError)
    };
    let guess = GridFunction::new_grid_function(uniform(0.0, 3.0, 4), |x: f64| x);
    let bcs = BoundaryConditions::new_dirichlet_bcs(0.0, 0.0);
    assert_eq!(
        newtons_method(residual, arithmetic, larger, finite, 1e-6, &bcs, &guess, 2).err(),
        Some(GridError::ResidualEvaluationError)
    );
}
