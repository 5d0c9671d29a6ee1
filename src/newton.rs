use vstd::prelude::*;
use crate::bvp::{apply_boundary_conditions, with_boundary_values, BoundaryConditions};
use crate::error::GridError;
use crate::grid_function::GridFunction;

verus! {

/// The scalar operations that the Newton solver asks of its caller.
#[derive(Clone, Copy, Debug, PartialEq, Eq, Structural)]
pub enum ScalarOp {
    Add,
    Sub,
    Mul,
    Div,
}

/// `arithmetic` computes a function of its arguments: two calls on the same
/// operation and operands return the same value.
pub open spec fn arithmetic_is_function<T, S: Fn(ScalarOp, T, T) -> T>(arithmetic: S) -> bool {
    forall|o: ScalarOp, x: T, y: T, r1: T, r2: T|
        #[trigger] arithmetic.ensures((o, x, y), r1) && #[trigger] arithmetic.ensures((o, x, y), r2) ==> r1
            == r2
}

/// `larger` computes a function of its arguments.
pub open spec fn comparison_is_function<T, P: Fn(T, T) -> bool>(larger: P) -> bool {
    forall|x: T, y: T, b1: bool, b2: bool|
        #[trigger] larger.ensures((x, y), b1) && #[trigger] larger.ensures((x, y), b2) ==> b1 == b2
}

/// The residual depends on the coordinates and values of its argument alone:
/// on two grid functions that hold the same, it succeeds on both or on
/// neither, with the same values.
pub open spec fn residual_is_function<T: Copy, R>(residual: R) -> bool where
    R: Fn(&GridFunction<T>) -> Result<GridFunction<T>, GridError>,
{
    forall|g1: GridFunction<T>, g2: GridFunction<T>, o1: Result<GridFunction<T>, GridError>, o2: Result<GridFunction<T>, GridError>|
        g1.grid.points() == g2.grid.points() && g1.values() == g2.values() && #[trigger] residual.ensures((&g1,), o1)
            && #[trigger] residual.ensures((&g2,), o2) ==> (o1 is Ok <==> o2 is Ok) && (o1 is Ok ==> o1->Ok_0.values()
            == o2->Ok_0.values())
}

/// What `arithmetic` returns for `o` on `x` and `y`.
pub open spec fn apply<T, S: Fn(ScalarOp, T, T) -> T>(arithmetic: S, o: ScalarOp, x: T, y: T) -> T {
    choose|r: T| arithmetic.ensures((o, x, y), r)
}

/// What `larger` returns on `x` and `y`.
pub open spec fn holds<T, P: Fn(T, T) -> bool>(larger: P, x: T, y: T) -> bool {
    choose|b: bool| larger.ensures((x, y), b)
}

/// The values of the residual on a grid function with coordinates `points`
/// and values `values`.
pub open spec fn residual_of<T: Copy, R>(residual: R, points: Seq<T>, values: Seq<T>) -> Seq<T> where
    R: Fn(&GridFunction<T>) -> Result<GridFunction<T>, GridError>,
{
    let pair = choose|pair: (GridFunction<T>, Result<GridFunction<T>, GridError>)|
        pair.0.grid.points() == points && pair.0.values() == values && residual.ensures((&pair.0,), pair.1);
    pair.1->Ok_0.values()
}

/// On `g` the residual gave `out`, and `out` is a failure with error `e`: the
/// residual's own error, `ShapeMismatch` for a result of another length, or
/// `ResidualEvaluationError` where `is_finite` rejected one of its values.
pub open spec fn evaluation_failed<T: Copy, V: Fn(T) -> bool>(
    is_finite: V,
    g: GridFunction<T>,
    out: Result<GridFunction<T>, GridError>,
    e: GridError,
) -> bool {
    ||| out is Err && e == out->Err_0
    ||| out is Ok && out->Ok_0.values().len() != g.values().len() && e == GridError::ShapeMismatch
    ||| out is Ok && out->Ok_0.values().len() == g.values().len() && e == GridError::ResidualEvaluationError
        && exists|i: int| 0 <= i < g.values().len() && #[trigger] is_finite.ensures((out->Ok_0.values()[i],), false)
}

/// The residual succeeds, with one finite value per point, on every grid
/// function of `n` values on the grid `points`.
pub open spec fn residual_succeeds_on<T: Copy, R, V>(residual: R, is_finite: V, points: Seq<T>, n: nat) -> bool where
    R: Fn(&GridFunction<T>) -> Result<GridFunction<T>, GridError>,
    V: Fn(T) -> bool,
{
    forall|g: GridFunction<T>, out: Result<GridFunction<T>, GridError>|
        g.grid.points() == points && g.values().len() == n && #[trigger] residual.ensures((&g,), out) ==> {
            &&& out is Ok
            &&& out->Ok_0.values().len() == n
            &&& forall|i: int, b: bool|
                0 <= i < n && #[trigger] is_finite.ensures((out->Ok_0.values()[i],), b) ==> b
        }
}

/// `values` with interior value `j` moved by `perturbation`.
pub open spec fn shifted<T, S: Fn(ScalarOp, T, T) -> T>(arithmetic: S, perturbation: T, values: Seq<T>, j: int) -> Seq<T> {
    values.update(j + 1, apply(arithmetic, ScalarOp::Add, values[j + 1], perturbation))
}

/// The finite-difference Jacobian of the residual at the interior of
/// `values`, row `i` and column `j` for interior points `i + 1` and `j + 1`;
/// `base` is the residual at `values`.
pub open spec fn jacobian_of<T: Copy, R, S>(
    residual: R,
    arithmetic: S,
    perturbation: T,
    points: Seq<T>,
    values: Seq<T>,
    base: Seq<T>,
) -> Seq<Seq<T>> where
    R: Fn(&GridFunction<T>) -> Result<GridFunction<T>, GridError>,
    S: Fn(ScalarOp, T, T) -> T,
{
    let m = values.len() - 2;
    Seq::new(
        m as nat,
        |i: int|
            Seq::new(
                m as nat,
                |j: int|
                    apply(
                        arithmetic,
                        ScalarOp::Div,
                        apply(
                            arithmetic,
                            ScalarOp::Sub,
                            residual_of(residual, points, shifted(arithmetic, perturbation, values, j))[i + 1],
                            base[i + 1],
                        ),
                        perturbation,
                    ),
            ),
    )
}

/// The row that Gaussian elimination keeps for pivot `k` from row `i` (`f`
/// is the multiplier): entries before `k` unchanged, the others less `f`
/// times the pivot row.
pub open spec fn reduced_row<T, S: Fn(ScalarOp, T, T) -> T>(arithmetic: S, row: Seq<T>, pivot_row: Seq<T>, k: int, f: T) -> Seq<T> {
    Seq::new(
        row.len(),
        |c: int|
            if c < k {
                row[c]
            } else {
                apply(arithmetic, ScalarOp::Sub, row[c], apply(arithmetic, ScalarOp::Mul, f, pivot_row[c]))
            },
    )
}

/// The row, among `r` onwards and the best so far `p`, whose entry in column
/// `k` `larger` prefers; the earlier row wins a tie.
pub open spec fn pivot<T, P: Fn(T, T) -> bool>(larger: P, a: Seq<Seq<T>>, k: int, r: int, p: int) -> int
    decreases a.len() - r,
{
    if r >= a.len() {
        p
    } else {
        pivot(larger, a, k, r + 1, if holds(larger, a[r][k], a[p][k]) { r } else { p })
    }
}

/// Eliminates column `k` from rows `r` onwards.
pub open spec fn reduce<T, S: Fn(ScalarOp, T, T) -> T>(arithmetic: S, a: Seq<Seq<T>>, b: Seq<T>, k: int, r: int) -> (Seq<Seq<T>>, Seq<T>)
    decreases a.len() - r,
{
    if r < 0 || r >= a.len() {
        (a, b)
    } else {
        let f = apply(arithmetic, ScalarOp::Div, a[r][k], a[k][k]);
        reduce(
            arithmetic,
            a.update(r, reduced_row(arithmetic, a[r], a[k], k, f)),
            b.update(r, apply(arithmetic, ScalarOp::Sub, b[r], apply(arithmetic, ScalarOp::Mul, f, b[k]))),
            k,
            r + 1,
        )
    }
}

/// Forward elimination with partial pivoting on an `m` by `m` system, from
/// column `k` on: the pivot row is swapped into place, then the column is
/// eliminated below it.
pub open spec fn eliminate<T, S, P>(arithmetic: S, larger: P, a: Seq<Seq<T>>, b: Seq<T>, k: int, m: int) -> (Seq<Seq<T>>, Seq<T>) where
    S: Fn(ScalarOp, T, T) -> T,
    P: Fn(T, T) -> bool,
    decreases m - k,
{
    if k < 0 || k >= m {
        (a, b)
    } else {
        let p = pivot(larger, a, k, k + 1, k);
        let a1 = a.update(k, a[p]).update(p, a[k]);
        let b1 = b.update(k, b[p]).update(p, b[k]);
        let (a2, b2) = reduce(arithmetic, a1, b1, k, k + 1);
        eliminate(arithmetic, larger, a2, b2, k + 1, m)
    }
}

/// `acc` less the products of row `k` of `a` with `x`, over columns `c` on.
pub open spec fn row_sum<T, S: Fn(ScalarOp, T, T) -> T>(arithmetic: S, a: Seq<Seq<T>>, x: Seq<T>, k: int, c: int, acc: T) -> T
    decreases a.len() - c,
{
    if c >= a.len() {
        acc
    } else {
        row_sum(
            arithmetic,
            a,
            x,
            k,
            c + 1,
            apply(arithmetic, ScalarOp::Sub, acc, apply(arithmetic, ScalarOp::Mul, a[k][c], x[c])),
        )
    }
}

/// Back substitution on the upper triangular system `a`, `b`, for the rows
/// before `k`; `x` holds the solution from row `k` on.
pub open spec fn back_substitute<T, S: Fn(ScalarOp, T, T) -> T>(arithmetic: S, a: Seq<Seq<T>>, b: Seq<T>, x: Seq<T>, k: int) -> Seq<T>
    decreases k,
{
    if k <= 0 {
        x
    } else {
        let i = k - 1;
        let s = row_sum(arithmetic, a, x, i, i + 1, b[i]);
        back_substitute(arithmetic, a, b, x.update(i, apply(arithmetic, ScalarOp::Div, s, a[i][i])), i)
    }
}

/// The solution of `a x = b` by Gaussian elimination with partial pivoting
/// under `arithmetic` and `larger`.
pub open spec fn gauss_solve<T, S, P>(arithmetic: S, larger: P, a: Seq<Seq<T>>, b: Seq<T>) -> Seq<T> where
    S: Fn(ScalarOp, T, T) -> T,
    P: Fn(T, T) -> bool,
{
    let (u, c) = eliminate(arithmetic, larger, a, b, 0, a.len() as int);
    back_substitute(arithmetic, u, c, c, a.len() as int)
}

/// One Newton update of `values`: the residual and its finite-difference
/// Jacobian at the interior points, the correction that solves the Jacobian
/// system against the interior residual, subtracted from the interior
/// values, and the prescribed end-point values.
pub open spec fn newton_update<T: Copy, R, S, P>(
    residual: R,
    arithmetic: S,
    larger: P,
    perturbation: T,
    bcs: BoundaryConditions<T>,
    points: Seq<T>,
    values: Seq<T>,
) -> Seq<T> where
    R: Fn(&GridFunction<T>) -> Result<GridFunction<T>, GridError>,
    S: Fn(ScalarOp, T, T) -> T,
    P: Fn(T, T) -> bool,
{
    let n = values.len();
    let base = residual_of(residual, points, values);
    let a = jacobian_of(residual, arithmetic, perturbation, points, values, base);
    let correction = gauss_solve(arithmetic, larger, a, base.subrange(1, n - 1));
    Seq::new(
        n,
        |i: int|
            if i == 0 {
                bcs.left_value
            } else if i == n - 1 {
                bcs.right_value
            } else {
                apply(arithmetic, ScalarOp::Sub, values[i], correction[i - 1])
            },
    )
}

/// `iterates` records a run of `num_iterations` Newton updates from
/// `initial`, which first takes the boundary values, to `result`.
pub open spec fn is_newton_run<T: Copy, R, S, P>(
    residual: R,
    arithmetic: S,
    larger: P,
    perturbation: T,
    bcs: BoundaryConditions<T>,
    points: Seq<T>,
    initial: Seq<T>,
    iterates: Seq<Seq<T>>,
    num_iterations: nat,
    result: Seq<T>,
) -> bool where
    R: Fn(&GridFunction<T>) -> Result<GridFunction<T>, GridError>,
    S: Fn(ScalarOp, T, T) -> T,
    P: Fn(T, T) -> bool,
{
    &&& iterates.len() == num_iterations + 1
    &&& with_boundary_values(bcs, initial, iterates[0])
    &&& forall|k: int|
        0 <= k < num_iterations ==> iterates[k + 1] == #[trigger] newton_update(
            residual,
            arithmetic,
            larger,
            perturbation,
            bcs,
            points,
            iterates[k],
        )
    &&& iterates[num_iterations as int] == result
}

proof fn lemma_apply<T, S: Fn(ScalarOp, T, T) -> T>(arithmetic: S, o: ScalarOp, x: T, y: T, r: T)
    requires
        arithmetic_is_function(arithmetic),
        arithmetic.ensures((o, x, y), r),
    ensures
        r == apply(arithmetic, o, x, y),
{
    let c = apply(arithmetic, o, x, y);
    assert(arithmetic.ensures((o, x, y), c));
}

proof fn lemma_holds<T, P: Fn(T, T) -> bool>(larger: P, x: T, y: T, b: bool)
    requires
        comparison_is_function(larger),
        larger.ensures((x, y), b),
    ensures
        b == holds(larger, x, y),
{
    let c = holds(larger, x, y);
    assert(larger.ensures((x, y), c));
}

proof fn lemma_residual_of<T: Copy, R: Fn(&GridFunction<T>) -> Result<GridFunction<T>, GridError>>(
    residual: R,
    g: GridFunction<T>,
    out: GridFunction<T>,
)
    requires
        residual_is_function(residual),
        residual.ensures((&g,), Ok::<GridFunction<T>, GridError>(out)),
    ensures
        out.values() == residual_of(residual, g.grid.points(), g.values()),
{
    let w = (g, Ok::<GridFunction<T>, GridError>(out));
    assert(w.0.grid.points() == g.grid.points() && w.0.values() == g.values() && residual.ensures((&w.0,), w.1));
    let pair = choose|pair: (GridFunction<T>, Result<GridFunction<T>, GridError>)|
        pair.0.grid.points() == g.grid.points() && pair.0.values() == g.values() && residual.ensures((&pair.0,), pair.1);
    assert(residual.ensures((&pair.0,), pair.1));
}

/// A copy of `v`.
fn copy_of<T: Copy>(v: &Vec<T>) -> (r: Vec<T>)
    ensures
        r@ == v@,
{
    let mut r: Vec<T> = Vec::new();
    let mut i: usize = 0;
    while i < v.len()
        invariant
            i <= v@.len(),
            r@ == v@.subrange(0, i as int),
        decreases v@.len() - i,
    {
        r.push(v[i]);
        i += 1;
    }
    r
}

/// The rows of a matrix held as a vector of rows.
pub open spec fn rows_of<T>(a: Seq<Vec<T>>) -> Seq<Seq<T>> {
    Seq::new(a.len(), |i: int| a[i]@)
}

/// Evaluates the residual on `g`, and checks that it has one value per point
/// and that each value is finite.
fn evaluate<T: Copy, R, V>(
    residual: R,
    is_finite: V,
    g: &GridFunction<T>,
) -> (r: Result<Vec<T>, GridError>) where
    R: Fn(&GridFunction<T>) -> Result<GridFunction<T>, GridError> + Copy,
    V: Fn(T) -> bool + Copy,

    requires
        residual_is_function(residual),
        forall|h: &GridFunction<T>| #[trigger] residual.requires((h,)),
        forall|x: T| #[trigger] is_finite.requires((x,)),
    ensures
        r is Ok ==> r->Ok_0@.len() == g.values().len(),
        r is Ok ==> r->Ok_0@ == residual_of(residual, g.grid.points(), g.values()),
        r is Err ==> exists|out: Result<GridFunction<T>, GridError>|
            #[trigger] residual.ensures((g,), out) && evaluation_failed(is_finite, *g, out, r->Err_0),
        residual_succeeds_on(residual, is_finite, g.grid.points(), g.values().len()) ==> r is Ok,
{
    let out = residual(g);
    let values = match out {
        Ok(f) => f.function_values,
        Err(e) => return Err(e),
    };
    if values.len() != g.function_values.len() {
        return Err(GridError::ShapeMismatch);
    }
    proof {
        lemma_residual_of(residual, *g, out->Ok_0);
    }
    let mut i: usize = 0;
    while i < values.len()
        invariant
            i <= values@.len(),
            values@.len() == g.values().len(),
            forall|x: T| #[trigger] is_finite.requires((x,)),
            residual.ensures((g,), out),
            out is Ok,
            values@ == out->Ok_0.values(),
        decreases values@.len() - i,
    {
        let finite = is_finite(values[i]);
        if !finite {
            assert(evaluation_failed(is_finite, *g, out, GridError::ResidualEvaluationError));
            return Err(GridError::ResidualEvaluationError);
        }
        i += 1;
    }
    Ok(values)
}

/// The finite-difference Jacobian of the residual at the interior points of
/// `guess`, row by row; `base` is the residual at `guess`.
fn jacobian<T: Copy, R, S, V>(
    residual: R,
    arithmetic: S,
    is_finite: V,
    perturbation: T,
    guess: &GridFunction<T>,
    base: &Vec<T>,
) -> (r: Result<Vec<Vec<T>>, GridError>) where
    R: Fn(&GridFunction<T>) -> Result<GridFunction<T>, GridError> + Copy,
    S: Fn(ScalarOp, T, T) -> T + Copy,
    V: Fn(T) -> bool + Copy,

    requires
        guess.wf(),
        guess.values().len() >= 3,
        base@.len() == guess.values().len(),
        residual_is_function(residual),
        arithmetic_is_function(arithmetic),
        forall|h: &GridFunction<T>| #[trigger] residual.requires((h,)),
        forall|o: ScalarOp, x: T, y: T| #[trigger] arithmetic.requires((o, x, y)),
        forall|x: T| #[trigger] is_finite.requires((x,)),
    ensures
        r is Ok ==> rows_of(r->Ok_0@) == jacobian_of(
            residual,
            arithmetic,
            perturbation,
            guess.grid.points(),
            guess.values(),
            base@,
        ),
        r is Ok ==> r->Ok_0@.len() == guess.values().len() - 2,
        r is Ok ==> forall|i: int| 0 <= i < r->Ok_0@.len() ==> #[trigger] r->Ok_0@[i]@.len() == r->Ok_0@.len(),
        r is Err ==> exists|g: GridFunction<T>, out: Result<GridFunction<T>, GridError>|
            g.grid.points() == guess.grid.points() && g.values().len() == guess.values().len()
                && #[trigger] residual.ensures((&g,), out) && evaluation_failed(is_finite, g, out, r->Err_0),
        residual_succeeds_on(residual, is_finite, guess.grid.points(), guess.values().len()) ==> r is Ok,
{
    let n = guess.function_values.len();
    let m = n - 2;
    let ghost points = guess.grid.points();
    let ghost values = guess.values();
    let mut after: Vec<Vec<T>> = Vec::new();
    let mut j: usize = 0;
    while j < m
        invariant
            guess.wf(),
            n == guess.values().len(),
            m == n - 2,
            points == guess.grid.points(),
            values == guess.values(),
            j <= m,
            after@.len() == j,
            forall|k: int| 0 <= k < j ==> #[trigger] after@[k]@ == residual_of(residual, points, shifted(arithmetic, perturbation, values, k)),
            forall|k: int| 0 <= k < j ==> #[trigger] after@[k]@.len() == n,
            residual_is_function(residual),
            arithmetic_is_function(arithmetic),
            forall|h: &GridFunction<T>| #[trigger] residual.requires((h,)),
            forall|o: ScalarOp, x: T, y: T| #[trigger] arithmetic.requires((o, x, y)),
            forall|x: T| #[trigger] is_finite.requires((x,)),
        decreases m - j,
    {
        let mut moved = guess.duplicate();
        let shifted_value = arithmetic(ScalarOp::Add, moved.function_values[j + 1], perturbation);
        proof {
            lemma_apply(arithmetic, ScalarOp::Add, values[j + 1], perturbation, shifted_value);
        }
        moved.function_values.set(j + 1, shifted_value);
        assert(moved.values() == shifted(arithmetic, perturbation, values, j as int));
        let out = match evaluate(residual, is_finite, &moved) {
            Ok(v) => v,
            Err(e) => {
                proof {
                    let out = choose|out: Result<GridFunction<T>, GridError>|
                        #[trigger] residual.ensures((&moved,), out) && evaluation_failed(is_finite, moved, out, e);
                    assert(residual.ensures((&moved,), out) && evaluation_failed(is_finite, moved, out, e));
                }
                return Err(e);
            },
        };
        after.push(out);
        j += 1;
    }
    let mut a: Vec<Vec<T>> = Vec::new();
    let mut i: usize = 0;
    while i < m
        invariant
            n == guess.values().len(),
            m == n - 2,
            base@.len() == n,
            after@.len() == m,
            forall|k: int| 0 <= k < m ==> #[trigger] after@[k]@ == residual_of(residual, points, shifted(arithmetic, perturbation, values, k)),
            forall|k: int| 0 <= k < m ==> #[trigger] after@[k]@.len() == n,
            values == guess.values(),
            points == guess.grid.points(),
            i <= m,
            a@.len() == i,
            forall|k: int| 0 <= k < i ==> #[trigger] a@[k]@.len() == m,
            forall|k: int| 0 <= k < i ==> #[trigger] a@[k]@ == jacobian_of(residual, arithmetic, perturbation, points, values, base@)[k],
            arithmetic_is_function(arithmetic),
            forall|o: ScalarOp, x: T, y: T| #[trigger] arithmetic.requires((o, x, y)),
        decreases m - i,
    {
        let mut row: Vec<T> = Vec::new();
        let mut c: usize = 0;
        while c < m
            invariant
                n == guess.values().len(),
                m == n - 2,
                base@.len() == n,
                after@.len() == m,
                forall|k: int| 0 <= k < m ==> #[trigger] after@[k]@.len() == n,
                forall|k: int| 0 <= k < m ==> #[trigger] after@[k]@ == residual_of(residual, points, shifted(arithmetic, perturbation, values, k)),
                values == guess.values(),
                points == guess.grid.points(),
                i < m,
                c <= m,
                row@.len() == c,
                forall|k: int| 0 <= k < c ==> #[trigger] row@[k] == apply(
                    arithmetic,
                    ScalarOp::Div,
                    apply(arithmetic, ScalarOp::Sub, after@[k]@[i + 1], base@[i + 1]),
                    perturbation,
                ),
                arithmetic_is_function(arithmetic),
                forall|o: ScalarOp, x: T, y: T| #[trigger] arithmetic.requires((o, x, y)),
            decreases m - c,
        {
            let change = arithmetic(ScalarOp::Sub, after[c][i + 1], base[i + 1]);
            let entry = arithmetic(ScalarOp::Div, change, perturbation);
            proof {
                lemma_apply(arithmetic, ScalarOp::Sub, after@[c as int]@[i + 1], base@[i + 1], change);
                lemma_apply(arithmetic, ScalarOp::Div, change, perturbation, entry);
            }
            row.push(entry);
            c += 1;
        }
        assert(row@ =~= jacobian_of(residual, arithmetic, perturbation, points, values, base@)[i as int]);
        a.push(row);
        i += 1;
    }
    assert(rows_of(a@) =~= jacobian_of(residual, arithmetic, perturbation, points, values, base@));
    Ok(a)
}

/// Solves the square system `a x = b` (with `a` held row by row) by Gaussian
/// elimination with partial pivoting.
fn solve_linear<T: Copy, S, P>(a: Vec<Vec<T>>, b: Vec<T>, arithmetic: S, larger: P) -> (x: Vec<T>) where
    S: Fn(ScalarOp, T, T) -> T + Copy,
    P: Fn(T, T) -> bool + Copy,

    requires
        b@.len() == a@.len(),
        forall|i: int| 0 <= i < a@.len() ==> #[trigger] a@[i]@.len() == a@.len(),
        arithmetic_is_function(arithmetic),
        comparison_is_function(larger),
        forall|o: ScalarOp, x: T, y: T| #[trigger] arithmetic.requires((o, x, y)),
        forall|x: T, y: T| #[trigger] larger.requires((x, y)),
    ensures
        x@.len() == b@.len(),
        x@ == gauss_solve(arithmetic, larger, rows_of(a@), b@),
{
    let m = b.len();
    let ghost a0 = rows_of(a@);
    let ghost b0 = b@;
    let mut a = a;
    let mut b = b;
    let mut k: usize = 0;
    while k < m
        invariant
            a@.len() == m,
            b@.len() == m,
            forall|i: int| 0 <= i < m ==> #[trigger] a@[i]@.len() == m,
            k <= m,
            eliminate(arithmetic, larger, a0, b0, 0, m as int) == eliminate(arithmetic, larger, rows_of(a@), b@, k as int, m as int),
            a0.len() == m,
            arithmetic_is_function(arithmetic),
            comparison_is_function(larger),
            forall|o: ScalarOp, x: T, y: T| #[trigger] arithmetic.requires((o, x, y)),
            forall|x: T, y: T| #[trigger] larger.requires((x, y)),
        decreases m - k,
    {
        let ghost ak = rows_of(a@);
        let ghost bk = b@;
        let mut p: usize = k;
        let mut r: usize = k + 1;
        while r < m
            invariant
                a@.len() == m,
                forall|i: int| 0 <= i < m ==> #[trigger] a@[i]@.len() == m,
                ak == rows_of(a@),
                k < m,
                k <= p < m,
                k < r <= m,
                pivot(larger, ak, k as int, k + 1, k as int) == pivot(larger, ak, k as int, r as int, p as int),
                comparison_is_function(larger),
                forall|x: T, y: T| #[trigger] larger.requires((x, y)),
            decreases m - r,
        {
            let better = larger(a[r][k], a[p][k]);
            proof {
                lemma_holds(larger, ak[r as int][k as int], ak[p as int][k as int], better);
            }
            if better {
                p = r;
            }
            r += 1;
        }
        let row_k = copy_of(&a[k]);
        let row_p = copy_of(&a[p]);
        a.set(k, row_p);
        a.set(p, row_k);
        let value_k = b[k];
        let value_p = b[p];
        b.set(k, value_p);
        b.set(p, value_k);
        let ghost a1 = ak.update(k as int, ak[p as int]).update(p as int, ak[k as int]);
        let ghost b1 = bk.update(k as int, bk[p as int]).update(p as int, bk[k as int]);
        assert(rows_of(a@) =~= a1);
        assert(b@ =~= b1);
        let mut r: usize = k + 1;
        while r < m
            invariant
                a@.len() == m,
                b@.len() == m,
                forall|i: int| 0 <= i < m ==> #[trigger] a@[i]@.len() == m,
                k < m,
                k < r <= m,
                rows_of(a@)[k as int] == a1[k as int],
                b@[k as int] == b1[k as int],
                reduce(arithmetic, a1, b1, k as int, k + 1) == reduce(arithmetic, rows_of(a@), b@, k as int, r as int),
                arithmetic_is_function(arithmetic),
                forall|o: ScalarOp, x: T, y: T| #[trigger] arithmetic.requires((o, x, y)),
            decreases m - r,
        {
            let ghost ar = rows_of(a@);
            let ghost br = b@;
            let f = arithmetic(ScalarOp::Div, a[r][k], a[k][k]);
            proof {
                lemma_apply(arithmetic, ScalarOp::Div, ar[r as int][k as int], ar[k as int][k as int], f);
            }
            let mut row: Vec<T> = Vec::new();
            let mut c: usize = 0;
            while c < m
                invariant
                    a@.len() == m,
                    forall|i: int| 0 <= i < m ==> #[trigger] a@[i]@.len() == m,
                    ar == rows_of(a@),
                    k < m,
                    r < m,
                    c <= m,
                    row@.len() == c,
                    forall|j: int| 0 <= j < c ==> #[trigger] row@[j] == reduced_row(arithmetic, ar[r as int], ar[k as int], k as int, f)[j],
                    arithmetic_is_function(arithmetic),
                    forall|o: ScalarOp, x: T, y: T| #[trigger] arithmetic.requires((o, x, y)),
                decreases m - c,
            {
                if c < k {
                    row.push(a[r][c]);
                } else {
                    let t = arithmetic(ScalarOp::Mul, f, a[k][c]);
                    let u = arithmetic(ScalarOp::Sub, a[r][c], t);
                    proof {
                        lemma_apply(arithmetic, ScalarOp::Mul, f, ar[k as int][c as int], t);
                        lemma_apply(arithmetic, ScalarOp::Sub, ar[r as int][c as int], t, u);
                    }
                    row.push(u);
                }
                c += 1;
            }
            let t = arithmetic(ScalarOp::Mul, f, b[k]);
            let u = arithmetic(ScalarOp::Sub, b[r], t);
            proof {
                lemma_apply(arithmetic, ScalarOp::Mul, f, br[k as int], t);
                lemma_apply(arithmetic, ScalarOp::Sub, br[r as int], t, u);
            }
            assert(row@ =~= reduced_row(arithmetic, ar[r as int], ar[k as int], k as int, f));
            a.set(r, row);
            b.set(r, u);
            assert(rows_of(a@) =~= ar.update(r as int, reduced_row(arithmetic, ar[r as int], ar[k as int], k as int, f)));
            assert(b@ =~= br.update(r as int, apply(arithmetic, ScalarOp::Sub, br[r as int], apply(arithmetic, ScalarOp::Mul, f, br[k as int]))));
            r += 1;
        }
        assert(eliminate(arithmetic, larger, ak, bk, k as int, m as int) == eliminate(arithmetic, larger, rows_of(a@), b@, k + 1, m as int));
        k += 1;
    }
    let ghost u = rows_of(a@);
    let ghost c0 = b@;
    let mut x = copy_of(&b);
    let mut k: usize = m;
    while k > 0
        invariant
            a@.len() == m,
            b@.len() == m,
            x@.len() == m,
            forall|i: int| 0 <= i < m ==> #[trigger] a@[i]@.len() == m,
            u == rows_of(a@),
            c0 == b@,
            k <= m,
            back_substitute(arithmetic, u, c0, c0, m as int) == back_substitute(arithmetic, u, c0, x@, k as int),
            arithmetic_is_function(arithmetic),
            forall|o: ScalarOp, x: T, y: T| #[trigger] arithmetic.requires((o, x, y)),
        decreases k,
    {
        k -= 1;
        let mut sum = b[k];
        let mut c: usize = k + 1;
        while c < m
            invariant
                a@.len() == m,
                x@.len() == m,
                forall|i: int| 0 <= i < m ==> #[trigger] a@[i]@.len() == m,
                u == rows_of(a@),
                k < c <= m,
                row_sum(arithmetic, u, x@, k as int, k + 1, c0[k as int]) == row_sum(arithmetic, u, x@, k as int, c as int, sum),
                arithmetic_is_function(arithmetic),
                forall|o: ScalarOp, x: T, y: T| #[trigger] arithmetic.requires((o, x, y)),
            decreases m - c,
        {
            let t = arithmetic(ScalarOp::Mul, a[k][c], x[c]);
            proof {
                lemma_apply(arithmetic, ScalarOp::Mul, u[k as int][c as int], x@[c as int], t);
            }
            let s = arithmetic(ScalarOp::Sub, sum, t);
            proof {
                lemma_apply(arithmetic, ScalarOp::Sub, sum, t, s);
            }
            sum = s;
            c += 1;
        }
        let solved = arithmetic(ScalarOp::Div, sum, a[k][k]);
        proof {
            lemma_apply(arithmetic, ScalarOp::Div, sum, u[k as int][k as int], solved);
        }
        x.set(k, solved);
    }
    assert(eliminate(arithmetic, larger, a0, b0, 0, m as int) == eliminate(arithmetic, larger, u, c0, m as int, m as int));
    x
}

/// Solves the two-point boundary value problem whose residual is
/// `differential_equation` by Newton's method, for exactly `num_iterations`
/// iterations, starting from `initial_guess`.
///
/// The guess first takes the prescribed end-point values. Each iteration
/// evaluates the residual, builds its Jacobian with respect to the interior
/// values by finite differences of size `perturbation`, solves the linear
/// system for the Newton correction by Gaussian elimination with partial
/// pivoting, subtracts it from the interior values and imposes the
/// end-point values again.
///
/// `arithmetic` performs one scalar operation, `larger(p, q)` tells whether
/// the magnitude of `p` exceeds that of `q`, and `is_finite` whether a
/// residual value is finite; each computes a function of its arguments, and
/// the residual depends on the coordinates and values of its argument alone.
/// The grid needs at least three points, so that there is an interior point
/// to update. An error of the residual function, a residual of another
/// length, or a residual value that is not finite ends the solve with that
/// error.
pub fn newtons_method<T: Copy, R, S, P, V>(
    differential_equation: R,
    arithmetic: S,
    larger: P,
    is_finite: V,
    perturbation: T,
    boundary_conditions: &BoundaryConditions<T>,
    initial_guess: &GridFunction<T>,
    num_iterations: usize,
) -> (r: Result<GridFunction<T>, GridError>) where
    R: Fn(&GridFunction<T>) -> Result<GridFunction<T>, GridError> + Copy,
    S: Fn(ScalarOp, T, T) -> T + Copy,
    P: Fn(T, T) -> bool + Copy,
    V: Fn(T) -> bool + Copy,

    requires
        initial_guess.wf(),
        residual_is_function(differential_equation),
        arithmetic_is_function(arithmetic),
        comparison_is_function(larger),
        forall|h: &GridFunction<T>| #[trigger] differential_equation.requires((h,)),
        forall|o: ScalarOp, x: T, y: T| #[trigger] arithmetic.requires((o, x, y)),
        forall|x: T, y: T| #[trigger] larger.requires((x, y)),
        forall|x: T| #[trigger] is_finite.requires((x,)),
    ensures
        initial_guess.values().len() < 3 ==> r == Err::<GridFunction<T>, GridError>(
            GridError::InvalidDomain,
        ),
        initial_guess.values().len() >= 3 && num_iterations == 0 ==> r is Ok && with_boundary_values(
            *boundary_conditions,
            initial_guess.values(),
            r->Ok_0.values(),
        ),
        initial_guess.values().len() >= 3 && residual_succeeds_on(
            differential_equation,
            is_finite,
            initial_guess.grid.points(),
            initial_guess.values().len(),
        ) ==> r is Ok,
        r is Ok ==> {
            let g = r->Ok_0;
            let n = initial_guess.values().len();
            &&& g.wf()
            &&& g.grid.points() == initial_guess.grid.points()
            &&& g.values().len() == n
            &&& g.values()[0] == boundary_conditions.left_value
            &&& g.values()[n - 1] == boundary_conditions.right_value
        },
        r is Ok ==> exists|iterates: Seq<Seq<T>>|
            #[trigger] is_newton_run(
                differential_equation,
                arithmetic,
                larger,
                perturbation,
                *boundary_conditions,
                initial_guess.grid.points(),
                initial_guess.values(),
                iterates,
                num_iterations as nat,
                r->Ok_0.values(),
            ),
        r is Err && initial_guess.values().len() >= 3 ==> exists|
            g: GridFunction<T>,
            out: Result<GridFunction<T>, GridError>,
        |
            g.grid.points() == initial_guess.grid.points() && g.values().len() == initial_guess.values().len()
                && #[trigger] differential_equation.ensures((&g,), out) && evaluation_failed(
                is_finite,
                g,
                out,
                r->Err_0,
            ),
{
    let n = initial_guess.function_values.len();
    if n < 3 {
        return Err(GridError::InvalidDomain);
    }
    let m = n - 2;
    let ghost points = initial_guess.grid.points();
    let mut guess = apply_boundary_conditions(boundary_conditions, initial_guess);
    let ghost mut iterates: Seq<Seq<T>> = seq![guess.values()];
    let mut iteration: usize = 0;
    while iteration < num_iterations
        invariant
            n == initial_guess.values().len(),
            n >= 3,
            m == n - 2,
            points == initial_guess.grid.points(),
            guess.wf(),
            guess.grid.points() == points,
            guess.values().len() == n,
            guess.values()[0] == boundary_conditions.left_value,
            guess.values()[n - 1] == boundary_conditions.right_value,
            is_newton_run(
                differential_equation,
                arithmetic,
                larger,
                perturbation,
                *boundary_conditions,
                points,
                initial_guess.values(),
                iterates,
                iteration as nat,
                guess.values(),
            ),
            iteration <= num_iterations,
            residual_is_function(differential_equation),
            arithmetic_is_function(arithmetic),
            comparison_is_function(larger),
            forall|h: &GridFunction<T>| #[trigger] differential_equation.requires((h,)),
            forall|o: ScalarOp, x: T, y: T| #[trigger] arithmetic.requires((o, x, y)),
            forall|x: T, y: T| #[trigger] larger.requires((x, y)),
            forall|x: T| #[trigger] is_finite.requires((x,)),
        decreases num_iterations - iteration,
    {
        let base = match evaluate(differential_equation, is_finite, &guess) {
            Ok(v) => v,
            Err(e) => {
                proof {
                    let out = choose|out: Result<GridFunction<T>, GridError>|
                        #[trigger] differential_equation.ensures((&guess,), out) && evaluation_failed(
                            is_finite,
                            guess,
                            out,
                            e,
                        );
                    assert(differential_equation.ensures((&guess,), out));
                }
                return Err(e);
            },
        };
        let a = match jacobian(differential_equation, arithmetic, is_finite, perturbation, &guess, &base) {
            Ok(a) => a,
            Err(e) => return Err(e),
        };
        let mut rhs: Vec<T> = Vec::new();
        let mut i: usize = 0;
        while i < m
            invariant
                base@.len() == n,
                m == n - 2,
                i <= m,
                rhs@ == base@.subrange(1, i + 1),
            decreases m - i,
        {
            rhs.push(base[i + 1]);
            i += 1;
        }
        let correction = solve_linear(a, rhs, arithmetic, larger);
        let ghost prev = guess.values();
        let ghost update = newton_update(
            differential_equation,
            arithmetic,
            larger,
            perturbation,
            *boundary_conditions,
            points,
            prev,
        );
        let mut i: usize = 0;
        while i < m
            invariant
                prev.len() == n,
                forall|j: int| 0 <= j < i ==> #[trigger] guess.values()[j + 1] == apply(
                    arithmetic,
                    ScalarOp::Sub,
                    prev[j + 1],
                    correction@[j],
                ),
                forall|j: int| i < j < n ==> #[trigger] guess.values()[j] == prev[j],
                guess.wf(),
                guess.grid.points() == points,
                guess.values().len() == n,
                guess.values()[0] == boundary_conditions.left_value,
                guess.values()[n - 1] == boundary_conditions.right_value,
                correction@.len() == m,
                m == n - 2,
                i <= m,
                arithmetic_is_function(arithmetic),
                forall|o: ScalarOp, x: T, y: T| #[trigger] arithmetic.requires((o, x, y)),
            decreases m - i,
        {
            let updated = arithmetic(ScalarOp::Sub, guess.function_values[i + 1], correction[i]);
            proof {
                lemma_apply(arithmetic, ScalarOp::Sub, prev[i + 1], correction@[i as int], updated);
            }
            guess.function_values.set(i + 1, updated);
            i += 1;
        }
        guess = apply_boundary_conditions(boundary_conditions, &guess);
        proof {
            assert forall|j: int| 0 <= j < n implies #[trigger] guess.values()[j] == update[j] by {
                if 0 < j < n - 1 {
                    assert(guess.values()[(j - 1) + 1] == apply(
                        arithmetic,
                        ScalarOp::Sub,
                        prev[(j - 1) + 1],
                        correction@[j - 1],
                    ));
                }
            }
            assert(guess.values() =~= update);
            let old_iterates = iterates;
            iterates = iterates.push(guess.values());
            assert forall|k: int| 0 <= k < iteration + 1 implies iterates[k + 1] == #[trigger] newton_update(
                differential_equation,
                arithmetic,
                larger,
                perturbation,
                *boundary_conditions,
                points,
                iterates[k],
            ) by {
                if k < iteration {
                    assert(iterates[k] == old_iterates[k]);
                    assert(iterates[k + 1] == old_iterates[k + 1]);
                }
            }
        }
        iteration += 1;
    }
    Ok(guess)
}

} // verus!
