use vstd::prelude::*;
use crate::error::GridError;
use crate::grid::Grid;

verus! {

/// The neighbours `(lo, hi)` that the forward-difference operator uses at
/// point `i` of a grid of `n` points: `(i, i + 1)`, and at the last point,
/// which has no forward neighbour, the backward pair `(n - 2, n - 1)`.
pub open spec fn forward_stencil(n: int, i: int) -> (int, int) {
    if i < n - 1 {
        (i, i + 1)
    } else {
        (n - 2, n - 1)
    }
}

/// The neighbours `(lo, hi)` that the central-difference operator uses at
/// point `i` of a grid of `n` points: the forward pair at the first point,
/// `(i - 1, i + 1)` in the interior and the backward pair at the last point.
pub open spec fn central_stencil(n: int, i: int) -> (int, int) {
    if i == 0 {
        (0, 1)
    } else if i < n - 1 {
        (i - 1, i + 1)
    } else {
        (n - 2, n - 1)
    }
}

/// Computes `forward_stencil` on machine integers.
pub fn forward_neighbours(n: usize, i: usize) -> (r: (usize, usize))
    requires
        2 <= n,
        i < n,
    ensures
        r.0 as int == forward_stencil(n as int, i as int).0,
        r.1 as int == forward_stencil(n as int, i as int).1,
{
    if i < n - 1 {
        (i, i + 1)
    } else {
        (n - 2, n - 1)
    }
}

/// Computes `central_stencil` on machine integers.
pub fn central_neighbours(n: usize, i: usize) -> (r: (usize, usize))
    requires
        2 <= n,
        i < n,
    ensures
        r.0 as int == central_stencil(n as int, i as int).0,
        r.1 as int == central_stencil(n as int, i as int).1,
{
    if i == 0 {
        (0, 1)
    } else if i < n - 1 {
        (i - 1, i + 1)
    } else {
        (n - 2, n - 1)
    }
}

/// A function sampled at every point of a grid.
pub struct GridFunction<T> {
    pub grid: Grid<T>,
    pub function_values: Vec<T>,
}

/// `d` holds, at every point, what `quotient` returns for the difference
/// quotient `(v[hi] - v[lo]) / (x[hi] - x[lo])` of `f` over the pair that the
/// forward stencil picks (`central` false) or the central stencil picks
/// (`central` true).
pub open spec fn is_difference<T: Copy, Q: Fn(T, T, T, T) -> T>(
    quotient: Q,
    f: GridFunction<T>,
    d: GridFunction<T>,
    central: bool,
) -> bool {
    let n = f.values().len();
    &&& d.grid.points() == f.grid.points()
    &&& d.values().len() == n
    &&& forall|i: int|
        0 <= i < n ==> {
            let (lo, hi) = if central {
                central_stencil(n as int, i)
            } else {
                forward_stencil(n as int, i)
            };
            quotient.ensures(
                (f.values()[hi], f.values()[lo], f.grid.points()[hi], f.grid.points()[lo]),
                #[trigger] d.values()[i],
            )
        }
}

/// `s` is the point-by-point sum of `a` and `b` under `plus`, on the grid of `a`.
pub open spec fn is_sum<T: Copy, A: Fn(T, T) -> T>(
    plus: A,
    a: GridFunction<T>,
    b: GridFunction<T>,
    s: GridFunction<T>,
) -> bool {
    &&& s.grid.points() == a.grid.points()
    &&& s.values().len() == a.values().len()
    &&& forall|i: int|
        0 <= i < a.values().len() ==> plus.ensures((a.values()[i], b.values()[i]), #[trigger] s.values()[i])
}

impl<T: Copy> GridFunction<T> {
    /// The sampled values, in grid order.
    pub open spec fn values(&self) -> Seq<T> {
        self.function_values@
    }

    /// The grid is well formed and holds one point per value.
    pub open spec fn wf(&self) -> bool {
        &&& self.grid.wf()
        &&& self.values().len() == self.grid.points().len()
    }

    /// Samples `func` at every point of `grid`, in grid order, calling it
    /// once per point.
    pub fn new_grid_function<F: Fn(T) -> T>(grid: Grid<T>, func: F) -> (gf: Self)
        requires
            forall|i: int| 0 <= i < grid.points().len() ==> #[trigger] func.requires((grid.points()[i],)),
        ensures
            gf.grid == grid,
            gf.values().len() == grid.points().len(),
            forall|i: int|
                0 <= i < grid.points().len() ==> func.ensures((grid.points()[i],), #[trigger] gf.values()[i]),
    {
        let mut function_values: Vec<T> = Vec::new();
        let mut i: usize = 0;
        while i < grid.grid_points.len()
            invariant
                i <= grid.points().len(),
                function_values@.len() == i,
                forall|k: int| 0 <= k < grid.points().len() ==> #[trigger] func.requires((grid.points()[k],)),
                forall|k: int| 0 <= k < i ==> func.ensures((grid.points()[k],), #[trigger] function_values@[k]),
            decreases grid.points().len() - i,
        {
            let v = func(grid.grid_points[i]);
            function_values.push(v);
            i += 1;
        }
        GridFunction { grid, function_values }
    }

    /// A copy of the grid function, grid and values alike.
    pub fn duplicate(&self) -> (copy: Self)
        ensures
            copy.grid.points() == self.grid.points(),
            copy.values() == self.values(),
    {
        let grid = self.grid.duplicate();
        let mut function_values: Vec<T> = Vec::new();
        let mut i: usize = 0;
        while i < self.function_values.len()
            invariant
                i <= self.values().len(),
                function_values@ == self.values().subrange(0, i as int),
            decreases self.values().len() - i,
        {
            function_values.push(self.function_values[i]);
            i += 1;
        }
        GridFunction { grid, function_values }
    }

    /// The number of sampled values.
    pub fn len(&self) -> (n: usize)
        ensures
            n == self.values().len(),
    {
        self.function_values.len()
    }

    /// Applies `quotient` over the stencil that `central` selects at every
    /// point of `f`.
    fn difference<Q: Fn(T, T, T, T) -> T>(f: &GridFunction<T>, quotient: Q, central: bool) -> (r: Result<
        GridFunction<T>,
        GridError,
    >)
        requires
            f.wf(),
            forall|a: T, b: T, c: T, d: T| #[trigger] quotient.requires((a, b, c, d)),
        ensures
            f.values().len() >= 2 <==> r is Ok,
            r is Err ==> r->Err_0 == GridError::InvalidDomain,
            r is Ok ==> r->Ok_0.wf() && is_difference(quotient, *f, r->Ok_0, central),
    {
        let n = f.function_values.len();
        if n < 2 {
            return Err(GridError::InvalidDomain);
        }
        let x = &f.grid.grid_points;
        let v = &f.function_values;
        let mut values: Vec<T> = Vec::new();
        let mut i: usize = 0;
        while i < n
            invariant
                n == f.values().len() == f.grid.points().len(),
                2 <= n,
                x@ == f.grid.points(),
                v@ == f.values(),
                i <= n,
                values@.len() == i,
                forall|a: T, b: T, c: T, d: T| #[trigger] quotient.requires((a, b, c, d)),
                forall|k: int|
                    0 <= k < i ==> {
                        let (lo, hi) = if central {
                            central_stencil(n as int, k)
                        } else {
                            forward_stencil(n as int, k)
                        };
                        quotient.ensures(
                            (f.values()[hi], f.values()[lo], f.grid.points()[hi], f.grid.points()[lo]),
                            #[trigger] values@[k],
                        )
                    },
            decreases n - i,
        {
            let (lo, hi) = if central {
                central_neighbours(n, i)
            } else {
                forward_neighbours(n, i)
            };
            let d = quotient(v[hi], v[lo], x[hi], x[lo]);
            values.push(d);
            i += 1;
        }
        let grid = f.grid.duplicate();
        Ok(GridFunction { grid, function_values: values })
    }

    /// The forward-difference first derivative of `grid_function`, with the
    /// backward difference at the last point.
    ///
    /// `quotient(v_hi, v_lo, x_hi, x_lo)` computes
    /// `(v_hi - v_lo) / (x_hi - x_lo)`. A grid function of fewer than two
    /// points has no derivative.
    pub fn forward_difference_derivative<Q: Fn(T, T, T, T) -> T>(
        grid_function: &GridFunction<T>,
        quotient: Q,
    ) -> (r: Result<GridFunction<T>, GridError>)
        requires
            grid_function.wf(),
            forall|a: T, b: T, c: T, d: T| #[trigger] quotient.requires((a, b, c, d)),
        ensures
            grid_function.values().len() >= 2 <==> r is Ok,
            r is Err ==> r->Err_0 == GridError::InvalidDomain,
            r is Ok ==> r->Ok_0.wf() && is_difference(quotient, *grid_function, r->Ok_0, false),
    {
        Self::difference(grid_function, quotient, false)
    }

    /// The central-difference first derivative of `grid_function`, with the
    /// forward difference at the first point and the backward difference at
    /// the last.
    ///
    /// `quotient(v_hi, v_lo, x_hi, x_lo)` computes
    /// `(v_hi - v_lo) / (x_hi - x_lo)`. A grid function of fewer than two
    /// points has no derivative.
    pub fn central_difference_derivative<Q: Fn(T, T, T, T) -> T>(
        grid_function: &GridFunction<T>,
        quotient: Q,
    ) -> (r: Result<GridFunction<T>, GridError>)
        requires
            grid_function.wf(),
            forall|a: T, b: T, c: T, d: T| #[trigger] quotient.requires((a, b, c, d)),
        ensures
            grid_function.values().len() >= 2 <==> r is Ok,
            r is Err ==> r->Err_0 == GridError::InvalidDomain,
            r is Ok ==> r->Ok_0.wf() && is_difference(quotient, *grid_function, r->Ok_0, true),
    {
        Self::difference(grid_function, quotient, true)
    }

    /// The point-by-point sum of `a` and `b`, on the grid of `a`.
    ///
    /// The two functions are matched by position; they must hold the same
    /// number of values.
    pub fn grid_function_addition<A: Fn(T, T) -> T>(
        a: &GridFunction<T>,
        b: &GridFunction<T>,
        plus: A,
    ) -> (r: Result<GridFunction<T>, GridError>)
        requires
            a.wf(),
            forall|x: T, y: T| #[trigger] plus.requires((x, y)),
        ensures
            a.values().len() == b.values().len() <==> r is Ok,
            r is Err ==> r->Err_0 == GridError::ShapeMismatch,
            r is Ok ==> r->Ok_0.wf() && is_sum(plus, *a, *b, r->Ok_0),
    {
        let n = a.function_values.len();
        if n != b.function_values.len() {
            return Err(GridError::ShapeMismatch);
        }
        let mut values: Vec<T> = Vec::new();
        let mut i: usize = 0;
        while i < n
            invariant
                n == a.values().len() == b.values().len(),
                i <= n,
                values@.len() == i,
                forall|x: T, y: T| #[trigger] plus.requires((x, y)),
                forall|k: int|
                    0 <= k < i ==> plus.ensures((a.values()[k], b.values()[k]), #[trigger] values@[k]),
            decreases n - i,
        {
            let s = plus(a.function_values[i], b.function_values[i]);
            values.push(s);
            i += 1;
        }
        let grid = a.grid.duplicate();
        Ok(GridFunction { grid, function_values: values })
    }
}

/// On a two-point grid function the forward and the central operators agree:
/// both give, at both points, the one difference quotient of the two values.
pub proof fn lemma_two_point_operators_agree<T: Copy, Q: Fn(T, T, T, T) -> T>(
    quotient: Q,
    f: GridFunction<T>,
    forward: GridFunction<T>,
    central: GridFunction<T>,
)
    requires
        f.wf(),
        f.values().len() == 2,
        is_difference(quotient, f, forward, false),
        is_difference(quotient, f, central, true),
    ensures
        forward.values().len() == 2,
        central.values().len() == 2,
        forall|i: int|
            0 <= i < 2 ==> {
                let args = (f.values()[1], f.values()[0], f.grid.points()[1], f.grid.points()[0]);
                &&& quotient.ensures(args, #[trigger] forward.values()[i])
                &&& quotient.ensures(args, central.values()[i])
            },
{
    assert forall|i: int| 0 <= i < 2 implies {
        let args = (f.values()[1], f.values()[0], f.grid.points()[1], f.grid.points()[0]);
        &&& quotient.ensures(args, #[trigger] forward.values()[i])
        &&& quotient.ensures(args, central.values()[i])
    } by {
        assert(forward_stencil(2, i) == (0int, 1int));
        assert(central_stencil(2, i) == (0int, 1int));
        assert(quotient.ensures(
            (f.values()[1], f.values()[0], f.grid.points()[1], f.grid.points()[0]),
            forward.values()[i],
        ));
        assert(quotient.ensures(
            (f.values()[1], f.values()[0], f.grid.points()[1], f.grid.points()[0]),
            central.values()[i],
        ));
    }
}

/// Differencing a constant function (of at least two points, which either
/// operator needs, at distinct coordinates) gives the zero function
/// everywhere, with either operator, for any `quotient` that maps two equal
/// values at two distinct coordinates to `zero`.
pub proof fn lemma_constant_has_zero_derivative<T: Copy, Q: Fn(T, T, T, T) -> T>(
    quotient: Q,
    f: GridFunction<T>,
    d: GridFunction<T>,
    central: bool,
    c: T,
    zero: T,
)
    requires
        f.wf(),
        f.values().len() >= 2,
        forall|i: int| 0 <= i < f.values().len() ==> #[trigger] f.values()[i] == c,
        forall|i: int, j: int|
            0 <= i < j < f.grid.points().len() ==> #[trigger] f.grid.points()[i] != #[trigger] f.grid.points()[j],
        forall|x1: T, x0: T, r: T| x1 != x0 && #[trigger] quotient.ensures((c, c, x1, x0), r) ==> r == zero,
        is_difference(quotient, f, d, central),
    ensures
        d.values().len() == f.values().len(),
        forall|i: int| 0 <= i < d.values().len() ==> #[trigger] d.values()[i] == zero,
{
    let n = f.values().len();
    assert forall|i: int| 0 <= i < d.values().len() implies #[trigger] d.values()[i] == zero by {
        let (lo, hi) = if central {
            central_stencil(n as int, i)
        } else {
            forward_stencil(n as int, i)
        };
        assert(0 <= lo < n && 0 <= hi < n);
        assert(f.values()[lo] == c && f.values()[hi] == c);
        assert(quotient.ensures((c, c, f.grid.points()[hi], f.grid.points()[lo]), d.values()[i]));
    }
}

} // verus!
