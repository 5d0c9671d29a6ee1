use vstd::prelude::*;

verus! {

/// An ordered sequence of sample coordinates over an interval.
pub struct Grid<T> {
    pub grid_points: Vec<T>,
}

impl<T: Copy> Grid<T> {
    /// The coordinates of the grid, in order.
    pub open spec fn points(&self) -> Seq<T> {
        self.grid_points@
    }

    /// A grid always holds at least one point.
    pub open spec fn wf(&self) -> bool {
        self.points().len() >= 1
    }

    /// Creates a uniform grid of `num_points` points from `start_point` to
    /// `end_point` inclusive.
    ///
    /// `start_before_end` tells whether `start_point` lies strictly before
    /// `end_point`, and `point_at(i)` computes the interior coordinate
    /// `start + i * (end - start) / (num_points - 1)`; the two ends are the
    /// given `start_point` and `end_point` themselves. When the interval is
    /// empty or reversed, or fewer than two points are asked for, the grid
    /// collapses to the single point `start_point`.
    pub fn new_uniform_grid<F: Fn(usize) -> T>(
        start_point: T,
        end_point: T,
        num_points: usize,
        start_before_end: bool,
        point_at: F,
    ) -> (grid: Self)
        requires
            start_before_end && num_points > 1 ==> forall|i: usize|
                0 < i < num_points - 1 ==> #[trigger] point_at.requires((i,)),
        ensures
            grid.wf(),
            !start_before_end || num_points <= 1 ==> grid.points() == seq![start_point],
            start_before_end && num_points > 1 ==> {
                &&& grid.points().len() == num_points
                &&& grid.points()[0] == start_point
                &&& grid.points()[num_points - 1] == end_point
                &&& forall|i: int|
                    0 < i < num_points - 1 ==> point_at.ensures((i as usize,), #[trigger] grid.points()[i])
            },
    {
        if !start_before_end || num_points <= 1 {
            return Grid { grid_points: vec![start_point] };
        }
        let mut grid_points: Vec<T> = vec![start_point];
        let mut i: usize = 1;
        while i < num_points - 1
            invariant
                1 <= i <= num_points - 1,
                grid_points@.len() == i,
                grid_points@[0] == start_point,
                forall|k: usize| 0 < k < num_points - 1 ==> #[trigger] point_at.requires((k,)),
                forall|k: int| 0 < k < i ==> point_at.ensures((k as usize,), #[trigger] grid_points@[k]),
            decreases num_points - i,
        {
            let p = point_at(i);
            grid_points.push(p);
            i += 1;
        }
        grid_points.push(end_point);
        Grid { grid_points }
    }

    /// The number of points of the grid.
    pub fn len(&self) -> (n: usize)
        ensures
            n == self.points().len(),
    {
        self.grid_points.len()
    }

    /// A copy of the grid, point for point.
    pub fn duplicate(&self) -> (copy: Self)
        ensures
            copy.points() == self.points(),
    {
        let mut grid_points: Vec<T> = Vec::new();
        let mut i: usize = 0;
        while i < self.grid_points.len()
            invariant
                i <= self.points().len(),
                grid_points@ == self.points().subrange(0, i as int),
            decreases self.points().len() - i,
        {
            grid_points.push(self.grid_points[i]);
            i += 1;
        }
        Grid { grid_points }
    }
}

} // verus!
