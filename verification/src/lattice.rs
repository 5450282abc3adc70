//! The geometry of the grid: a square lattice that spans
//! `[-canvas_size, canvas_size)` on both axes, its points one cell size and
//! one gap apart.

use vstd::prelude::*;
use vstd::arithmetic::div_mod::{
    lemma_fundamental_div_mod,
    lemma_fundamental_div_mod_converse,
};
use crate::cell::Position;

verus! {

/// The most lattice points that one axis may hold.
pub const MAX_AXIS_CELLS: i64 = 4096;

/// Why a grid cannot be laid out.
#[derive(Clone, Copy, Debug, PartialEq, Eq, Structural)]
pub enum ConfigError {
    /// The cell size is zero or negative.
    CellSize,
    /// The gap between cells is negative.
    CellGap,
    /// An axis would hold more than `MAX_AXIS_CELLS` points.
    TooManyCells,
    /// The time between two ticks is zero.
    TickPeriod,
}

/// The three numbers that lay out a grid.
#[derive(Clone, Copy, Debug, PartialEq, Eq, Structural)]
pub struct Lattice {
    /// Half the width of the canvas: both axes run from `-canvas_size` up to,
    /// but not reaching, `canvas_size`.
    pub canvas_size: i32,
    /// The edge length of a cell.
    pub cell_size: i32,
    /// The free space between two cells.
    pub cell_gap: i32,
}

impl Lattice {
    /// The distance between two lattice points that lie side by side.
    pub open spec fn spec_step(self) -> int {
        self.cell_size + self.cell_gap
    }

    /// The number of lattice points on one axis: the multiples of the step
    /// that fit in `[0, 2 * canvas_size)`.
    pub open spec fn spec_axis_len(self) -> int {
        if self.canvas_size <= 0 {
            0
        } else {
            (2 * self.canvas_size + self.spec_step() - 1) / self.spec_step()
        }
    }

    /// The number of lattice points.
    pub open spec fn spec_len(self) -> int {
        self.spec_axis_len() * self.spec_axis_len()
    }

    /// Whether a grid can be laid out: the cell size is positive, the gap is
    /// not negative, and no axis holds too many points.
    pub open spec fn valid(self) -> bool {
        &&& self.cell_size > 0
        &&& self.cell_gap >= 0
        &&& self.spec_axis_len() <= MAX_AXIS_CELLS
    }

    /// The coordinate of the `k`-th point of an axis.
    pub open spec fn coordinate(self, k: int) -> int {
        -self.canvas_size + k * self.spec_step()
    }

    /// Whether `v` is the coordinate of a point of an axis: it lies in
    /// `[-canvas_size, canvas_size)`, a whole number of steps from the start.
    pub open spec fn on_axis(self, v: int) -> bool {
        &&& -self.canvas_size <= v < self.canvas_size
        &&& (v + self.canvas_size) % self.spec_step() == 0
    }

    /// Whether `(x, z)` is a lattice point.
    pub open spec fn has_point(self, x: int, z: int) -> bool {
        self.on_axis(x) && self.on_axis(z)
    }

    /// The place on its axis of the on-axis coordinate `v`.
    pub open spec fn axis_index(self, v: int) -> int {
        (v + self.canvas_size) / self.spec_step()
    }

    /// The position of the `i`-th lattice point. The points are numbered along
    /// `z` first: point `i` is in row `i / n` of `x` and in column `i % n` of
    /// `z`, `n` being the number of points on an axis.
    pub open spec fn position(self, i: int) -> Position {
        Position {
            x: self.coordinate(i / self.spec_axis_len()) as i32,
            z: self.coordinate(i % self.spec_axis_len()) as i32,
        }
    }

    /// The number under which the lattice point `(x, z)` is kept.
    pub open spec fn index_of(self, x: int, z: int) -> int {
        self.axis_index(x) * self.spec_axis_len() + self.axis_index(z)
    }

    /// What `new` returns for three given numbers.
    pub open spec fn spec_new(canvas_size: i32, cell_size: i32, cell_gap: i32) -> Result<
        Lattice,
        ConfigError,
    > {
        let lattice = Lattice { canvas_size, cell_size, cell_gap };
        if cell_size <= 0 {
            Err(ConfigError::CellSize)
        } else if cell_gap < 0 {
            Err(ConfigError::CellGap)
        } else if lattice.spec_axis_len() > MAX_AXIS_CELLS {
            Err(ConfigError::TooManyCells)
        } else {
            Ok(lattice)
        }
    }

    /// Checks the three numbers and keeps them if a grid can be laid out.
    pub fn new(canvas_size: i32, cell_size: i32, cell_gap: i32) -> (r: Result<Lattice, ConfigError>)
        ensures
            r == Lattice::spec_new(canvas_size, cell_size, cell_gap),
            r matches Ok(lattice) ==> lattice.valid(),
    {
        let lattice = Lattice { canvas_size, cell_size, cell_gap };
        if cell_size <= 0 {
            Err(ConfigError::CellSize)
        } else if cell_gap < 0 {
            Err(ConfigError::CellGap)
        } else if lattice.axis_len() > MAX_AXIS_CELLS {
            Err(ConfigError::TooManyCells)
        } else {
            Ok(lattice)
        }
    }

    /// The distance between two lattice points that lie side by side.
    pub fn step(&self) -> (step: i64)
        ensures
            step == self.spec_step(),
    {
        self.cell_size as i64 + self.cell_gap as i64
    }

    /// The number of lattice points on one axis.
    pub fn axis_len(&self) -> (n: i64)
        requires
            self.cell_size > 0,
            self.cell_gap >= 0,
        ensures
            n == self.spec_axis_len(),
            0 <= n,
    {
        if self.canvas_size <= 0 {
            0
        } else {
            let step = self.step();
            let width: i64 = 2 * (self.canvas_size as i64);
            proof {
                lemma_div_nonnegative(width + step - 1, step as int);
            }
            (width + step - 1) / step
        }
    }

    /// The coordinates of the points of one axis, from `-canvas_size` up in
    /// steps.
    pub fn axis_coordinates(&self) -> (axis: Vec<i32>)
        requires
            self.valid(),
        ensures
            axis@.len() == self.spec_axis_len(),
            forall|k: int| 0 <= k < axis@.len() ==> #[trigger] axis@[k] == self.coordinate(k),
    {
        let n = self.axis_len();
        let step = self.step();
        let mut axis: Vec<i32> = Vec::new();
        let mut k: i64 = 0;
        let mut v: i64 = -(self.canvas_size as i64);
        while k < n
            invariant
                self.valid(),
                n == self.spec_axis_len(),
                step == self.spec_step(),
                0 <= k <= n,
                v == self.coordinate(k as int),
                axis@.len() == k,
                forall|j: int| 0 <= j < k ==> #[trigger] axis@[j] == self.coordinate(j),
            decreases n - k,
        {
            proof {
                self.lemma_coordinate_in_range(k as int);
                lemma_mul_successor(k as int, step as int);
            }
            axis.push(v as i32);
            v = v + step;
            k = k + 1;
        }
        axis
    }

    /// An axis holds no negative number of points.
    pub proof fn lemma_axis_len_nonnegative(self)
        requires
            self.cell_size > 0,
            self.cell_gap >= 0,
        ensures
            0 <= self.spec_axis_len(),
    {
        if self.canvas_size > 0 {
            lemma_div_nonnegative(2 * self.canvas_size + self.spec_step() - 1, self.spec_step());
        }
    }

    /// How many points an axis holds: as many steps as it takes to cover the
    /// width `2 * canvas_size` of the canvas, and no more. Where the step
    /// divides the width, that is the width over the step; else the quotient
    /// is rounded up.
    pub proof fn lemma_axis_len_covers(self)
        requires
            self.cell_size > 0,
            self.cell_gap >= 0,
            self.canvas_size > 0,
        ensures
            (self.spec_axis_len() - 1) * self.spec_step() < 2 * self.canvas_size,
            2 * self.canvas_size <= self.spec_axis_len() * self.spec_step(),
            (2 * self.canvas_size) % self.spec_step() == 0 ==> self.spec_axis_len() == (2
                * self.canvas_size) / self.spec_step(),
            (2 * self.canvas_size) % self.spec_step() != 0 ==> self.spec_axis_len() == (2
                * self.canvas_size) / self.spec_step() + 1,
    {
        let step = self.spec_step();
        let width = 2 * self.canvas_size;
        let n = self.spec_axis_len();
        lemma_fundamental_div_mod(width + step - 1, step);
        lemma_fundamental_div_mod(width, step);
        assert((n - 1) * step == step * n - step) by (nonlinear_arith);
        assert(n * step == step * n) by (nonlinear_arith);
        let q = width / step;
        let r = width % step;
        if r == 0 {
            lemma_fundamental_div_mod_converse(width + step - 1, step, q, step - 1);
        } else {
            assert((q + 1) * step == step * q + step) by (nonlinear_arith);
            lemma_fundamental_div_mod_converse(width + step - 1, step, q + 1, r - 1);
        }
    }

    /// Every point of an axis lies in `[-canvas_size, canvas_size)`, and so
    /// fits the type of a coordinate.
    pub proof fn lemma_coordinate_in_range(self, k: int)
        requires
            self.cell_size > 0,
            self.cell_gap >= 0,
            0 <= k < self.spec_axis_len(),
        ensures
            -self.canvas_size <= self.coordinate(k) < self.canvas_size,
            self.on_axis(self.coordinate(k)),
            self.axis_index(self.coordinate(k)) == k,
    {
        let step = self.spec_step();
        let width = 2 * self.canvas_size;
        let n = self.spec_axis_len();
        lemma_fundamental_div_mod(width + step - 1, step);
        assert(0 <= k * step && k * step <= (n - 1) * step) by (nonlinear_arith)
            requires
                0 <= k <= n - 1,
                step > 0,
        ;
        assert((n - 1) * step == step * n - step) by (nonlinear_arith);
        lemma_fundamental_div_mod_converse(k * step, step, k, 0);
    }

    /// A coordinate on an axis is the coordinate of the point at its place.
    pub proof fn lemma_on_axis_is_coordinate(self, v: int)
        requires
            self.cell_size > 0,
            self.cell_gap >= 0,
            self.on_axis(v),
        ensures
            0 <= self.axis_index(v) < self.spec_axis_len(),
            self.coordinate(self.axis_index(v)) == v,
    {
        let step = self.spec_step();
        let width = 2 * self.canvas_size;
        let n = self.spec_axis_len();
        let d = v + self.canvas_size;
        let k = d / step;
        lemma_fundamental_div_mod(d, step);
        lemma_fundamental_div_mod(width + step - 1, step);
        assert(step * k == k * step) by (nonlinear_arith);
        assert(0 <= k) by (nonlinear_arith)
            requires
                0 <= step * k,
                step > 0,
        ;
        assert(k < n) by (nonlinear_arith)
            requires
                step * k < width,
                width + step - 1 - (step - 1) <= step * n,
                step > 0,
        ;
    }

    /// Splitting the number of a lattice point into its row and its column.
    pub proof fn lemma_index_split(self, i: int)
        requires
            self.valid(),
            0 <= i < self.spec_len(),
        ensures
            0 <= i / self.spec_axis_len() < self.spec_axis_len(),
            0 <= i % self.spec_axis_len() < self.spec_axis_len(),
            i == (i / self.spec_axis_len()) * self.spec_axis_len() + i % self.spec_axis_len(),
    {
        let n = self.spec_axis_len();
        self.lemma_axis_len_nonnegative();
        assert(n > 0) by (nonlinear_arith)
            requires
                0 <= i < n * n,
                0 <= n,
        ;
        lemma_fundamental_div_mod(i, n);
        let r = i / n;
        assert(n * r == r * n) by (nonlinear_arith);
        assert(0 <= r < n) by (nonlinear_arith)
            requires
                0 <= i < n * n,
                i == n * r + i % n,
                0 <= i % n < n,
                n > 0,
        ;
    }

    /// Joining a row and a column into the number of a lattice point.
    pub proof fn lemma_index_join(self, row: int, column: int)
        requires
            0 <= row < self.spec_axis_len(),
            0 <= column < self.spec_axis_len(),
        ensures
            0 <= row * self.spec_axis_len() + column < self.spec_len(),
            (row * self.spec_axis_len() + column) / self.spec_axis_len() == row,
            (row * self.spec_axis_len() + column) % self.spec_axis_len() == column,
    {
        let n = self.spec_axis_len();
        assert(0 <= row * n && row * n + n <= n * n) by (nonlinear_arith)
            requires
                0 <= row <= n - 1,
        ;
        lemma_fundamental_div_mod_converse(row * n + column, n, row, column);
    }

    /// The `i`-th position is a lattice point, and it is kept under `i`.
    pub proof fn lemma_position_is_point(self, i: int)
        requires
            self.valid(),
            0 <= i < self.spec_len(),
        ensures
            self.position(i).x == self.coordinate(i / self.spec_axis_len()),
            self.position(i).z == self.coordinate(i % self.spec_axis_len()),
            self.has_point(self.position(i).x as int, self.position(i).z as int),
            self.index_of(self.position(i).x as int, self.position(i).z as int) == i,
    {
        self.lemma_index_split(i);
        self.lemma_coordinate_in_range(i / self.spec_axis_len());
        self.lemma_coordinate_in_range(i % self.spec_axis_len());
    }

    /// Every lattice point is the position of the number it is kept under.
    pub proof fn lemma_point_is_position(self, x: int, z: int)
        requires
            self.valid(),
            self.has_point(x, z),
        ensures
            0 <= self.index_of(x, z) < self.spec_len(),
            self.position(self.index_of(x, z)).x == x,
            self.position(self.index_of(x, z)).z == z,
    {
        self.lemma_on_axis_is_coordinate(x);
        self.lemma_on_axis_is_coordinate(z);
        self.lemma_index_join(self.axis_index(x), self.axis_index(z));
    }

    /// Two different numbers stand for two different lattice points.
    pub proof fn lemma_positions_differ(self, i: int, j: int)
        requires
            self.valid(),
            0 <= i < self.spec_len(),
            0 <= j < self.spec_len(),
            i != j,
        ensures
            self.position(i) != self.position(j),
    {
        self.lemma_position_is_point(i);
        self.lemma_position_is_point(j);
    }
}

/// A quotient of a number that is not negative by a positive one is not
/// negative.
proof fn lemma_div_nonnegative(x: int, d: int)
    requires
        0 <= x,
        0 < d,
    ensures
        0 <= x / d,
{
    lemma_fundamental_div_mod(x, d);
    assert(0 <= x / d) by (nonlinear_arith)
        requires
            x == d * (x / d) + x % d,
            0 <= x,
            0 <= x % d < d,
    ;
}

/// One more step: `(k + 1) * step` is `k * step + step`.
proof fn lemma_mul_successor(k: int, step: int)
    ensures
        (k + 1) * step == k * step + step,
{
    assert((k + 1) * step == k * step + step) by (nonlinear_arith);
}

} // verus!
