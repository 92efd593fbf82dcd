//! The transition rule of the automaton, stated over mathematical integers.
//!
//! A cell is a pair `(x, y)`. The grid has `columns` values of `x` and `rows`
//! values of `y`, and it is a torus: the neighbor to the left of column 0 is
//! column `columns - 1`, and likewise at the other three edges. On a grid
//! that is fewer than three cells wide or high, several of the eight
//! neighbor positions of a cell coincide; each position is still counted on
//! its own.

use vstd::prelude::*;
use vstd::arithmetic::div_mod::lemma_fundamental_div_mod_converse;

verus! {

/// A grid position as a pair of mathematical integers `(x, y)`.
pub type Cell = (int, int);

/// The eight offsets `(dx, dy)` of the Moore neighborhood, row by row.
pub const OFFSETS: [(i32, i32); 8] = [
    (-1, -1),
    (0, -1),
    (1, -1),
    (-1, 0),
    (1, 0),
    (-1, 1),
    (0, 1),
    (1, 1),
];

/// The `k`-th neighborhood offset, for `0 <= k < 8`.
pub open spec fn offset(k: int) -> Cell {
    (OFFSETS@[k].0 as int, OFFSETS@[k].1 as int)
}

/// Whether `c` lies on a grid of the given size.
pub open spec fn in_bounds(c: Cell, columns: int, rows: int) -> bool {
    0 <= c.0 < columns && 0 <= c.1 < rows
}

/// All the cells of a grid of the given size.
pub open spec fn grid(columns: int, rows: int) -> Set<Cell> {
    Set::new(|c: Cell| in_bounds(c, columns, rows))
}

/// The coordinate `v` folded back into `0..n`.
pub open spec fn wrap(v: int, n: int) -> int {
    v % n
}

/// The coordinate next to `v` in direction `d` on a ring of `n` positions.
pub open spec fn ring_step(v: int, d: int, n: int) -> int {
    if v + d < 0 {
        v + d + n
    } else if v + d >= n {
        v + d - n
    } else {
        v + d
    }
}

/// 1 if `c` is alive, else 0.
pub open spec fn one_if_alive(cells: Set<Cell>, c: Cell) -> nat {
    if cells.contains(c) {
        1
    } else {
        0
    }
}

/// The number of live cells among the eight cells that are one ring step
/// away from `c` in one coordinate or in both.
pub open spec fn count_around(cells: Set<Cell>, c: Cell, columns: int, rows: int) -> nat {
    let left = ring_step(c.0, -1, columns);
    let right = ring_step(c.0, 1, columns);
    let up = ring_step(c.1, -1, rows);
    let down = ring_step(c.1, 1, rows);
    one_if_alive(cells, (left, up)) + one_if_alive(cells, (c.0, up)) + one_if_alive(
        cells,
        (right, up),
    ) + one_if_alive(cells, (left, c.1)) + one_if_alive(cells, (right, c.1)) + one_if_alive(
        cells,
        (left, down),
    ) + one_if_alive(cells, (c.0, down)) + one_if_alive(cells, (right, down))
}

/// The cell at the `k`-th neighbor position of `c` on the torus.
pub open spec fn neighbor(c: Cell, k: int, columns: int, rows: int) -> Cell {
    (wrap(c.0 + offset(k).0, columns), wrap(c.1 + offset(k).1, rows))
}

/// How many of the first `k` neighbor positions of `c` hold a live cell.
pub open spec fn live_among(cells: Set<Cell>, c: Cell, columns: int, rows: int, k: nat) -> nat
    decreases k,
{
    if k == 0 {
        0
    } else {
        live_among(cells, c, columns, rows, (k - 1) as nat) + one_if_alive(
            cells,
            neighbor(c, k - 1, columns, rows),
        )
    }
}

/// How many of the eight neighbor positions of `c` hold a live cell.
pub open spec fn neighbor_count(cells: Set<Cell>, c: Cell, columns: int, rows: int) -> nat {
    live_among(cells, c, columns, rows, 8)
}

/// Whether a cell with `n` live neighbors is alive in the next generation:
/// a live cell survives with two or three, a dead cell is born with three.
pub open spec fn lives_on(alive: bool, n: nat) -> bool {
    if alive {
        n == 2 || n == 3
    } else {
        n == 3
    }
}

/// Whether `c` is alive one generation after `cells`.
pub open spec fn alive_next(cells: Set<Cell>, c: Cell, columns: int, rows: int) -> bool {
    lives_on(cells.contains(c), neighbor_count(cells, c, columns, rows))
}

/// The live cells one generation after `cells`: every cell of the grid is
/// judged against `cells` alone.
pub open spec fn next_generation(cells: Set<Cell>, columns: int, rows: int) -> Set<Cell> {
    Set::new(|c: Cell| in_bounds(c, columns, rows) && alive_next(cells, c, columns, rows))
}

/// A board as mathematics: its size, the number of generations it has been
/// through, and the set of its live cells.
#[verifier::ext_equal]
pub struct BoardView {
    pub columns: int,
    pub rows: int,
    pub generation: nat,
    pub cells: Set<Cell>,
}

impl BoardView {
    /// The board has a positive size, and its live cells are finitely many
    /// and all lie on it.
    pub open spec fn wf(self) -> bool {
        &&& self.columns > 0
        &&& self.rows > 0
        &&& self.cells.finite()
        &&& self.cells.subset_of(grid(self.columns, self.rows))
    }

    /// The board of the given size before anything has happened to it.
    pub open spec fn empty(columns: int, rows: int) -> BoardView {
        BoardView { columns, rows, generation: 0, cells: Set::empty() }
    }

    /// The board with the given cells made alive as well.
    pub open spec fn seeded(self, coordinates: Set<Cell>) -> BoardView {
        BoardView { cells: self.cells.union(coordinates), ..self }
    }

    /// Whether `c` is alive.
    pub open spec fn is_alive(self, c: Cell) -> bool {
        self.cells.contains(c)
    }

    /// How many of the eight neighbor positions of `c` hold a live cell.
    pub open spec fn neighbor_count(self, c: Cell) -> nat {
        neighbor_count(self.cells, c, self.columns, self.rows)
    }

    /// The dead cells of the board that have exactly three live neighbors.
    pub open spec fn births(self) -> Set<Cell> {
        Set::new(
            |c: Cell|
                in_bounds(c, self.columns, self.rows) && !self.cells.contains(c)
                    && self.neighbor_count(c) == 3,
        )
    }

    /// The live cells that have fewer than two or more than three live
    /// neighbors.
    pub open spec fn deaths(self) -> Set<Cell> {
        Set::new(
            |c: Cell|
                self.cells.contains(c) && (self.neighbor_count(c) < 2 || self.neighbor_count(c)
                    > 3),
        )
    }

    /// The board one generation later.
    pub open spec fn step(self) -> BoardView {
        BoardView {
            generation: self.generation + 1,
            cells: next_generation(self.cells, self.columns, self.rows),
            ..self
        }
    }

    /// The board `n` generations later.
    pub open spec fn steps(self, n: nat) -> BoardView
        decreases n,
    {
        if n == 0 {
            self
        } else {
            self.steps((n - 1) as nat).step()
        }
    }
}

/// The first `rows` cells of column `x`.
spec fn column(x: int, rows: int) -> Set<Cell> {
    Set::new(|c: Cell| c.0 == x && 0 <= c.1 < rows)
}

/// A column has finitely many cells.
proof fn lemma_column_finite(x: int, rows: int)
    ensures
        column(x, rows).finite(),
    decreases rows,
{
    if rows <= 0 {
        assert(column(x, rows) =~= Set::<Cell>::empty());
    } else {
        lemma_column_finite(x, rows - 1);
        assert(column(x, rows) =~= column(x, rows - 1).insert((x, rows - 1)));
    }
}

/// A grid has finitely many cells.
pub proof fn lemma_grid_finite(columns: int, rows: int)
    ensures
        grid(columns, rows).finite(),
    decreases columns,
{
    if columns <= 0 {
        assert(grid(columns, rows) =~= Set::<Cell>::empty());
    } else {
        lemma_grid_finite(columns - 1, rows);
        lemma_column_finite(columns - 1, rows);
        assert(grid(columns, rows) =~= grid(columns - 1, rows).union(column(columns - 1, rows)));
    }
}

/// One step off either edge of `0..n` comes back in at the other edge.
pub proof fn lemma_wrap_near(v: int, n: int)
    requires
        n > 0,
        -n <= v < 2 * n,
    ensures
        wrap(v, n) == ring_step(v, 0, n),
{
    if v < 0 {
        lemma_fundamental_div_mod_converse(v, n, -1, v + n);
    } else if v >= n {
        lemma_fundamental_div_mod_converse(v, n, 1, v - n);
    } else {
        lemma_fundamental_div_mod_converse(v, n, 0, v);
    }
}

/// For a cell on the grid, the neighbor count is the number of live cells
/// among the eight cells one ring step away.
pub proof fn lemma_neighbor_count_on_grid(cells: Set<Cell>, c: Cell, columns: int, rows: int)
    requires
        in_bounds(c, columns, rows),
    ensures
        neighbor_count(cells, c, columns, rows) == count_around(cells, c, columns, rows),
{
    reveal_with_fuel(live_among, 9);
    lemma_wrap_near(c.0 - 1, columns);
    lemma_wrap_near(c.0, columns);
    lemma_wrap_near(c.0 + 1, columns);
    lemma_wrap_near(c.1 - 1, rows);
    lemma_wrap_near(c.1, rows);
    lemma_wrap_near(c.1 + 1, rows);
}

/// A positive count among the first `k` positions comes from a live cell at
/// one of them.
pub proof fn lemma_live_among_witness(cells: Set<Cell>, c: Cell, columns: int, rows: int, k: nat)
    requires
        live_among(cells, c, columns, rows, k) > 0,
    ensures
        exists|j: int| 0 <= j < k && cells.contains(#[trigger] neighbor(c, j, columns, rows)),
    decreases k,
{
    if k > 0 && !cells.contains(neighbor(c, k - 1, columns, rows)) {
        lemma_live_among_witness(cells, c, columns, rows, (k - 1) as nat);
    }
}

/// Neighborhood is symmetric on the grid: the position opposite to `k`,
/// taken from the `k`-th neighbor of `c`, is `c` again.
pub proof fn lemma_neighbor_opposite(c: Cell, k: int, columns: int, rows: int)
    requires
        in_bounds(c, columns, rows),
        0 <= k < 8,
    ensures
        neighbor(neighbor(c, k, columns, rows), 7 - k, columns, rows) == c,
{
    let d = neighbor(c, k, columns, rows);
    lemma_wrap_near(c.0 + offset(k).0, columns);
    lemma_wrap_near(c.1 + offset(k).1, rows);
    lemma_wrap_near(d.0 + offset(7 - k).0, columns);
    lemma_wrap_near(d.1 + offset(7 - k).1, rows);
}

} // verus!
