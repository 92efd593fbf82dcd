//! Theorems about the model.

use vstd::prelude::*;

use vstd::set_lib::lemma_set_subset_finite;

use crate::model::{
    grid, in_bounds, lemma_grid_finite, lemma_neighbor_count_on_grid, live_among, neighbor,
    ring_step, BoardView, Cell,
};
use crate::point::{cells_of, Point};

verus! {

/// Stepping leaves the size of the board as it is.
pub proof fn lemma_steps_keep_size(board: BoardView, n: nat)
    ensures
        board.steps(n).columns == board.columns,
        board.steps(n).rows == board.rows,
    decreases n,
{
    if n > 0 {
        lemma_steps_keep_size(board, (n - 1) as nat);
    }
}

/// An empty board of positive size is well formed.
pub proof fn lemma_empty_is_wf(columns: int, rows: int)
    requires
        columns > 0,
        rows > 0,
    ensures
        BoardView::empty(columns, rows).wf(),
{
}

/// Seeding a well-formed board with finitely many cells of its grid leaves
/// it well formed.
pub proof fn lemma_seeded_is_wf(board: BoardView, coordinates: Set<Cell>)
    requires
        board.wf(),
        coordinates.finite(),
        coordinates.subset_of(grid(board.columns, board.rows)),
    ensures
        board.seeded(coordinates).wf(),
{
}

/// Whatever the live cells were, one step later they are finitely many and
/// all on the board.
pub proof fn lemma_step_is_wf(board: BoardView)
    requires
        board.columns > 0,
        board.rows > 0,
    ensures
        board.step().wf(),
{
    lemma_grid_finite(board.columns, board.rows);
    lemma_set_subset_finite(grid(board.columns, board.rows), board.step().cells);
}

/// One step removes the cells that die and adds the cells that are born,
/// both judged against the board before the step.
pub proof fn lemma_step_is_deaths_and_births(board: BoardView)
    requires
        board.wf(),
    ensures
        board.step().cells == board.cells.difference(board.deaths()).union(board.births()),
{
    assert(board.step().cells =~= board.cells.difference(board.deaths()).union(board.births()));
}

/// Every neighbor position of every cell lies on the grid.
pub proof fn lemma_neighbor_in_bounds(c: Cell, k: int, columns: int, rows: int)
    requires
        columns > 0,
        rows > 0,
    ensures
        in_bounds(neighbor(c, k, columns, rows), columns, rows),
{
}

/// No cell has more than eight live neighbors.
pub proof fn lemma_neighbor_count_at_most_eight(board: BoardView, c: Cell)
    ensures
        board.neighbor_count(c) <= 8,
{
    reveal_with_fuel(live_among, 9);
}

/// The generation counter counts the steps: after `n` of them it has grown
/// by exactly `n`, so a board that started at generation 0 is at generation
/// `n`.
pub proof fn lemma_generation_counts_steps(board: BoardView, n: nat)
    ensures
        board.steps(n).generation == board.generation + n,
        board.generation == 0 ==> board.steps(n).generation == n,
    decreases n,
{
    if n > 0 {
        lemma_generation_counts_steps(board, (n - 1) as nat);
    }
}

/// A still life stays as it is: if one step leaves the live cells of a board
/// unchanged, then so does any number of steps.
pub proof fn lemma_still_life_is_stable(board: BoardView, n: nat)
    requires
        board.step().cells == board.cells,
    ensures
        board.steps(n).cells == board.cells,
    decreases n,
{
    if n > 0 {
        let before = board.steps((n - 1) as nat);
        lemma_still_life_is_stable(board, (n - 1) as nat);
        lemma_steps_keep_size(board, (n - 1) as nat);
        assert(before.step().cells == board.step().cells);
    }
}

/// A dead cell on the board with exactly three live neighbors is alive one
/// step later.
pub proof fn lemma_birth(board: BoardView, c: Cell)
    requires
        in_bounds(c, board.columns, board.rows),
        !board.is_alive(c),
        board.neighbor_count(c) == 3,
    ensures
        board.step().is_alive(c),
{
}

/// A live cell survives a step exactly when it has two or three live
/// neighbors.
pub proof fn lemma_survival(board: BoardView, c: Cell)
    requires
        in_bounds(c, board.columns, board.rows),
        board.is_alive(c),
    ensures
        board.step().is_alive(c) <==> board.neighbor_count(c) == 2 || board.neighbor_count(c)
            == 3,
{
}

/// The evolution of a board depends on nothing but its size and the set of
/// cells it was seeded with: two boards of the same size, seeded with the
/// same cells in whatever order and however often repeated, agree after
/// every number of steps.
pub proof fn lemma_deterministic(
    columns: int,
    rows: int,
    first: Seq<Point>,
    second: Seq<Point>,
    n: nat,
)
    requires
        cells_of(first) == cells_of(second),
    ensures
        BoardView::empty(columns, rows).seeded(cells_of(first)).steps(n) == BoardView::empty(
            columns,
            rows,
        ).seeded(cells_of(second)).steps(n),
{
}

/// A live cell alone on the board, none of whose neighbor positions is the
/// cell itself, dies and leaves the board empty.
pub proof fn lemma_lone_cell_dies(board: BoardView, c: Cell)
    requires
        board.wf(),
        board.cells == set![c],
        board.neighbor_count(c) == 0,
    ensures
        board.step().cells == Set::<Cell>::empty(),
{
    let columns = board.columns;
    let rows = board.rows;
    assert(board.cells.contains(c));
    lemma_neighbor_count_on_grid(board.cells, c, columns, rows);
    assert forall|d: Cell| !board.step().cells.contains(d) by {
        if in_bounds(d, columns, rows) && d != c {
            lemma_neighbor_count_on_grid(board.cells, d, columns, rows);
        }
    }
    assert(board.step().cells =~= Set::<Cell>::empty());
}

/// The two-by-two block whose corner with the smaller coordinates is `c`.
/// Next to the last column or row it continues at the first.
pub open spec fn block(c: Cell, columns: int, rows: int) -> Set<Cell> {
    set![
        c,
        (ring_step(c.0, 1, columns), c.1),
        (c.0, ring_step(c.1, 1, rows)),
        (ring_step(c.0, 1, columns), ring_step(c.1, 1, rows)),
    ]
}

/// On a board of at least three columns and three rows a block is a still
/// life wherever it stands: one step leaves it as it is.
pub proof fn lemma_block_is_still_life(board: BoardView, c: Cell)
    requires
        board.columns >= 3,
        board.rows >= 3,
        in_bounds(c, board.columns, board.rows),
        board.cells == block(c, board.columns, board.rows),
    ensures
        board.step().cells == board.cells,
{
    let columns = board.columns;
    let rows = board.rows;
    assert forall|d: Cell| board.step().cells.contains(d) <==> board.cells.contains(d) by {
        if in_bounds(d, columns, rows) {
            lemma_neighbor_count_on_grid(board.cells, d, columns, rows);
        }
    }
    assert(board.step().cells =~= board.cells);
}

/// A block stays as it is through any number of steps.
pub proof fn lemma_block_is_stable(board: BoardView, c: Cell, n: nat)
    requires
        board.columns >= 3,
        board.rows >= 3,
        in_bounds(c, board.columns, board.rows),
        board.cells == block(c, board.columns, board.rows),
    ensures
        board.steps(n).cells == board.cells,
{
    lemma_block_is_still_life(board, c);
    lemma_still_life_is_stable(board, n);
}

/// Three cells in a row across the board, with `c` in the middle.
pub open spec fn blinker_across(c: Cell, columns: int, rows: int) -> Set<Cell> {
    set![(ring_step(c.0, -1, columns), c.1), c, (ring_step(c.0, 1, columns), c.1)]
}

/// Three cells in a row down the board, with `c` in the middle.
pub open spec fn blinker_down(c: Cell, columns: int, rows: int) -> Set<Cell> {
    set![(c.0, ring_step(c.1, -1, rows)), c, (c.0, ring_step(c.1, 1, rows))]
}

/// On a board of at least four columns and four rows, one step turns a
/// blinker that lies across into the blinker that stands on the same middle
/// cell, and the other way round.
pub proof fn lemma_blinker_turns(board: BoardView, c: Cell)
    requires
        board.columns >= 4,
        board.rows >= 4,
        in_bounds(c, board.columns, board.rows),
    ensures
        board.cells == blinker_across(c, board.columns, board.rows) ==> board.step().cells
            == blinker_down(c, board.columns, board.rows),
        board.cells == blinker_down(c, board.columns, board.rows) ==> board.step().cells
            == blinker_across(c, board.columns, board.rows),
{
    let columns = board.columns;
    let rows = board.rows;
    let turned = if board.cells == blinker_across(c, columns, rows) {
        blinker_down(c, columns, rows)
    } else {
        blinker_across(c, columns, rows)
    };
    if board.cells == blinker_across(c, columns, rows) || board.cells == blinker_down(
        c,
        columns,
        rows,
    ) {
        assert forall|d: Cell| board.step().cells.contains(d) <==> turned.contains(d) by {
            if in_bounds(d, columns, rows) {
                lemma_neighbor_count_on_grid(board.cells, d, columns, rows);
            }
        }
        assert(board.step().cells =~= turned);
    }
}

/// A blinker has period two: after one step it has turned, and after two it
/// is as it was.
pub proof fn lemma_blinker_has_period_two(board: BoardView, c: Cell)
    requires
        board.columns >= 4,
        board.rows >= 4,
        in_bounds(c, board.columns, board.rows),
        board.cells == blinker_across(c, board.columns, board.rows),
    ensures
        board.steps(1).cells == blinker_down(c, board.columns, board.rows),
        board.steps(1).cells != board.cells,
        board.steps(2).cells == board.cells,
{
    reveal_with_fuel(BoardView::steps, 3);
    lemma_blinker_turns(board, c);
    lemma_blinker_turns(board.step(), c);
    let above = (c.0, ring_step(c.1, -1, board.rows));
    assert(!blinker_across(c, board.columns, board.rows).contains(above));
}

} // verus!
