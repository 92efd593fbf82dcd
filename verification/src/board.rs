//! The executable board.

use vstd::prelude::*;
use vstd::arithmetic::div_mod::{lemma_fundamental_div_mod, lemma_fundamental_div_mod_converse};

use crate::cell_set::CellSet;
use crate::model::{
    grid, in_bounds, lemma_live_among_witness, lemma_neighbor_opposite, live_among, neighbor, wrap,
    BoardView, Cell, OFFSETS,
};
use crate::point::{
    all_in_bounds, cells_of, lemma_cells_of_len, lemma_cells_of_push, lemma_push_fresh, Point,
};

verus! {

/// Why a board operation was refused.
#[derive(Clone, Copy, Debug, PartialEq, Eq, Structural)]
pub enum BoardError {
    /// A board must have at least one column and one row.
    InvalidDimensions,
    /// A coordinate lies outside the board.
    OutOfBounds,
}

/// A bounded grid together with the coordinates of its live cells.
#[derive(Debug)]
pub struct GameBoard {
    columns: i32,
    rows: i32,
    generation: u64,
    /// The live cells, each once.
    subjects: Vec<Point>,
    /// The same cells again, for looking one up.
    index: CellSet,
}

impl View for GameBoard {
    type V = BoardView;

    /// The board as mathematics.
    closed spec fn view(&self) -> BoardView {
        BoardView {
            columns: self.columns as int,
            rows: self.rows as int,
            generation: self.generation as nat,
            cells: cells_of(self.subjects@),
        }
    }
}

/// The coordinate `v + d` folded back into `0..n`.
fn wrap_coord(v: i32, d: i32, n: i32) -> (r: i32)
    requires
        n > 0,
        -1 <= d <= 1,
    ensures
        r == wrap(v + d, n as int),
        0 <= r < n,
{
    let t: i64 = v as i64 + d as i64;
    let m: i64 = n as i64;
    if t >= 0 {
        let r: i64 = t % m;
        r as i32
    } else {
        let a: i64 = -t;
        let q: i64 = a / m;
        let r: i64 = a % m;
        proof {
            lemma_fundamental_div_mod(a as int, m as int);
        }
        if r == 0 {
            proof {
                assert(t == (-q) * m + 0) by (nonlinear_arith)
                    requires
                        a == m * q + r,
                        r == 0,
                        t == -a,
                ;
                lemma_fundamental_div_mod_converse(t as int, m as int, -(q as int), 0);
            }
            0
        } else {
            proof {
                assert(t == (-q - 1) * m + (m - r)) by (nonlinear_arith)
                    requires
                        a == m * q + r,
                        t == -a,
                ;
                lemma_fundamental_div_mod_converse(t as int, m as int, -(q as int) - 1, m - r);
            }
            (m - r) as i32
        }
    }
}

impl GameBoard {
    /// What holds of every board: its size is positive, its live cells lie
    /// on it and are listed once each, and the index holds the same cells.
    #[verifier::type_invariant]
    spec fn inv(self) -> bool {
        &&& self.columns > 0
        &&& self.rows > 0
        &&& all_in_bounds(self.subjects@, self.columns as int, self.rows as int)
        &&& self.subjects@.no_duplicates()
        &&& self.index.size() == (self.columns as int, self.rows as int)
        &&& self.index@ == cells_of(self.subjects@)
    }

    /// What the invariant of the type means for the view.
    proof fn lemma_view_is_wf(self)
        requires
            self.inv(),
        ensures
            self@.wf(),
            self.subjects@.len() == self@.cells.len(),
    {
        lemma_cells_of_len(self.subjects@);
        assert forall|c: Cell| self@.cells.contains(c) implies grid(
            self@.columns,
            self@.rows,
        ).contains(c) by {
            let i = choose|i: int|
                0 <= i < self.subjects@.len() && (#[trigger] self.subjects@[i])@ == c;
        }
    }

    /// An empty board with `columns` values of `x` and `rows` values of `y`.
    /// Both must be positive.
    pub fn new(columns: i32, rows: i32) -> (made: Result<GameBoard, BoardError>)
        ensures
            made is Ok <==> columns > 0 && rows > 0,
            made matches Ok(board) ==> board@ == BoardView::empty(columns as int, rows as int)
                && board@.wf(),
            made matches Err(e) ==> e == BoardError::InvalidDimensions,
    {
        if columns <= 0 || rows <= 0 {
            return Err(BoardError::InvalidDimensions);
        }
        let subjects: Vec<Point> = Vec::new();
        let index = CellSet::new(columns, rows);
        assert(cells_of(subjects@) =~= Set::<Cell>::empty());
        Ok(GameBoard { columns, rows, generation: 0, subjects, index })
    }

    /// The number of columns, the range of `x`.
    pub fn columns(&self) -> (n: i32)
        ensures
            n == self@.columns,
            n > 0,
    {
        proof {
            use_type_invariant(self);
        }
        self.columns
    }

    /// The number of rows, the range of `y`.
    pub fn rows(&self) -> (n: i32)
        ensures
            n == self@.rows,
            n > 0,
    {
        proof {
            use_type_invariant(self);
        }
        self.rows
    }

    /// How many generations the board has been through.
    pub fn generation(&self) -> (n: u64)
        ensures
            n == self@.generation,
    {
        self.generation
    }

    /// Whether the cell at `c` is alive. A coordinate off the board is never
    /// alive.
    pub fn is_alive(&self, c: Point) -> (alive: bool)
        ensures
            alive == self@.is_alive(c@),
    {
        proof {
            use_type_invariant(self);
        }
        self.index.contains(c)
    }

    /// The cell at the `k`-th neighbor position of `c`.
    fn neighbor_of(&self, c: Point, k: usize) -> (p: Point)
        requires
            k < 8,
        ensures
            p@ == neighbor(c@, k as int, self@.columns, self@.rows),
            in_bounds(p@, self@.columns, self@.rows),
    {
        proof {
            use_type_invariant(self);
        }
        let (dx, dy) = OFFSETS[k];
        Point { x: wrap_coord(c.x, dx, self.columns), y: wrap_coord(c.y, dy, self.rows) }
    }

    /// How many of the eight neighbor positions of `c` hold a live cell.
    /// Positions past an edge continue at the opposite edge.
    pub fn neighbor_count(&self, c: Point) -> (n: u8)
        ensures
            n == self@.neighbor_count(c@),
            n <= 8,
    {
        let mut n: u8 = 0;
        for k in 0..8usize
            invariant
                n == live_among(self@.cells, c@, self@.columns, self@.rows, k as nat),
                n <= k,
        {
            let p = self.neighbor_of(c, k);
            if self.is_alive(p) {
                n += 1;
            }
        }
        n
    }

    /// The live cells that die in the next generation: those with fewer than
    /// two or more than three live neighbors.
    pub fn check_for_deaths(&self) -> (doomed: Vec<Point>)
        ensures
            doomed@.no_duplicates(),
            cells_of(doomed@) == self@.deaths(),
    {
        proof {
            use_type_invariant(self);
        }
        let mut doomed: Vec<Point> = Vec::new();
        for i in 0..self.subjects.len()
            invariant
                self.subjects@.no_duplicates(),
                doomed@.no_duplicates(),
                forall|c: Cell|
                    cells_of(doomed@).contains(c) <==> self@.deaths().contains(c) && exists|j: int|
                        0 <= j < i && (#[trigger] self.subjects@[j])@ == c,
        {
            let c = self.subjects[i];
            let n = self.neighbor_count(c);
            proof {
                if cells_of(doomed@).contains(c@) {
                    let j = choose|j: int| 0 <= j < i && (#[trigger] self.subjects@[j])@ == c@;
                    assert(self.subjects@[j] == self.subjects@[i as int]);
                }
                lemma_push_fresh(doomed@, c);
                lemma_cells_of_push(doomed@, c);
            }
            if n < 2 || n > 3 {
                doomed.push(c);
            }
        }
        doomed
    }

    /// The dead cells that come alive in the next generation: those with
    /// exactly three live neighbors. Only the neighborhoods of live cells
    /// are searched, since a cell without a live neighbor is never born.
    pub fn check_for_newborns(&self) -> (newborns: Vec<Point>)
        ensures
            newborns@.no_duplicates(),
            cells_of(newborns@) == self@.births(),
    {
        proof {
            use_type_invariant(self);
        }
        let ghost columns = self@.columns;
        let ghost rows = self@.rows;
        let mut newborns: Vec<Point> = Vec::new();
        let mut found = CellSet::new(self.columns, self.rows);
        for i in 0..self.subjects.len()
            invariant
                columns == self@.columns,
                rows == self@.rows,
                columns > 0,
                rows > 0,
                found.size() == (columns, rows),
                found@ == cells_of(newborns@),
                newborns@.no_duplicates(),
                cells_of(newborns@).subset_of(self@.births()),
                forall|a: int, k: int|
                    0 <= a < i && 0 <= k < 8 && self@.births().contains(
                        #[trigger] neighbor(self.subjects@[a]@, k, columns, rows),
                    ) ==> cells_of(newborns@).contains(
                        neighbor(self.subjects@[a]@, k, columns, rows),
                    ),
        {
            let c = self.subjects[i];
            for k in 0..8usize
                invariant
                    columns == self@.columns,
                    rows == self@.rows,
                    i < self.subjects.len(),
                    c == self.subjects@[i as int],
                    columns > 0,
                    rows > 0,
                    found.size() == (columns, rows),
                    found@ == cells_of(newborns@),
                    newborns@.no_duplicates(),
                    cells_of(newborns@).subset_of(self@.births()),
                    forall|a: int, k: int|
                        0 <= a < i && 0 <= k < 8 && self@.births().contains(
                            #[trigger] neighbor(self.subjects@[a]@, k, columns, rows),
                        ) ==> cells_of(newborns@).contains(
                            neighbor(self.subjects@[a]@, k, columns, rows),
                        ),
                    forall|j: int|
                        0 <= j < k && self@.births().contains(
                            #[trigger] neighbor(c@, j, columns, rows),
                        ) ==> cells_of(newborns@).contains(neighbor(c@, j, columns, rows)),
            {
                let d = self.neighbor_of(c, k);
                if !self.is_alive(d) && !found.contains(d) && self.neighbor_count(d) == 3 {
                    proof {
                        lemma_push_fresh(newborns@, d);
                        lemma_cells_of_push(newborns@, d);
                    }
                    newborns.push(d);
                    found.insert(d);
                }
            }
        }
        proof {
            assert forall|c: Cell| self@.births().contains(c) implies cells_of(
                newborns@,
            ).contains(c) by {
                lemma_live_among_witness(self@.cells, c, columns, rows, 8);
                let k = choose|k: int|
                    0 <= k < 8 && self@.cells.contains(#[trigger] neighbor(c, k, columns, rows));
                let n = neighbor(c, k, columns, rows);
                let a = choose|a: int|
                    0 <= a < self.subjects@.len() && (#[trigger] self.subjects@[a])@ == n;
                lemma_neighbor_opposite(c, k, columns, rows);
                assert(neighbor(self.subjects@[a]@, 7 - k, columns, rows) == c);
            }
        }
        newborns
    }

    /// Makes the cells at `coordinates` alive. A coordinate may repeat, or be
    /// alive already. If any of them lies off the board, nothing is changed.
    pub fn seed(&mut self, coordinates: &[Point]) -> (done: Result<(), BoardError>)
        ensures
            done is Ok <==> all_in_bounds(coordinates@, old(self)@.columns, old(self)@.rows),
            done is Ok ==> final(self)@ == old(self)@.seeded(cells_of(coordinates@)),
            done matches Err(e) ==> e == BoardError::OutOfBounds && final(self)@ == old(self)@,
            final(self)@.wf(),
    {
        proof {
            use_type_invariant(&*self);
            self.lemma_view_is_wf();
        }
        for i in 0..coordinates.len()
            invariant
                *self == *old(self),
                self@.wf(),
                forall|j: int|
                    0 <= j < i ==> in_bounds(
                        (#[trigger] coordinates@[j])@,
                        self.columns as int,
                        self.rows as int,
                    ),
        {
            let p = coordinates[i];
            if p.x < 0 || p.x >= self.columns || p.y < 0 || p.y >= self.rows {
                return Err(BoardError::OutOfBounds);
            }
        }
        let mut subjects: Vec<Point> = Vec::new();
        let mut index = CellSet::new(self.columns, self.rows);
        for i in 0..self.subjects.len()
            invariant
                *self == *old(self),
                all_in_bounds(self.subjects@, self.columns as int, self.rows as int),
                self.subjects@.no_duplicates(),
                index.size() == (self.columns as int, self.rows as int),
                index@ == cells_of(subjects@),
                subjects@ == self.subjects@.take(i as int),
        {
            let p = self.subjects[i];
            proof {
                lemma_cells_of_push(subjects@, p);
            }
            subjects.push(p);
            index.insert(p);
        }
        assert(subjects@ == self.subjects@);
        for i in 0..coordinates.len()
            invariant
                *self == *old(self),
                all_in_bounds(coordinates@, self.columns as int, self.rows as int),
                all_in_bounds(subjects@, self.columns as int, self.rows as int),
                subjects@.no_duplicates(),
                index.size() == (self.columns as int, self.rows as int),
                self.columns > 0,
                self.rows > 0,
                index@ == cells_of(subjects@),
                cells_of(subjects@) == self@.cells.union(cells_of(coordinates@.take(i as int))),
        {
            let p = coordinates[i];
            proof {
                assert(coordinates@.take(i as int).push(p) == coordinates@.take(i + 1));
                lemma_cells_of_push(coordinates@.take(i as int), p);
            }
            if !index.contains(p) {
                proof {
                    lemma_push_fresh(subjects@, p);
                    lemma_cells_of_push(subjects@, p);
                }
                subjects.push(p);
                index.insert(p);
            }
        }
        proof {
            assert(coordinates@.take(coordinates@.len() as int) == coordinates@);
        }
        *self = GameBoard {
            columns: self.columns,
            rows: self.rows,
            generation: self.generation,
            subjects,
            index,
        };
        proof {
            self.lemma_view_is_wf();
        }
        Ok(())
    }

    /// A snapshot of the live cells, each once, in no particular order.
    pub fn live_cells(&self) -> (cells: Vec<Point>)
        ensures
            cells@.no_duplicates(),
            cells_of(cells@) == self@.cells,
            all_in_bounds(cells@, self@.columns, self@.rows),
            cells@.len() == self@.cells.len(),
            self@.wf(),
    {
        proof {
            use_type_invariant(self);
            self.lemma_view_is_wf();
        }
        let mut cells: Vec<Point> = Vec::new();
        for i in 0..self.subjects.len()
            invariant
                cells@ == self.subjects@.take(i as int),
        {
            cells.push(self.subjects[i]);
        }
        proof {
            assert(cells@ == self.subjects@);
        }
        cells
    }

    /// Advances the board by one generation. Every cell is judged against
    /// the generation before the call: a live cell with two or three live
    /// neighbors stays, a dead cell with exactly three is born, and every
    /// other cell is dead afterwards.
    pub fn step(&mut self)
        requires
            old(self)@.generation < u64::MAX,
        ensures
            final(self)@ == old(self)@.step(),
            final(self)@.wf(),
    {
        proof {
            use_type_invariant(&*self);
            self.lemma_view_is_wf();
        }
        let newborns = self.check_for_newborns();
        let doomed = self.check_for_deaths();
        let mut dying = CellSet::new(self.columns, self.rows);
        for i in 0..doomed.len()
            invariant
                *self == *old(self),
                cells_of(doomed@) == self@.deaths(),
                self@.wf(),
                dying.size() == (self.columns as int, self.rows as int),
                dying@ == cells_of(doomed@.take(i as int)),
        {
            let c = doomed[i];
            proof {
                assert(doomed@.take(i as int).push(c) == doomed@.take(i + 1));
                lemma_cells_of_push(doomed@.take(i as int), c);
                assert(self@.deaths().contains(c@));
            }
            dying.insert(c);
        }
        assert(doomed@.take(doomed@.len() as int) == doomed@);
        let mut next: Vec<Point> = Vec::new();
        let mut index = CellSet::new(self.columns, self.rows);
        for i in 0..self.subjects.len()
            invariant
                *self == *old(self),
                self.columns > 0,
                self.rows > 0,
                self.subjects@.no_duplicates(),
                all_in_bounds(self.subjects@, self.columns as int, self.rows as int),
                dying.size() == (self.columns as int, self.rows as int),
                dying@ == self@.deaths(),
                next@.no_duplicates(),
                all_in_bounds(next@, self.columns as int, self.rows as int),
                index.size() == (self.columns as int, self.rows as int),
                index@ == cells_of(next@),
                forall|c: Cell|
                    cells_of(next@).contains(c) <==> !self@.deaths().contains(c) && exists|
                        j: int,
                    |
                        0 <= j < i && (#[trigger] self.subjects@[j])@ == c,
        {
            let c = self.subjects[i];
            proof {
                if cells_of(next@).contains(c@) {
                    let j = choose|j: int| 0 <= j < i && (#[trigger] self.subjects@[j])@ == c@;
                    assert(self.subjects@[j] == self.subjects@[i as int]);
                }
                lemma_push_fresh(next@, c);
                lemma_cells_of_push(next@, c);
            }
            if !dying.contains(c) {
                next.push(c);
                index.insert(c);
            }
        }
        let ghost survivors = cells_of(next@);
        for i in 0..newborns.len()
            invariant
                *self == *old(self),
                newborns@.no_duplicates(),
                cells_of(newborns@) == self@.births(),
                survivors == self@.cells.difference(self@.deaths()),
                next@.no_duplicates(),
                all_in_bounds(next@, self.columns as int, self.rows as int),
                index.size() == (self.columns as int, self.rows as int),
                index@ == cells_of(next@),
                cells_of(next@) == survivors.union(cells_of(newborns@.take(i as int))),
        {
            let c = newborns[i];
            proof {
                assert(newborns@.take(i as int).push(c) == newborns@.take(i + 1));
                lemma_cells_of_push(newborns@.take(i as int), c);
                assert(cells_of(newborns@).contains(c@));
                if cells_of(newborns@.take(i as int)).contains(c@) {
                    let j = choose|j: int|
                        0 <= j < i && (#[trigger] newborns@.take(i as int)[j])@ == c@;
                    assert(newborns@[j] == newborns@[i as int]);
                }
                lemma_push_fresh(next@, c);
                lemma_cells_of_push(next@, c);
            }
            next.push(c);
            index.insert(c);
        }
        proof {
            assert(newborns@.take(newborns@.len() as int) == newborns@);
            assert(cells_of(next@) =~= old(self)@.step().cells);
        }
        *self = GameBoard {
            columns: self.columns,
            rows: self.rows,
            generation: self.generation + 1,
            subjects: next,
            index,
        };
        proof {
            self.lemma_view_is_wf();
        }
    }
}

} // verus!
