//! A set of grid cells with membership tests in expected constant time.

use std::collections::HashSet;
use vstd::prelude::*;
use vstd::arithmetic::div_mod::lemma_fundamental_div_mod_converse;

use crate::model::{in_bounds, Cell};
use crate::point::Point;

verus! {

broadcast use vstd::std_specs::hash::group_hash_axioms;

/// The number under which a cell of a grid with `rows` rows is filed. No two
/// cells of the grid share one.
pub(crate) open spec fn key(c: Cell, rows: int) -> int {
    c.0 * rows + c.1
}

/// Cells of the grid with equal keys are equal.
proof fn lemma_key_injective(a: Cell, b: Cell, columns: int, rows: int)
    requires
        in_bounds(a, columns, rows),
        in_bounds(b, columns, rows),
        key(a, rows) == key(b, rows),
    ensures
        a == b,
{
    lemma_fundamental_div_mod_converse(key(a, rows), rows, a.0, a.1);
    lemma_fundamental_div_mod_converse(key(b, rows), rows, b.0, b.1);
}

/// The key of a cell of the grid fits in 62 bits.
proof fn lemma_key_bound(c: Cell, columns: int, rows: int)
    requires
        in_bounds(c, columns, rows),
        columns <= i32::MAX,
        rows <= i32::MAX,
    ensures
        0 <= c.0 * rows <= (i32::MAX - 1) * i32::MAX,
        0 <= key(c, rows) < i32::MAX * i32::MAX,
{
    assert(0 <= c.0 * rows <= (i32::MAX - 1) * i32::MAX) by (nonlinear_arith)
        requires
            0 <= c.0 <= i32::MAX - 1,
            0 < rows <= i32::MAX,
    ;
}

/// A set of cells of one grid.
#[derive(Debug)]
pub(crate) struct CellSet {
    columns: i32,
    rows: i32,
    keys: HashSet<u64>,
}

impl View for CellSet {
    type V = Set<Cell>;

    /// The cells of the grid whose keys are held.
    closed spec fn view(&self) -> Set<Cell> {
        Set::new(
            |c: Cell|
                in_bounds(c, self.columns as int, self.rows as int) && self.keys@.contains(
                    key(c, self.rows as int) as u64,
                ),
        )
    }
}

impl CellSet {
    /// The size of the grid.
    pub(crate) closed spec fn size(&self) -> (int, int) {
        (self.columns as int, self.rows as int)
    }

    /// The empty set of cells of a grid of the given size.
    pub(crate) fn new(columns: i32, rows: i32) -> (set: CellSet)
        requires
            columns > 0,
            rows > 0,
        ensures
            set@ == Set::<Cell>::empty(),
            set.size() == (columns as int, rows as int),
    {
        let set = CellSet { columns, rows, keys: HashSet::new() };
        assert(set@ =~= Set::<Cell>::empty());
        set
    }

    /// The key of a point of the grid.
    fn key_of(&self, p: Point) -> (k: u64)
        requires
            in_bounds(p@, self.size().0, self.size().1),
        ensures
            k == key(p@, self.size().1),
    {
        proof {
            lemma_key_bound(p@, self.columns as int, self.rows as int);
        }
        (p.x as u64) * (self.rows as u64) + (p.y as u64)
    }

    /// Whether the cell at `p` is in the set. A point off the grid never is.
    pub(crate) fn contains(&self, p: Point) -> (found: bool)
        requires
            self.size().0 > 0,
            self.size().1 > 0,
        ensures
            found == self@.contains(p@),
    {
        if p.x < 0 || p.x >= self.columns || p.y < 0 || p.y >= self.rows {
            return false;
        }
        let k = self.key_of(p);
        self.keys.contains(&k)
    }

    /// Puts the cell at `p` into the set.
    pub(crate) fn insert(&mut self, p: Point)
        requires
            in_bounds(p@, old(self).size().0, old(self).size().1),
        ensures
            final(self)@ == old(self)@.insert(p@),
            final(self).size() == old(self).size(),
    {
        let k = self.key_of(p);
        self.keys.insert(k);
        proof {
            let columns = self.columns as int;
            let rows = self.rows as int;
            assert forall|c: Cell| self@.contains(c) <==> old(self)@.insert(p@).contains(c) by {
                if in_bounds(c, columns, rows) {
                    lemma_key_bound(c, columns, rows);
                    lemma_key_bound(p@, columns, rows);
                    if key(c, rows) == key(p@, rows) {
                        lemma_key_injective(c, p@, columns, rows);
                    }
                }
            }
            assert(self@ =~= old(self)@.insert(p@));
        }
    }
}

} // verus!
