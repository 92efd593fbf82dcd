//! Grid coordinates.

use vstd::prelude::*;

use crate::model::{in_bounds, Cell};

verus! {

/// The coordinate of one grid cell. Two points are the same cell exactly when
/// both components agree.
#[derive(Clone, Copy, Debug, PartialEq, Eq, Hash, Structural)]
pub struct Point {
    pub x: i32,
    pub y: i32,
}

impl View for Point {
    type V = Cell;

    /// The point as a pair of mathematical integers.
    open spec fn view(&self) -> Cell {
        (self.x as int, self.y as int)
    }
}

impl Point {
    /// Builds the point `(x, y)`.
    pub fn new(x: i32, y: i32) -> (p: Point)
        ensures
            p.x == x,
            p.y == y,
            p@ == (x as int, y as int),
    {
        Point { x, y }
    }
}

/// The set of cells that a sequence of points names.
pub open spec fn cells_of(points: Seq<Point>) -> Set<Cell> {
    Set::new(|c: Cell| exists|i: int| 0 <= i < points.len() && (#[trigger] points[i])@ == c)
}

/// Every point of the sequence lies on a grid of the given size.
pub open spec fn all_in_bounds(points: Seq<Point>, columns: int, rows: int) -> bool {
    forall|i: int| 0 <= i < points.len() ==> in_bounds((#[trigger] points[i])@, columns, rows)
}

/// Appending a point adds its cell to the set.
pub proof fn lemma_cells_of_push(points: Seq<Point>, p: Point)
    ensures
        cells_of(points.push(p)) == cells_of(points).insert(p@),
{
    let longer = points.push(p);
    assert forall|c: Cell| cells_of(longer).contains(c) implies cells_of(points).insert(p@).contains(
        c,
    ) by {
        let i = choose|i: int| 0 <= i < longer.len() && (#[trigger] longer[i])@ == c;
        if i < points.len() {
            assert(points[i]@ == c);
        }
    }
    assert forall|c: Cell| cells_of(points).insert(p@).contains(c) implies cells_of(
        longer,
    ).contains(c) by {
        if c == p@ {
            assert(longer[points.len() as int]@ == c);
        } else {
            let i = choose|i: int| 0 <= i < points.len() && (#[trigger] points[i])@ == c;
            assert(longer[i]@ == c);
        }
    }
    assert(cells_of(longer) =~= cells_of(points).insert(p@));
}

/// Appending a point whose cell is new keeps the sequence free of repeats.
pub proof fn lemma_push_fresh(points: Seq<Point>, p: Point)
    requires
        points.no_duplicates(),
        !cells_of(points).contains(p@),
    ensures
        points.push(p).no_duplicates(),
{
    assert forall|i: int| 0 <= i < points.len() implies (#[trigger] points[i]) != p by {
        assert(points[i]@ != p@);
    }
}

/// A sequence of points names finitely many cells, at most one for each
/// point, and exactly one for each where no point repeats.
pub proof fn lemma_cells_of_len(points: Seq<Point>)
    ensures
        cells_of(points).finite(),
        cells_of(points).len() <= points.len(),
        points.no_duplicates() ==> cells_of(points).len() == points.len(),
    decreases points.len(),
{
    if points.len() == 0 {
        assert(cells_of(points) =~= Set::<Cell>::empty());
    } else {
        let front = points.drop_last();
        let p = points.last();
        lemma_cells_of_len(front);
        lemma_cells_of_push(front, p);
        assert(points == front.push(p));
        if points.no_duplicates() {
            if cells_of(front).contains(p@) {
                let i = choose|i: int| 0 <= i < front.len() && (#[trigger] front[i])@ == p@;
                assert(points[i] == points[points.len() - 1]);
            }
        }
    }
}

} // verus!
