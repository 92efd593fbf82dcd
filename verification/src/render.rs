//! A board as lines of text.
//!
//! There is one line for each column, from column 0 on, and in it three
//! characters for each row, from row 0 on: `" 1 "` for a live cell and
//! `" 0 "` for a dead one.

use vstd::prelude::*;
use vstd::string::StringExecFns;

use crate::board::GameBoard;
use crate::model::Cell;
use crate::point::Point;

verus! {

/// The three characters that stand for one cell.
pub open spec fn cell_text(alive: bool) -> Seq<char> {
    if alive {
        seq![' ', '1', ' ']
    } else {
        seq![' ', '0', ' ']
    }
}

/// The text for the first `rows` cells of column `x`.
pub open spec fn line_text(cells: Set<Cell>, x: int, rows: nat) -> Seq<char>
    decreases rows,
{
    if rows == 0 {
        Seq::empty()
    } else {
        line_text(cells, x, (rows - 1) as nat) + cell_text(cells.contains((x, rows - 1)))
    }
}

impl GameBoard {
    /// The line of text for column `x`.
    pub fn draw_line(&self, x: i32) -> (line: String)
        ensures
            line@ == line_text(self@.cells, x as int, self@.rows as nat),
    {
        let rows = self.rows();
        let mut line = String::new();
        for y in 0..rows
            invariant
                rows == self@.rows,
                line@ == line_text(self@.cells, x as int, y as nat),
        {
            proof {
                reveal_strlit(" 1 ");
                reveal_strlit(" 0 ");
            }
            if self.is_alive(Point::new(x, y)) {
                line.append(" 1 ");
            } else {
                line.append(" 0 ");
            }
        }
        line
    }

    /// The whole board, one line for each column.
    pub fn draw_board(&self) -> (lines: Vec<String>)
        ensures
            lines@.len() == self@.columns,
            forall|x: int|
                0 <= x < self@.columns ==> (#[trigger] lines@[x])@ == line_text(
                    self@.cells,
                    x,
                    self@.rows as nat,
                ),
    {
        let columns = self.columns();
        let mut lines: Vec<String> = Vec::new();
        for x in 0..columns
            invariant
                columns == self@.columns,
                lines@.len() == x,
                forall|i: int|
                    0 <= i < x ==> (#[trigger] lines@[i])@ == line_text(
                        self@.cells,
                        i,
                        self@.rows as nat,
                    ),
        {
            let line = self.draw_line(x);
            lines.push(line);
        }
        lines
    }
}

} // verus!
