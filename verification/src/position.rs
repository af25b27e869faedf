//! Positions in a text by row and column.

use vstd::prelude::*;

verus! {

/// A row and a byte column in it, both counted from zero.
#[derive(Clone, Copy, Debug, PartialEq, Eq, Structural)]
pub struct Point {
    pub row: u32,
    pub column: u32,
}

/// Whether `a` stands at `b` or before it: by row, then by column.
pub open spec fn point_up_to(a: Point, b: Point) -> bool {
    a.row < b.row || (a.row == b.row && a.column <= b.column)
}

impl Point {
    /// The start of a row.
    pub fn row_start(row: u32) -> (p: Point)
        ensures
            p == (Point { row, column: 0 }),
    {
        Point { row, column: 0 }
    }

    /// Whether this point stands at `other` or before it.
    pub fn is_up_to(&self, other: &Point) -> (r: bool)
        ensures
            r == point_up_to(*self, *other),
    {
        self.row < other.row || (self.row == other.row && self.column <= other.column)
    }
}

} // verus!
