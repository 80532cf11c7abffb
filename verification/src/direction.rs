//! The four headings a snake can take.

use vstd::prelude::*;

verus! {

/// A heading on the grid. Rows grow downwards, columns grow to the right.
#[derive(Clone, Copy, Debug, PartialEq, Eq, Structural)]
pub enum Direction {
    Left,
    Right,
    Up,
    Down,
}

impl Direction {
    /// The heading that points the other way.
    pub open spec fn opposite(self) -> Direction {
        match self {
            Direction::Left => Direction::Right,
            Direction::Right => Direction::Left,
            Direction::Up => Direction::Down,
            Direction::Down => Direction::Up,
        }
    }

    /// Tells whether `other` points the other way.
    pub fn is_opposite(self, other: Direction) -> (reversed: bool)
        ensures
            reversed == (other == self.opposite()),
    {
        match (self, other) {
            (Direction::Up, Direction::Down) => true,
            (Direction::Down, Direction::Up) => true,
            (Direction::Left, Direction::Right) => true,
            (Direction::Right, Direction::Left) => true,
            _ => false,
        }
    }

    /// By how much one move in this heading changes the row.
    pub open spec fn row_step(self) -> int {
        match self {
            Direction::Up => -1,
            Direction::Down => 1,
            Direction::Left | Direction::Right => 0,
        }
    }

    /// By how much one move in this heading changes the column.
    pub open spec fn col_step(self) -> int {
        match self {
            Direction::Left => -1,
            Direction::Right => 1,
            Direction::Up | Direction::Down => 0,
        }
    }
}

} // verus!
