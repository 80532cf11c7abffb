//! The snake: a heading, a body of grid indices and a flag that tells whether
//! it still lives.

use vstd::prelude::*;
use crate::direction::Direction;
use crate::grid::{col_of, in_grid, lemma_coordinates_in_grid, row_of};

verus! {

/// What a [`Snake`] is, as plain mathematical values.
pub struct SnakeView {
    /// The current heading.
    pub direction: Direction,
    /// The grid indices the snake lies on, tail first and head last.
    pub body: Seq<nat>,
    /// Whether the snake is still alive.
    pub alive: bool,
}

impl SnakeView {
    /// The index the head lies on. Meaningful for a body that is not empty.
    pub open spec fn head(self) -> nat {
        self.body.last()
    }

    /// The row the head lies on, on a grid `width` cells wide.
    pub open spec fn head_row(self, width: nat) -> int {
        row_of(self.head() as int, width as int)
    }

    /// The column the head lies in, on a grid `width` cells wide.
    pub open spec fn head_col(self, width: nat) -> int {
        col_of(self.head() as int, width as int)
    }

    /// The row the head would reach by one move in the current heading.
    pub open spec fn next_row(self, width: nat) -> int {
        self.head_row(width) + self.direction.row_step()
    }

    /// The column the head would reach by one move in the current heading.
    pub open spec fn next_col(self, width: nat) -> int {
        self.head_col(width) + self.direction.col_step()
    }

    /// Whether one move in the current heading keeps the head on the grid.
    pub open spec fn stays_in_grid(self, width: nat, height: nat) -> bool {
        in_grid(self.next_row(width), self.next_col(width), width as int, height as int)
    }

    /// Whether some segment of the body lies on `index`.
    pub open spec fn occupies(self, index: nat) -> bool {
        self.body.contains(index)
    }
}

/// A snake on a grid. The body holds grid indices, oldest segment first.
#[derive(Debug, PartialEq, Eq)]
pub struct Snake {
    pub(crate) direction: Direction,
    pub(crate) body: Vec<u32>,
    pub(crate) alive: bool,
}

impl Clone for Snake {
    /// A second snake with the same heading, body and life.
    fn clone(&self) -> (copy: Snake)
        ensures
            copy@ == self@,
    {
        let copy = Snake { direction: self.direction, body: self.body.clone(), alive: self.alive };
        assert(copy@.body =~= self@.body);
        copy
    }
}

impl Snake {
    /// The snake as plain mathematical values.
    pub open(crate) spec fn view(&self) -> SnakeView {
        SnakeView {
            direction: self.direction,
            body: self.body@.map_values(|i: u32| i as nat),
            alive: self.alive,
        }
    }

    /// The current heading.
    pub fn direction(&self) -> (direction: Direction)
        ensures
            direction == self@.direction,
    {
        self.direction
    }

    /// The grid indices the snake lies on, tail first and head last.
    pub fn body(&self) -> (body: &Vec<u32>)
        ensures
            body@.map_values(|i: u32| i as nat) == self@.body,
    {
        &self.body
    }

    /// Splits a linear index into its row and column on a grid `width` cells
    /// wide.
    pub fn get_row_col(&self, index: usize, width: u32) -> (cell: (u32, u32))
        requires
            width > 0,
            index <= u32::MAX,
        ensures
            cell.0 == row_of(index as int, width as int),
            cell.1 == col_of(index as int, width as int),
    {
        let row = (index as u32) / width;
        let col = (index as u32) % width;
        (row, col)
    }

    /// Looks one move ahead in the current heading.
    ///
    /// Where the move keeps the head on the grid, the row and column it reaches
    /// are returned and the snake is left as it was. Where the move would leave
    /// the grid, the snake dies and the row and column of the head are returned.
    pub fn get_next_move(&mut self, width: u32, height: u32) -> (cell: (u32, u32))
        requires
            old(self)@.body.len() > 0,
            width > 0,
            height > 0,
            old(self)@.head() < width * height,
        ensures
            final(self)@ == (SnakeView {
                alive: old(self)@.alive && old(self)@.stays_in_grid(width as nat, height as nat),
                ..old(self)@
            }),
            old(self)@.stays_in_grid(width as nat, height as nat) ==> {
                &&& cell.0 == old(self)@.next_row(width as nat)
                &&& cell.1 == old(self)@.next_col(width as nat)
            },
            !old(self)@.stays_in_grid(width as nat, height as nat) ==> {
                &&& cell.0 == old(self)@.head_row(width as nat)
                &&& cell.1 == old(self)@.head_col(width as nat)
            },
    {
        let head = self.body[self.body.len() - 1];
        let (row, col) = self.get_row_col(head as usize, width);
        proof {
            lemma_coordinates_in_grid(head as int, width as int, height as int);
        }
        match self.direction {
            Direction::Up => {
                if row == 0 {
                    self.alive = false;
                    return (row, col);
                }
                (row - 1, col)
            },
            Direction::Down => {
                if row >= height - 1 {
                    self.alive = false;
                    return (row, col);
                }
                (row + 1, col)
            },
            Direction::Left => {
                if col == 0 {
                    self.alive = false;
                    return (row, col);
                }
                (row, col - 1)
            },
            Direction::Right => {
                if col >= width - 1 {
                    self.alive = false;
                    return (row, col);
                }
                (row, col + 1)
            },
        }
    }

    /// Turns the snake towards `direction`, unless that is the opposite of its
    /// heading: a snake cannot turn back onto its own neck, and such a request
    /// leaves the heading as it was.
    pub fn change_direction(&mut self, direction: Direction)
        ensures
            final(self)@ == (SnakeView {
                direction: if direction == old(self)@.direction.opposite() {
                    old(self)@.direction
                } else {
                    direction
                },
                ..old(self)@
            }),
    {
        if !self.direction.is_opposite(direction) {
            self.direction = direction;
        }
    }

    /// Tells whether some segment of the body lies on `index`.
    pub fn occupies(&self, index: u32) -> (found: bool)
        ensures
            found == self@.occupies(index as nat),
    {
        let mut i: usize = 0;
        while i < self.body.len()
            invariant
                i <= self.body.len(),
                forall|j: int| 0 <= j < i ==> self.body@[j] != index,
            decreases self.body.len() - i,
        {
            if self.body[i] == index {
                assert(self@.body[i as int] == index as nat);
                return true;
            }
            i += 1;
        }
        false
    }
}

} // verus!
