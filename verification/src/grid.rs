//! Cells and coordinates of a row-major grid.
//!
//! A grid of `width` by `height` cells is stored as one flat sequence, row after
//! row. The cell in row `row` and column `col` has the linear index
//! `row * width + col`.

use vstd::prelude::*;
use vstd::arithmetic::div_mod::{
    lemma_fundamental_div_mod,
    lemma_fundamental_div_mod_converse,
    lemma_mod_bound,
    lemma_div_pos_is_pos,
    lemma_multiply_divide_lt,
};

verus! {

/// The state of one position of the grid.
#[derive(Clone, Copy, Debug, PartialEq, Eq, Structural)]
pub enum Cell {
    Empty,
    Filled,
}

/// The glyph that stands for an empty cell when the grid is drawn as text.
pub const EMPTY_GLYPH: char = '\u{25fb}';

/// The glyph that stands for a filled cell when the grid is drawn as text.
pub const FILLED_GLYPH: char = '\u{25fc}';

impl Cell {
    /// The glyph that stands for this cell when the grid is drawn as text.
    pub open spec fn glyph(self) -> char {
        match self {
            Cell::Empty => EMPTY_GLYPH,
            Cell::Filled => FILLED_GLYPH,
        }
    }

    /// The glyph of this cell as a piece of text one character long.
    pub fn glyph_text(self) -> (text: &'static str)
        ensures
            text@ == seq![self.glyph()],
    {
        match self {
            Cell::Empty => {
                proof {
                    reveal_strlit("\u{25fb}");
                }
                assert("\u{25fb}"@ =~= seq![EMPTY_GLYPH]);
                "\u{25fb}"
            },
            Cell::Filled => {
                proof {
                    reveal_strlit("\u{25fc}");
                }
                assert("\u{25fc}"@ =~= seq![FILLED_GLYPH]);
                "\u{25fc}"
            },
        }
    }
}

/// The linear index of the cell at `row` and `col` on a grid `width` cells wide.
pub open spec fn index_of(row: int, col: int, width: int) -> int {
    row * width + col
}

/// The row on which the cell with linear index `index` lies.
pub open spec fn row_of(index: int, width: int) -> int {
    index / width
}

/// The column in which the cell with linear index `index` lies.
pub open spec fn col_of(index: int, width: int) -> int {
    index % width
}

/// Whether `row` and `col` name a cell of a grid of `width` by `height` cells.
pub open spec fn in_grid(row: int, col: int, width: int, height: int) -> bool {
    0 <= row < height && 0 <= col < width
}

/// The linear index of a cell of the grid is smaller than the number of cells.
pub proof fn lemma_index_in_range(row: int, col: int, width: int, height: int)
    requires
        in_grid(row, col, width, height),
    ensures
        0 <= index_of(row, col, width) < width * height,
{
    assert(0 <= row * width) by (nonlinear_arith)
        requires
            0 <= row,
            0 <= width,
    ;
    assert(row * width + width <= height * width) by (nonlinear_arith)
        requires
            row + 1 <= height,
            0 <= width,
    ;
    assert(height * width == width * height) by (nonlinear_arith);
}

/// Taking the index of a row and a column and splitting it again gives back the
/// same row and column, whenever the column lies within the width.
pub proof fn lemma_coordinates_of_index(row: int, col: int, width: int)
    requires
        0 <= col < width,
    ensures
        row_of(index_of(row, col, width), width) == row,
        col_of(index_of(row, col, width), width) == col,
{
    lemma_fundamental_div_mod_converse(index_of(row, col, width), width, row, col);
}

/// Splitting an index into row and column and joining them again gives back the
/// same index, for every grid that has a width.
pub proof fn lemma_index_of_coordinates(index: int, width: int)
    requires
        0 < width,
    ensures
        index_of(row_of(index, width), col_of(index, width), width) == index,
{
    lemma_fundamental_div_mod(index, width);
    assert(width * (index / width) == (index / width) * width) by (nonlinear_arith);
}

/// The row and column of an index below the number of cells name a cell of the
/// grid.
pub proof fn lemma_coordinates_in_grid(index: int, width: int, height: int)
    requires
        0 < width,
        0 <= index < width * height,
    ensures
        in_grid(row_of(index, width), col_of(index, width), width, height),
{
    lemma_mod_bound(index, width);
    lemma_div_pos_is_pos(index, width);
    lemma_multiply_divide_lt(index, width, height);
}

} // verus!
