//! The universe: a grid, the snake on it and the target the snake is after.

use vstd::prelude::*;
use vstd::string::StringExecFns;
use crate::direction::Direction;
use crate::grid::{in_grid, index_of, lemma_index_in_range, Cell};
use crate::model::{
    can_start,
    free_below,
    free_cell,
    lemma_free_cell_is,
    TickOutcome,
    UniverseView,
    ORIGIN,
};
use crate::snake::{Snake, SnakeView};

verus! {

/// A grid of cells with a snake and a target on it.
///
/// The universe draws no random numbers of its own. Whoever drives it hands in
/// the cell of the first target when the universe is set up, and a draw for
/// the next target with every tick.
pub struct Universe {
    width: u32,
    height: u32,
    cells: Vec<Cell>,
    snake: Snake,
    target: u32,
}

impl Universe {
    /// The universe as plain mathematical values.
    pub closed spec fn view(&self) -> UniverseView {
        UniverseView {
            width: self.width as nat,
            height: self.height as nat,
            cells: self.cells@,
            snake: self.snake@,
            target: self.target as nat,
        }
    }

    /// The invariant that every universe satisfies after it is set up and
    /// after every tick.
    pub open spec fn wf(&self) -> bool {
        self@.wf()
    }

    /// The linear index of the cell at `row` and `column`.
    pub fn get_index(&self, row: u32, column: u32) -> (index: usize)
        requires
            self.wf(),
            in_grid(row as int, column as int, self@.width as int, self@.height as int),
        ensures
            index == index_of(row as int, column as int, self@.width as int),
            index < self@.cell_count(),
    {
        proof {
            lemma_index_in_range(
                row as int,
                column as int,
                self.width as int,
                self.height as int,
            );
        }
        (row * self.width + column) as usize
    }

    /// The snake.
    pub fn snake(&self) -> (snake: &Snake)
        ensures
            snake@ == self@.snake,
    {
        &self.snake
    }

    /// Turns the snake towards `direction`, unless that is the opposite of its
    /// heading: a snake cannot turn back onto its own neck. Tells whether the
    /// snake turned.
    pub fn change_snake_direction(&mut self, direction: Direction) -> (applied: bool)
        ensures
            applied == (direction != old(self)@.snake.direction.opposite()),
            final(self)@ == (UniverseView {
                snake: SnakeView {
                    direction: if applied {
                        direction
                    } else {
                        old(self)@.snake.direction
                    },
                    ..old(self)@.snake
                },
                ..old(self)@
            }),
            old(self).wf() ==> final(self).wf(),
    {
        let applied = !self.snake.direction.is_opposite(direction);
        self.snake.change_direction(direction);
        applied
    }

    /// Whether the snake is alive, that is, whether the game is still on.
    pub fn snake_is_alive(&self) -> (alive: bool)
        ensures
            alive == self@.snake.alive,
    {
        self.snake.alive
    }

    /// Sets up a universe of `width` by `height` cells with the target on
    /// `target`.
    ///
    /// The snake starts with one segment on the origin, heading right. There is
    /// no universe without cells, none with more cells than the index type can
    /// count, and none whose target lies off the grid or on the origin.
    pub fn new(width: u32, height: u32, target: u32) -> (made: Option<Universe>)
        ensures
            made is Some <==> can_start(width as nat, height as nat, target as nat),
            made matches Some(universe) ==> {
                &&& universe.wf()
                &&& universe@ == UniverseView::initial(width as nat, height as nat, target as nat)
            },
    {
        if width == 0 || height == 0 {
            return None;
        }
        let count = match width.checked_mul(height) {
            Some(count) => count,
            None => {
                return None;
            },
        };
        if target == ORIGIN || target >= count {
            return None;
        }
        let mut cells: Vec<Cell> = Vec::new();
        let mut i: u32 = 0;
        while i < count
            invariant
                i <= count,
                cells@.len() == i,
                forall|j: int|
                    0 <= j < i ==> #[trigger] cells@[j] == (if j == ORIGIN || j == target {
                        Cell::Filled
                    } else {
                        Cell::Empty
                    }),
            decreases count - i,
        {
            if i == ORIGIN || i == target {
                cells.push(Cell::Filled);
            } else {
                cells.push(Cell::Empty);
            }
            i += 1;
        }
        let snake = Snake { direction: Direction::Right, body: vec![ORIGIN], alive: true };
        let universe = Universe { width, height, cells, snake, target };
        proof {
            let start = UniverseView::initial(width as nat, height as nat, target as nat);
            assert(universe@.cells =~= start.cells);
            assert(universe@.snake.body =~= start.snake.body);
            UniverseView::lemma_initial_wf(width as nat, height as nat, target as nat);
        }
        Some(universe)
    }

    /// The number of columns.
    pub fn width(&self) -> (width: u32)
        ensures
            width == self@.width,
    {
        self.width
    }

    /// The number of rows.
    pub fn height(&self) -> (height: u32)
        ensures
            height == self@.height,
    {
        self.height
    }

    /// The cells, row after row.
    pub fn cells(&self) -> (cells: &Vec<Cell>)
        ensures
            cells@ == self@.cells,
    {
        &self.cells
    }

    /// The grid as text: one glyph for each cell, and a line feed after each
    /// row.
    pub fn render(&self) -> (text: String)
        requires
            self.wf(),
        ensures
            text@ == self@.rendered(),
    {
        let ghost drawn = self@.rendered();
        let ghost stride = self.width as int + 1;
        let mut text = String::new();
        let mut row: u32 = 0;
        while row < self.height
            invariant
                self.wf(),
                drawn == self@.rendered(),
                stride == self.width as int + 1,
                row <= self.height,
                text@.len() == row * stride,
                text@.len() <= drawn.len(),
                forall|k: int| 0 <= k < text@.len() ==> text@[k] == drawn[k],
            decreases self.height - row,
        {
            let mut col: u32 = 0;
            while col < self.width
                invariant
                    self.wf(),
                    drawn == self@.rendered(),
                    stride == self.width as int + 1,
                    row < self.height,
                    col <= self.width,
                    text@.len() == row * stride + col,
                    text@.len() <= drawn.len(),
                    forall|k: int| 0 <= k < text@.len() ==> text@[k] == drawn[k],
                decreases self.width - col,
            {
                let index = self.get_index(row, col);
                let cell = self.cells[index];
                let ghost so_far = text@;
                proof {
                    self@.lemma_rendered_at(row as int, col as int);
                }
                text.append(cell.glyph_text());
                assert(text@ =~= so_far.push(cell.glyph()));
                col += 1;
            }
            let ghost so_far = text@;
            proof {
                self@.lemma_rendered_at(row as int, col as int);
                reveal_strlit("\n");
            }
            text.append("\n");
            assert(text@ =~= so_far.push('\n'));
            assert((row + 1) * stride == row * stride + stride) by (nonlinear_arith);
            row += 1;
        }
        assert(text@ =~= drawn);
        text
    }

    /// The grid index of the target.
    pub fn target(&self) -> (target: u32)
        ensures
            target == self@.target,
    {
        self.target
    }

    /// Finds the free cell of rank `rank` for a snake that is about to eat:
    /// the empty cell that has `rank` empty cells below it.
    fn free_cell_of_rank(&self, rank: u32) -> (cell: u32)
        requires
            self.wf(),
            !self@.hits_wall(),
            !self@.hits_self(),
            self@.eats(),
            rank < self@.free_count(),
        ensures
            cell == free_cell(self@.grown_body(), rank as nat),
    {
        let ghost grown = self@.grown_body();
        proof {
            self@.lemma_grown_body();
        }
        let mut seen: u32 = 0;
        let mut i: usize = 0;
        loop
            invariant
                self.wf(),
                grown == self@.grown_body(),
                forall|x: nat|
                    grown.contains(x) <==> (x == self@.target || self@.snake.body.contains(x)),
                rank < free_below(grown, self@.cell_count()),
                i < self.cells.len(),
                seen == free_below(grown, i as nat),
                seen <= rank,
            decreases self.cells.len() - i,
        {
            let empty = self.cells[i] == Cell::Empty;
            assert(empty <==> !grown.contains(i as nat));
            if empty {
                if seen == rank {
                    proof {
                        lemma_free_cell_is(grown, rank as nat, i as nat);
                    }
                    return i as u32;
                }
                seen += 1;
            }
            i += 1;
            assert(seen == free_below(grown, i as nat));
        }
    }

    /// Moves the snake onto `idx` and takes its tail off the grid.
    fn slide(&mut self, idx: u32)
        requires
            old(self).wf(),
            !old(self)@.hits_wall(),
            !old(self)@.hits_self(),
            idx == old(self)@.next_index(),
        ensures
            final(self)@ == old(self)@.slid(),
    {
        let ghost before = self@;
        proof {
            before.lemma_next_index_on_grid();
        }
        self.cells.set(idx as usize, Cell::Filled);
        let removed_cell = self.snake.body.remove(0);
        self.cells.set(removed_cell as usize, Cell::Empty);
        self.snake.body.push(idx);
        assert(self@.snake.body =~= before.grown_body().remove(0));
    }

    /// Picks the next target for a snake that is about to eat on `idx`, as
    /// `candidate` draws it.
    fn pick_target(&self, idx: u32, candidate: u32) -> (target: u32)
        requires
            self.wf(),
            !self@.hits_wall(),
            !self@.hits_self(),
            self@.eats(),
            !self@.grown_fills_grid(),
            idx == self@.next_index(),
        ensures
            target == self@.next_target(candidate as nat),
    {
        proof {
            self@.lemma_grown_body();
        }
        let usable = (candidate as usize) < self.cells.len() && candidate != idx
            && !self.snake.occupies(candidate);
        assert(usable == self@.accepts(candidate as nat));
        if usable {
            candidate
        } else {
            proof {
                self@.lemma_free_count();
            }
            let free = (self.cells.len() - self.snake.body.len() - 1) as u32;
            assert(free == self@.free_count());
            self.free_cell_of_rank(candidate % free)
        }
    }

    /// Lets the snake grow onto `idx`, which holds the target, and places the
    /// next target on `target`.
    fn grow(&mut self, idx: u32, target: u32)
        requires
            old(self).wf(),
            idx == old(self)@.next_index(),
            idx < old(self)@.cell_count(),
            target < old(self)@.cell_count(),
        ensures
            final(self)@ == old(self)@.grew(target as nat),
    {
        let ghost before = self@;
        self.cells.set(idx as usize, Cell::Filled);
        self.snake.body.push(idx);
        self.target = target;
        self.cells.set(target as usize, Cell::Filled);
        assert(self@.snake.body =~= before.grown_body());
    }

    /// Advances the game by one step.
    ///
    /// A dead snake stays as it is. A living snake moves one cell ahead in its
    /// heading: it dies where the move would leave the grid or reach its own
    /// body; it grows where the move reaches the target; otherwise it slides,
    /// giving up the cell of its tail.
    ///
    /// `candidate` is the draw for the next target, made by whoever drives the
    /// game. It is looked at only where the snake grows. A draw that names a
    /// cell of the grid off the grown body is the new target. Any other draw
    /// picks among the free cells by rank, so that every draw places a target.
    /// Where the grown body would leave no cell free, the snake dies instead
    /// and nothing else changes.
    pub fn tick(&mut self, candidate: u32) -> (outcome: TickOutcome)
        requires
            old(self).wf(),
        ensures
            final(self).wf(),
            outcome == old(self)@.outcome(),
            final(self)@ == old(self)@.step(candidate as nat),
            !old(self)@.snake.alive ==> final(self)@ == old(self)@,
            outcome == TickOutcome::Grew ==> final(self)@.snake.body.len()
                == old(self)@.snake.body.len() + 1,
            outcome != TickOutcome::Grew ==> final(self)@.snake.body.len()
                == old(self)@.snake.body.len(),
            !final(self)@.snake.occupies(final(self)@.target),
            old(self)@.eats_with_room() ==> {
                &&& outcome == TickOutcome::Grew
                &&& final(self)@.snake.alive
                &&& final(self)@.snake.body == old(self)@.snake.body.push(old(self)@.target)
                &&& final(self)@.target != old(self)@.target
                &&& final(self)@.target < old(self)@.cell_count()
                &&& final(self)@.cells == old(self)@.cells.update(
                    old(self)@.target as int,
                    Cell::Filled,
                ).update(final(self)@.target as int, Cell::Filled)
            },
    {
        let ghost before = self@;
        proof {
            before.lemma_step_keeps_wf(candidate as nat);
            before.lemma_body_length(candidate as nat);
            if before.eats_with_room() {
                before.lemma_eating_grows(candidate as nat);
            }
        }
        if !self.snake.alive {
            return TickOutcome::Halted;
        }
        let snake_next_move = self.snake.get_next_move(self.width, self.height);
        if !self.snake.alive {
            return TickOutcome::Died;
        }
        proof {
            before.lemma_next_index_on_grid();
        }
        let idx = self.get_index(snake_next_move.0, snake_next_move.1) as u32;

        if self.snake.occupies(idx) {
            self.snake.alive = false;
            return TickOutcome::Died;
        }
        if idx == self.target {
            proof {
                before.lemma_free_count();
            }
            if self.snake.body.len() + 1 >= self.cells.len() {
                self.snake.alive = false;
                return TickOutcome::Died;
            }
            let target = self.pick_target(idx, candidate);
            proof {
                before.lemma_next_target_is_free(candidate as nat);
            }
            self.grow(idx, target);
            TickOutcome::Grew
        } else {
            self.slide(idx);
            TickOutcome::Slid
        }
    }
}

} // verus!
