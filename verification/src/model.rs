//! The game as a mathematical model: what a universe is, and what one tick
//! makes of it.

use vstd::prelude::*;
use vstd::arithmetic::div_mod::lemma_mod_bound;
use crate::direction::Direction;
use crate::grid::{index_of, lemma_coordinates_of_index, lemma_index_in_range, Cell};
use crate::snake::SnakeView;

verus! {

/// The grid index on which every snake starts.
pub const ORIGIN: u32 = 0;

/// What one tick did.
#[derive(Clone, Copy, Debug, PartialEq, Eq, Structural)]
pub enum TickOutcome {
    /// The snake was dead already: nothing changed.
    Halted,
    /// The snake died in this tick: it ran into the boundary or into itself,
    /// or it reached the target with no cell left free for the next one.
    Died,
    /// The snake moved ahead by one cell and kept its length.
    Slid,
    /// The snake ate the target and grew by one segment, and a new target was
    /// placed on a free cell.
    Grew,
}

/// How many of the cells below `bound` the body does not lie on.
pub open spec fn free_below(body: Seq<nat>, bound: nat) -> nat
    decreases bound,
{
    if bound == 0 {
        0
    } else if body.contains((bound - 1) as nat) {
        free_below(body, (bound - 1) as nat)
    } else {
        free_below(body, (bound - 1) as nat) + 1
    }
}

/// The cell off the body that has exactly `rank` cells off the body below it.
pub open spec fn free_cell(body: Seq<nat>, rank: nat) -> nat {
    choose|cell: nat| !body.contains(cell) && free_below(body, cell) == rank
}

/// What a universe is, as plain mathematical values.
pub struct UniverseView {
    /// The number of columns.
    pub width: nat,
    /// The number of rows.
    pub height: nat,
    /// The cells, row after row.
    pub cells: Seq<Cell>,
    /// The snake.
    pub snake: SnakeView,
    /// The grid index of the target.
    pub target: nat,
}

/// Whether a universe can be set up with these dimensions and this target: the
/// grid has cells, their number fits the index type, and the target is a cell
/// other than the one the snake starts on.
pub open spec fn can_start(width: nat, height: nat, target: nat) -> bool {
    &&& 0 < width
    &&& 0 < height
    &&& width * height <= u32::MAX
    &&& target < width * height
    &&& target != ORIGIN
}

impl UniverseView {
    /// The universe as it is set up: a snake of one segment on the origin,
    /// heading right and alive, and only the origin and the target filled.
    pub open spec fn initial(width: nat, height: nat, target: nat) -> UniverseView {
        UniverseView {
            width,
            height,
            cells: Seq::new(
                width * height,
                |i: int|
                    if i == ORIGIN || i == target {
                        Cell::Filled
                    } else {
                        Cell::Empty
                    },
            ),
            snake: SnakeView { direction: Direction::Right, body: seq![ORIGIN as nat], alive: true },
            target,
        }
    }

    /// The number of cells of the grid.
    pub open spec fn cell_count(self) -> nat {
        self.width * self.height
    }

    /// The invariant of a universe.
    ///
    /// The grid has cells and their number fits the index type; the snake has a
    /// body, which lies on the grid and on no cell twice; the target lies on the
    /// grid and not under the snake; and exactly the cells under the snake and
    /// the target are filled.
    pub open spec fn wf(self) -> bool {
        &&& 0 < self.width
        &&& 0 < self.height
        &&& self.cell_count() <= u32::MAX
        &&& self.cells.len() == self.cell_count()
        &&& self.snake.body.len() > 0
        &&& self.snake.body.no_duplicates()
        &&& forall|i: int|
            0 <= i < self.snake.body.len() ==> #[trigger] self.snake.body[i] < self.cell_count()
        &&& self.target < self.cell_count()
        &&& !self.snake.occupies(self.target)
        &&& forall|i: int|
            0 <= i < self.cells.len() ==> ((#[trigger] self.cells[i]) == Cell::Filled <==> (
            self.snake.occupies(i as nat) || i == self.target))
    }

    /// Whether the next move would take the head off the grid.
    pub open spec fn hits_wall(self) -> bool {
        !self.snake.stays_in_grid(self.width, self.height)
    }

    /// The grid index the head reaches by the next move. Meaningful where the
    /// move stays on the grid.
    pub open spec fn next_index(self) -> nat {
        index_of(
            self.snake.next_row(self.width),
            self.snake.next_col(self.width),
            self.width as int,
        ) as nat
    }

    /// Whether the next move would take the head onto the snake's own body.
    pub open spec fn hits_self(self) -> bool {
        self.snake.occupies(self.next_index())
    }

    /// Whether the next move takes the head onto the target.
    pub open spec fn eats(self) -> bool {
        self.next_index() == self.target
    }

    /// Whether a tick lets the snake eat: it is alive, its next move stays on
    /// the grid and off its body and reaches the target, and the body, once
    /// grown, is shorter than the grid has cells.
    pub open spec fn eats_with_room(self) -> bool {
        &&& self.snake.alive
        &&& !self.hits_wall()
        &&& !self.hits_self()
        &&& self.eats()
        &&& self.snake.body.len() + 1 < self.cell_count()
    }

    /// The body with the cell of the next move added as its new head.
    pub open spec fn grown_body(self) -> Seq<nat> {
        self.snake.body.push(self.next_index())
    }

    /// Whether the body, once grown by the next move, covers every cell, so
    /// that no cell is left for a target.
    pub open spec fn grown_fills_grid(self) -> bool {
        forall|i: nat| i < self.cell_count() ==> self.grown_body().contains(i)
    }

    /// Whether `candidate` can be the target after the snake has grown by the
    /// next move: it is a cell of the grid and the grown body does not lie on
    /// it.
    pub open spec fn accepts(self, candidate: nat) -> bool {
        candidate < self.cell_count() && !self.grown_body().contains(candidate)
    }

    /// How many cells the body, once grown by the next move, leaves free.
    pub open spec fn free_count(self) -> nat {
        free_below(self.grown_body(), self.cell_count())
    }

    /// The target that is placed after the snake has grown by the next move,
    /// where `candidate` is the draw offered for it.
    ///
    /// A draw that names a free cell is that cell. Any other draw picks among
    /// the free cells by rank: the free cell that has as many free cells below
    /// it as the draw leaves when divided by their number.
    pub open spec fn next_target(self, candidate: nat) -> nat {
        if self.accepts(candidate) {
            candidate
        } else {
            free_cell(self.grown_body(), candidate % self.free_count())
        }
    }

    /// What a tick does.
    pub open spec fn outcome(self) -> TickOutcome {
        if !self.snake.alive {
            TickOutcome::Halted
        } else if self.hits_wall() || self.hits_self() {
            TickOutcome::Died
        } else if !self.eats() {
            TickOutcome::Slid
        } else if self.grown_fills_grid() {
            TickOutcome::Died
        } else {
            TickOutcome::Grew
        }
    }

    /// This universe with the snake dead and nothing else changed.
    pub open spec fn died(self) -> UniverseView {
        UniverseView { snake: SnakeView { alive: false, ..self.snake }, ..self }
    }

    /// This universe after the snake has moved ahead by one cell: the cell of
    /// the next move is filled, the cell of the tail is emptied, and the body
    /// has the new head in place of the tail.
    pub open spec fn slid(self) -> UniverseView {
        UniverseView {
            cells: self.cells.update(self.next_index() as int, Cell::Filled).update(
                self.snake.body.first() as int,
                Cell::Empty,
            ),
            snake: SnakeView { body: self.grown_body().remove(0), ..self.snake },
            ..self
        }
    }

    /// This universe after the snake has eaten: the body has grown by the cell
    /// of the next move, and `target` is the new target and is filled.
    pub open spec fn grew(self, target: nat) -> UniverseView {
        UniverseView {
            cells: self.cells.update(self.next_index() as int, Cell::Filled).update(
                target as int,
                Cell::Filled,
            ),
            snake: SnakeView { body: self.grown_body(), ..self.snake },
            target,
            ..self
        }
    }

    /// The universe after a tick that is offered `candidate` as the draw for
    /// the next target.
    pub open spec fn step(self, candidate: nat) -> UniverseView {
        match self.outcome() {
            TickOutcome::Halted => self,
            TickOutcome::Died => self.died(),
            TickOutcome::Slid => self.slid(),
            TickOutcome::Grew => self.grew(self.next_target(candidate)),
        }
    }

    /// The grid as text: the glyphs of each row, and a line feed after each row.
    pub open spec fn rendered(self) -> Seq<char> {
        Seq::new(
            self.height * (self.width + 1),
            |k: int|
                {
                    let row = k / (self.width + 1) as int;
                    let col = k % (self.width + 1) as int;
                    if col == self.width {
                        '\n'
                    } else {
                        self.cells[index_of(row, col, self.width as int)].glyph()
                    }
                },
        )
    }

    /// The universe after one tick for each of `candidates`, in their order.
    pub open spec fn run(self, candidates: Seq<nat>) -> UniverseView
        decreases candidates.len(),
    {
        if candidates.len() == 0 {
            self
        } else {
            self.step(candidates.first()).run(candidates.drop_first())
        }
    }
}

/// Adding an item that a sequence without repetitions does not hold gives a
/// sequence without repetitions, which holds that item and what the sequence
/// held.
pub proof fn lemma_push_fresh(body: Seq<nat>, item: nat)
    requires
        body.no_duplicates(),
        !body.contains(item),
    ensures
        body.push(item).no_duplicates(),
        forall|x: nat| body.push(item).contains(x) <==> (x == item || body.contains(x)),
{
    let pushed = body.push(item);
    assert forall|i: int, j: int|
        0 <= i < pushed.len() && 0 <= j < pushed.len() && i != j implies pushed[i] != pushed[j] by {
        if i < body.len() {
            assert(body.contains(body[i]));
        }
        if j < body.len() {
            assert(body.contains(body[j]));
        }
    }
    assert forall|x: nat| pushed.contains(x) <==> (x == item || body.contains(x)) by {
        if pushed.contains(x) {
            let i = choose|i: int| 0 <= i < pushed.len() && pushed[i] == x;
            if i < body.len() {
                assert(body[i] == x);
            }
        }
        if x == item {
            assert(pushed[body.len() as int] == x);
        }
        if body.contains(x) {
            let i = choose|i: int| 0 <= i < body.len() && body[i] == x;
            assert(pushed[i] == x);
        }
    }
}

/// Taking one item out of a sequence without repetitions gives a sequence
/// without repetitions, which holds what the sequence held but for that item.
pub proof fn lemma_remove_at(body: Seq<nat>, at: int)
    requires
        0 <= at < body.len(),
        body.no_duplicates(),
    ensures
        body.remove(at).len() == body.len() - 1,
        body.remove(at).no_duplicates(),
        forall|x: nat| body.remove(at).contains(x) <==> (x != body[at] && body.contains(x)),
{
    let rest = body.remove(at);
    body.remove_ensures(at);
    assert forall|i: int, j: int|
        0 <= i < rest.len() && 0 <= j < rest.len() && i != j implies rest[i] != rest[j] by {
        let a = if i < at { i } else { i + 1 };
        let b = if j < at { j } else { j + 1 };
        assert(rest[i] == body[a] && rest[j] == body[b]);
    }
    assert forall|x: nat| rest.contains(x) <==> (x != body[at] && body.contains(x)) by {
        if rest.contains(x) {
            let i = choose|i: int| 0 <= i < rest.len() && rest[i] == x;
            let a = if i < at { i } else { i + 1 };
            assert(body[a] == x);
        }
        if x != body[at] && body.contains(x) {
            let j = choose|j: int| 0 <= j < body.len() && body[j] == x;
            let i = if j < at { j } else { j - 1 };
            assert(rest[i] == x);
        }
    }
}

/// The number of free cells below a bound does not shrink as the bound grows.
pub proof fn lemma_free_below_grows(body: Seq<nat>, low: nat, high: nat)
    requires
        low <= high,
    ensures
        free_below(body, low) <= free_below(body, high),
    decreases high,
{
    if low < high {
        lemma_free_below_grows(body, low, (high - 1) as nat);
    }
}

/// No cell is free below a bound if and only if the body lies on every cell
/// below it.
pub proof fn lemma_free_below_zero(body: Seq<nat>, bound: nat)
    ensures
        free_below(body, bound) == 0 <==> (forall|x: nat| x < bound ==> body.contains(x)),
    decreases bound,
{
    if bound > 0 {
        let top = (bound - 1) as nat;
        lemma_free_below_zero(body, top);
        if free_below(body, bound) == 0 {
            assert forall|x: nat| x < bound implies body.contains(x) by {
                if x < top {
                    assert(body.contains(x));
                }
            }
        }
    }
}

/// Two bodies that lie on the same cells below a bound leave equally many
/// cells free below it.
pub proof fn lemma_free_below_same(one: Seq<nat>, other: Seq<nat>, bound: nat)
    requires
        forall|x: nat| x < bound ==> (one.contains(x) <==> other.contains(x)),
    ensures
        free_below(one, bound) == free_below(other, bound),
    decreases bound,
{
    if bound > 0 {
        lemma_free_below_same(one, other, (bound - 1) as nat);
    }
}

/// A body without repetitions that lies below a bound is no longer than the
/// bound, and the cells it leaves free below the bound are those it is
/// shorter by.
pub proof fn lemma_free_below_counts(body: Seq<nat>, bound: nat)
    requires
        body.no_duplicates(),
        forall|i: int| 0 <= i < body.len() ==> #[trigger] body[i] < bound,
    ensures
        free_below(body, bound) + body.len() == bound,
    decreases bound,
{
    if bound == 0 {
        if body.len() > 0 {
            assert(body[0] < bound);
        }
    } else {
        let top = (bound - 1) as nat;
        if body.contains(top) {
            let k = choose|k: int| 0 <= k < body.len() && body[k] == top;
            let rest = body.remove(k);
            lemma_remove_at(body, k);
            assert forall|i: int| 0 <= i < rest.len() implies #[trigger] rest[i] < top by {
                assert(rest.contains(rest[i]));
                let j = choose|j: int| 0 <= j < body.len() && body[j] == rest[i];
                assert(body[j] < bound);
            }
            lemma_free_below_same(body, rest, top);
            lemma_free_below_counts(rest, top);
        } else {
            assert forall|i: int| 0 <= i < body.len() implies #[trigger] body[i] < top by {
                assert(body[i] < bound);
                assert(body.contains(body[i]));
            }
            lemma_free_below_counts(body, top);
        }
    }
}

/// A free cell with `rank` free cells below it is the free cell of that rank:
/// there is no other.
pub proof fn lemma_free_cell_is(body: Seq<nat>, rank: nat, cell: nat)
    requires
        !body.contains(cell),
        free_below(body, cell) == rank,
    ensures
        free_cell(body, rank) == cell,
{
    let picked = free_cell(body, rank);
    if picked < cell {
        lemma_free_below_grows(body, picked + 1, cell);
    } else if cell < picked {
        lemma_free_below_grows(body, cell + 1, picked);
    }
}

/// Where more than `rank` cells are free below a bound, the free cell of that
/// rank lies below the bound, off the body, with `rank` free cells below it.
pub proof fn lemma_free_cell_exists(body: Seq<nat>, rank: nat, bound: nat)
    requires
        rank < free_below(body, bound),
    ensures
        free_cell(body, rank) < bound,
        !body.contains(free_cell(body, rank)),
        free_below(body, free_cell(body, rank)) == rank,
    decreases bound,
{
    let top = (bound - 1) as nat;
    if !body.contains(top) && free_below(body, top) == rank {
        lemma_free_cell_is(body, rank, top);
    } else {
        lemma_free_cell_exists(body, rank, top);
    }
}

impl UniverseView {
    /// Where the next move stays on the grid, the index it reaches is the index
    /// of a cell.
    pub proof fn lemma_next_index_on_grid(self)
        requires
            self.wf(),
            !self.hits_wall(),
        ensures
            self.next_index() < self.cell_count(),
            self.next_index() == index_of(
                self.snake.next_row(self.width),
                self.snake.next_col(self.width),
                self.width as int,
            ),
    {
        lemma_index_in_range(
            self.snake.next_row(self.width),
            self.snake.next_col(self.width),
            self.width as int,
            self.height as int,
        );
    }

    /// Where the next move reaches a cell off the snake's body, the grown body
    /// has no repetitions and lies on the cell of the next move and on what the
    /// body lay on.
    pub proof fn lemma_grown_body(self)
        requires
            !self.hits_self(),
            self.snake.body.no_duplicates(),
        ensures
            self.grown_body().no_duplicates(),
            forall|x: nat|
                self.grown_body().contains(x) <==> (x == self.next_index()
                    || self.snake.body.contains(x)),
    {
        lemma_push_fresh(self.snake.body, self.next_index());
    }

    /// Where the next move reaches a cell off the snake's body, the cells that
    /// the grown body leaves free are those by which it is shorter than the
    /// grid, and it covers the grid if and only if it leaves none free.
    pub proof fn lemma_free_count(self)
        requires
            self.wf(),
            !self.hits_wall(),
            !self.hits_self(),
        ensures
            self.free_count() + self.snake.body.len() + 1 == self.cell_count(),
            self.grown_fills_grid() <==> self.free_count() == 0,
    {
        self.lemma_next_index_on_grid();
        self.lemma_grown_body();
        let grown = self.grown_body();
        assert forall|i: int| 0 <= i < grown.len() implies #[trigger] grown[i] < self.cell_count() by {
            if i < self.snake.body.len() {
                assert(grown[i] == self.snake.body[i]);
            }
        }
        lemma_free_below_counts(grown, self.cell_count());
        lemma_free_below_zero(grown, self.cell_count());
    }

    /// Where the grown body leaves a cell free, the target that is placed is
    /// a cell of the grid off the grown body, whatever the draw.
    pub proof fn lemma_next_target_is_free(self, candidate: nat)
        requires
            self.wf(),
            !self.hits_wall(),
            !self.hits_self(),
            !self.grown_fills_grid(),
        ensures
            self.accepts(self.next_target(candidate)),
    {
        if !self.accepts(candidate) {
            self.lemma_free_count();
            let free = self.free_count();
            lemma_mod_bound(candidate as int, free as int);
            lemma_free_cell_exists(self.grown_body(), candidate % free, self.cell_count());
        }
    }

    /// What the text of the grid holds at each place: in row `row`, the glyph
    /// of the cell in column `col`, and after the last column a line feed.
    pub proof fn lemma_rendered_at(self, row: int, col: int)
        requires
            0 <= row < self.height,
            0 <= col <= self.width,
        ensures
            self.rendered().len() == self.height * (self.width + 1),
            0 <= row * (self.width + 1) + col < self.rendered().len(),
            self.rendered()[row * (self.width + 1) + col] == (if col == self.width {
                '\n'
            } else {
                self.cells[index_of(row, col, self.width as int)].glyph()
            }),
    {
        let stride = self.width as int + 1;
        lemma_index_in_range(row, col, stride, self.height as int);
        lemma_coordinates_of_index(row, col, stride);
        assert(self.height * stride == stride * self.height) by (nonlinear_arith);
    }

    /// The universe as it is set up satisfies the invariant.
    pub proof fn lemma_initial_wf(width: nat, height: nat, target: nat)
        requires
            can_start(width, height, target),
        ensures
            Self::initial(width, height, target).wf(),
    {
        let start = Self::initial(width, height, target);
        assert(start.snake.body[0] == ORIGIN);
        assert forall|i: int| 0 <= i < start.cells.len() implies ((#[trigger] start.cells[i])
            == Cell::Filled <==> (start.snake.occupies(i as nat) || i == start.target)) by {
            if i == ORIGIN {
                assert(start.snake.body[0] == i as nat);
            }
        }
    }

    /// A tick keeps the invariant, whatever target it is offered.
    pub proof fn lemma_step_keeps_wf(self, candidate: nat)
        requires
            self.wf(),
        ensures
            self.step(candidate).wf(),
    {
        let after = self.step(candidate);
        let next = self.next_index();
        match self.outcome() {
            TickOutcome::Halted | TickOutcome::Died => {},
            TickOutcome::Slid => {
                self.lemma_next_index_on_grid();
                let grown = self.grown_body();
                let tail = self.snake.body.first();
                lemma_push_fresh(self.snake.body, next);
                lemma_remove_at(grown, 0);
                grown.remove_ensures(0);
                assert(grown.first() == tail);
                assert(self.snake.body.contains(tail));
                assert forall|i: int| 0 <= i < after.snake.body.len() implies
                    #[trigger] after.snake.body[i] < after.cell_count() by {
                    assert(after.snake.body[i] == grown[i + 1]);
                    if i + 1 < self.snake.body.len() {
                        assert(grown[i + 1] == self.snake.body[i + 1]);
                    }
                }
                assert forall|i: int| 0 <= i < after.cells.len() implies ((#[trigger] after.cells[i])
                    == Cell::Filled <==> (after.snake.occupies(i as nat) || i == after.target)) by {
                    if i != tail && i != next {
                        assert(after.cells[i] == self.cells[i]);
                    }
                }
            },
            TickOutcome::Grew => {
                self.lemma_next_index_on_grid();
                self.lemma_next_target_is_free(candidate);
                let grown = self.grown_body();
                let placed = self.next_target(candidate);
                lemma_push_fresh(self.snake.body, next);
                assert forall|i: int| 0 <= i < after.snake.body.len() implies
                    #[trigger] after.snake.body[i] < after.cell_count() by {
                    if i < self.snake.body.len() {
                        assert(grown[i] == self.snake.body[i]);
                    }
                }
                assert forall|i: int| 0 <= i < after.cells.len() implies ((#[trigger] after.cells[i])
                    == Cell::Filled <==> (after.snake.occupies(i as nat) || i == after.target)) by {
                    if i != placed && i != next {
                        assert(after.cells[i] == self.cells[i]);
                    }
                }
            },
        }
    }

    /// Ticks keep the invariant, however many follow and whatever targets they
    /// are offered.
    pub proof fn lemma_run_keeps_wf(self, candidates: Seq<nat>)
        requires
            self.wf(),
        ensures
            self.run(candidates).wf(),
        decreases candidates.len(),
    {
        if candidates.len() > 0 {
            self.lemma_step_keeps_wf(candidates.first());
            self.step(candidates.first()).lemma_run_keeps_wf(candidates.drop_first());
        }
    }

    /// The target never lies under the snake: not when the universe is set
    /// up, and not after any number of ticks, whatever targets they are
    /// offered.
    pub proof fn lemma_target_off_body(width: nat, height: nat, target: nat, candidates: Seq<nat>)
        requires
            can_start(width, height, target),
        ensures
            ({
                let now = Self::initial(width, height, target).run(candidates);
                !now.snake.occupies(now.target)
            }),
    {
        Self::lemma_initial_wf(width, height, target);
        Self::initial(width, height, target).lemma_run_keeps_wf(candidates);
    }

    /// A tick in which the snake eats makes the body longer by one segment; a
    /// tick in which it moves ahead, and every other tick, keeps its length.
    pub proof fn lemma_body_length(self, candidate: nat)
        requires
            self.wf(),
        ensures
            self.outcome() == TickOutcome::Grew ==> self.step(candidate).snake.body.len()
                == self.snake.body.len() + 1,
            self.outcome() != TickOutcome::Grew ==> self.step(candidate).snake.body.len()
                == self.snake.body.len(),
    {
        if self.outcome() == TickOutcome::Slid {
            self.grown_body().remove_ensures(0);
        }
    }

    /// A living snake whose next move reaches the target, on a grid that the
    /// grown body does not fill, eats, whatever the draw: it stays alive, its
    /// body is the old body with the old target as the new head, and the new
    /// target is another cell of the grid, off the body. The old and the new
    /// target are filled and no other cell changes.
    pub proof fn lemma_eating_grows(self, candidate: nat)
        requires
            self.wf(),
            self.eats_with_room(),
        ensures
            self.outcome() == TickOutcome::Grew,
            ({
                let after = self.step(candidate);
                &&& after.snake.alive
                &&& after.snake.direction == self.snake.direction
                &&& after.snake.body == self.snake.body.push(self.target)
                &&& after.snake.body.len() == self.snake.body.len() + 1
                &&& after.target != self.target
                &&& after.target < self.cell_count()
                &&& !after.snake.occupies(after.target)
                &&& after.cells == self.cells.update(self.target as int, Cell::Filled).update(
                    after.target as int,
                    Cell::Filled,
                )
            }),
    {
        self.lemma_free_count();
        self.lemma_next_target_is_free(candidate);
        let placed = self.next_target(candidate);
        assert(self.grown_body().contains(self.target)) by {
            assert(self.grown_body()[self.snake.body.len() as int] == self.target);
        }
    }

    /// A dead snake stays dead, and ticks change nothing in its universe,
    /// however many follow and whatever targets they are offered.
    pub proof fn lemma_dead_is_terminal(self, candidates: Seq<nat>)
        requires
            !self.snake.alive,
        ensures
            self.run(candidates) == self,
        decreases candidates.len(),
    {
        if candidates.len() > 0 {
            self.lemma_dead_is_terminal(candidates.drop_first());
        }
    }

    /// No tick brings a dead snake back to life.
    pub proof fn lemma_death_is_final(self, candidate: nat)
        ensures
            !self.snake.alive ==> self.step(candidate) == self,
            self.step(candidate).snake.alive ==> self.snake.alive,
    {
    }
}

} // verus!
