use snake_game::direction::Direction;
use snake_game::grid::{Cell, EMPTY_GLYPH, FILLED_GLYPH};
use snake_game::model::{TickOutcome, ORIGIN};
use snake_game::snake::Snake;
use snake_game::universe::Universe;

/// The snake of a 4 by 4 universe after it has eaten on cell 1.
fn grown_snake() -> Snake {
    let mut universe = Universe::new(4, 4, 1).unwrap();
    assert_eq!(universe.tick(7), TickOutcome::Grew);
    universe.snake().clone()
}

#[test]
fn get_row_col_splits_an_index() {
    let snake = grown_snake();
    assert_eq!(snake.get_row_col(0, 4), (0, 0));
    assert_eq!(snake.get_row_col(3, 4), (0, 3));
    assert_eq!(snake.get_row_col(4, 4), (1, 0));
    assert_eq!(snake.get_row_col(15, 4), (3, 3));
    assert_eq!(snake.get_row_col(7, 3), (2, 1));
    assert_eq!(snake.get_row_col(u32::MAX as usize, 1), (u32::MAX, 0));
}

#[test]
fn get_next_move_looks_one_cell_ahead() {
    let mut snake = grown_snake();
    assert_eq!(snake.get_next_move(4, 4), (0, 2));
    snake.change_direction(Direction::Down);
    assert_eq!(snake.get_next_move(4, 4), (1, 1));
    snake.change_direction(Direction::Left);
    assert_eq!(snake.get_next_move(4, 4), (0, 0));
    assert_eq!(snake, {
        let mut same = grown_snake();
        same.change_direction(Direction::Up);
        same.change_direction(Direction::Left);
        same
    });
}

#[test]
fn get_next_move_kills_the_snake_at_the_boundary() {
    let mut snake = grown_snake();
    snake.change_direction(Direction::Up);
    assert_eq!(snake.get_next_move(4, 4), (0, 1));
    assert_ne!(snake, {
        let mut alive = grown_snake();
        alive.change_direction(Direction::Up);
        alive
    });
    assert_eq!(snake.body(), &vec![0, 1]);
    assert_eq!(snake.direction(), Direction::Up);

    let mut narrow = grown_snake();
    assert_eq!(narrow.get_next_move(2, 8), (0, 1));
    assert_ne!(narrow, grown_snake());

    let mut low = grown_snake();
    low.change_direction(Direction::Down);
    assert_eq!(low.get_next_move(4, 1), (0, 1));
    assert_eq!(low.body(), &vec![0, 1]);
}

#[test]
fn get_next_move_keeps_a_dead_snake_dead() {
    let mut universe = Universe::new(4, 4, 5).unwrap();
    assert!(universe.change_snake_direction(Direction::Up));
    assert_eq!(universe.tick(9), TickOutcome::Died);
    let dead = universe.snake().clone();
    let mut snake = dead.clone();
    snake.change_direction(Direction::Right);
    assert_eq!(snake.get_next_move(4, 4), (0, 1));
    snake.change_direction(Direction::Up);
    assert_eq!(snake, dead);
}

#[test]
fn change_direction_refuses_a_reversal() {
    let pairs = [
        (Direction::Up, Direction::Down),
        (Direction::Down, Direction::Up),
        (Direction::Left, Direction::Right),
        (Direction::Right, Direction::Left),
    ];
    for (heading, requested) in pairs {
        let mut snake = grown_snake();
        if heading == Direction::Left {
            snake.change_direction(Direction::Up);
        }
        snake.change_direction(heading);
        assert_eq!(snake.direction(), heading);
        let before = snake.clone();
        snake.change_direction(requested);
        assert_eq!(snake.direction(), heading);
        assert_eq!(snake, before);
    }
}

#[test]
fn change_direction_applies_any_other_turn() {
    let mut snake = grown_snake();
    assert_eq!(snake.direction(), Direction::Right);
    snake.change_direction(Direction::Right);
    assert_eq!(snake.direction(), Direction::Right);
    snake.change_direction(Direction::Up);
    assert_eq!(snake.direction(), Direction::Up);
    snake.change_direction(Direction::Left);
    assert_eq!(snake.direction(), Direction::Left);
    snake.change_direction(Direction::Down);
    assert_eq!(snake.direction(), Direction::Down);
    snake.change_direction(Direction::Right);
    assert_eq!(snake.direction(), Direction::Right);
    assert_eq!(snake.body(), &vec![0, 1]);
    assert_eq!(snake.get_next_move(4, 4), (0, 2));
}

#[test]
fn is_opposite_holds_of_the_two_pairs_only() {
    let all = [Direction::Left, Direction::Right, Direction::Up, Direction::Down];
    for one in all {
        for other in all {
            let reversed = matches!(
                (one, other),
                (Direction::Left, Direction::Right)
                    | (Direction::Right, Direction::Left)
                    | (Direction::Up, Direction::Down)
                    | (Direction::Down, Direction::Up)
            );
            assert_eq!(one.is_opposite(other), reversed);
        }
    }
}

#[test]
fn occupies_tells_the_cells_of_the_body() {
    let snake = grown_snake();
    assert!(snake.occupies(0));
    assert!(snake.occupies(1));
    assert!(!snake.occupies(2));
    assert!(!snake.occupies(7));
    assert!(!snake.occupies(u32::MAX));
}

#[test]
fn glyphs_of_the_cells() {
    assert_eq!(Cell::Empty.glyph_text(), "\u{25fb}");
    assert_eq!(Cell::Filled.glyph_text(), "\u{25fc}");
    assert_eq!(EMPTY_GLYPH, '\u{25fb}');
    assert_eq!(FILLED_GLYPH, '\u{25fc}');
    assert_eq!(Cell::Empty.glyph_text().chars().next(), Some(EMPTY_GLYPH));
    assert_eq!(Cell::Filled.glyph_text().chars().next(), Some(FILLED_GLYPH));
}

#[test]
fn the_snake_starts_on_the_origin() {
    assert_eq!(ORIGIN, 0);
    let universe = Universe::new(5, 5, 12).unwrap();
    assert_eq!(universe.snake().body(), &vec![ORIGIN]);
    assert_eq!(universe.cells()[ORIGIN as usize], Cell::Filled);
}
