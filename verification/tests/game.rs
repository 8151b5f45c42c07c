use snake_game::{Direction, Position, SnakeGame};

fn snake_has_no_duplicates(game: &SnakeGame) -> bool {
    for i in 0..game.snake.len() {
        for j in 0..game.snake.len() {
            if i != j && game.snake[i] == game.snake[j] {
                return false;
            }
        }
    }
    true
}

fn all_in_bounds(game: &SnakeGame) -> bool {
    let mut ok = game.food.0 < game.width && game.food.1 < game.height;
    for &(x, y) in game.snake.iter() {
        ok = ok && x < game.width && y < game.height;
    }
    ok
}

fn food_off_snake(game: &SnakeGame) -> bool {
    !game.snake.contains(&game.food)
}

#[test]
fn test() {
    let game = SnakeGame::new(40, 40);
    println!("{:?}", game);
}

#[test]
fn initial_state_five_by_five() {
    let game = SnakeGame::new(5, 5);
    assert_eq!(game.width, 5);
    assert_eq!(game.height, 5);
    assert_eq!(game.snake, vec![(4, 2)]);
    assert_eq!(game.food, (2, 2));
    assert_eq!(game.direction, Direction::Left);
    assert_eq!(game.next_direction, Direction::Left);
    assert!(!game.lost);
    assert!(!game.won);
}

#[test]
fn initial_state_wide_and_flat() {
    let game = SnakeGame::new(7, 4);
    assert_eq!(game.snake, vec![(6, 2)]);
    assert_eq!(game.food, (2, 2));
    let game = SnakeGame::new(4, 1);
    assert_eq!(game.snake, vec![(3, 0)]);
    assert_eq!(game.food, (2, 0));
}

#[test]
fn first_tick_moves_head_left() {
    let mut game = SnakeGame::new(5, 5);
    game.tick();
    assert_eq!(game.snake, vec![(3, 2)]);
    assert_eq!(game.food, (2, 2));
    assert!(!game.lost);
}

#[test]
fn construction_rejects_degenerate_grids() {
    assert!(SnakeGame::try_new(0, 5).is_none());
    assert!(SnakeGame::try_new(5, 0).is_none());
    assert!(SnakeGame::try_new(0, 0).is_none());
    assert!(SnakeGame::try_new(1, 1).is_none());
    assert!(SnakeGame::try_new(usize::MAX, 2).is_none());
    let game = SnakeGame::try_new(1, 2).expect("a two-cell grid is enough");
    assert_eq!(game.snake, vec![(0, 1)]);
    assert!(SnakeGame::try_new(5, 5).is_some());
}

#[test]
fn losing_tick_preserves_the_last_state() {
    let mut game = SnakeGame::new(5, 1);
    // Heading left from (4, 0); food sits at (2, 0) and is eaten on the way.
    for _ in 0..4 {
        game.tick();
        assert!(!game.lost);
    }
    let snake_before = game.snake.clone();
    let food_before = game.food;
    // The head is at (0, 0): the next move leaves the grid.
    game.tick();
    assert!(game.lost);
    assert_eq!(game.snake, snake_before);
    assert_eq!(game.food, food_before);
    // Repeated ticks and intents change nothing once the game is lost.
    game.change_direction(Direction::Up);
    game.tick();
    game.tick();
    assert!(game.lost);
    assert_eq!(game.snake, snake_before);
    assert_eq!(game.food, food_before);
    assert_eq!(game.direction, Direction::Left);
}

#[test]
fn same_axis_intents_are_rejected() {
    let mut game = SnakeGame::new(5, 5);
    game.next_direction = Direction::Right;
    game.direction = Direction::Right;
    game.change_direction(Direction::Left);
    assert_eq!(game.next_direction, Direction::Right);
    game.change_direction(Direction::Right);
    assert_eq!(game.next_direction, Direction::Right);
    game.change_direction(Direction::Up);
    assert_eq!(game.next_direction, Direction::Up);
}

#[test]
fn reversal_is_rejected_from_every_direction() {
    let pairs = [
        (Direction::Up, Direction::Down),
        (Direction::Down, Direction::Up),
        (Direction::Left, Direction::Right),
        (Direction::Right, Direction::Left),
    ];
    for &(current, reversed) in pairs.iter() {
        let mut game = SnakeGame::new(5, 5);
        game.direction = current;
        game.next_direction = current;
        game.change_direction(reversed);
        assert_eq!(game.next_direction, current);
        game.change_direction(current);
        assert_eq!(game.next_direction, current);
    }
}

#[test]
fn intent_applies_only_on_the_following_tick() {
    let mut game = SnakeGame::new(5, 5);
    game.change_direction(Direction::Up);
    assert_eq!(game.direction, Direction::Left);
    assert_eq!(game.next_direction, Direction::Up);
    game.tick();
    // The tick itself still moved left; the intent governs from now on.
    assert_eq!(game.snake, vec![(3, 2)]);
    assert_eq!(game.direction, Direction::Up);
    game.tick();
    assert_eq!(game.snake, vec![(3, 1)]);
}

#[test]
fn eating_grows_by_one_and_replaces_the_food() {
    let mut game = SnakeGame::new(5, 5);
    game.tick();
    assert_eq!(game.snake.len(), 1);
    // The head reaches the food at (2, 2).
    game.tick();
    assert_eq!(game.snake.len(), 2);
    assert_eq!(game.snake[0], (2, 2));
    assert!(!game.lost);
    assert!(!game.won);
    // The food was placed anew: on the grid and off the snake.
    assert!(all_in_bounds(&game));
    assert!(food_off_snake(&game));
}

#[test]
fn invariants_hold_along_a_run() {
    let mut game = SnakeGame::new(6, 6);
    let turns = [
        Direction::Up,
        Direction::Right,
        Direction::Down,
        Direction::Left,
        Direction::Up,
        Direction::Right,
    ];
    let mut turn = 0;
    for step in 0..50 {
        if step % 3 == 0 {
            game.change_direction(turns[turn % turns.len()]);
            turn += 1;
        }
        let len_before = game.snake.len();
        game.tick();
        let len_after = game.snake.len();
        assert!(len_after == len_before || len_after == len_before + 1);
        assert!(snake_has_no_duplicates(&game));
        assert!(all_in_bounds(&game));
        if !game.lost && !game.won {
            assert!(food_off_snake(&game));
        }
    }
}

#[test]
fn self_collision_loses() {
    // A five-segment snake about to bite its own body.
    let snake: Vec<Position> = vec![(2, 2), (2, 3), (3, 3), (3, 2), (3, 1)];
    let mut game = SnakeGame::new(6, 6);
    game.snake = snake.clone();
    game.direction = Direction::Right;
    game.next_direction = Direction::Right;
    game.food = (0, 0);
    // Moving right from (2, 2) hits (3, 2), a body cell.
    game.tick();
    assert!(game.lost);
    assert_eq!(game.snake, snake);
    assert_eq!(game.food, (0, 0));
}

#[test]
fn filling_the_grid_wins_without_replacing_the_food() {
    let mut game = SnakeGame::new(2, 2);
    game.snake = vec![(0, 0), (0, 1), (1, 1)];
    game.food = (1, 0);
    game.direction = Direction::Right;
    game.next_direction = Direction::Right;
    // Eating the last free cell fills the grid: the game is won, the state
    // freezes, and no food placement is attempted.
    game.tick();
    assert!(game.won);
    assert!(!game.lost);
    assert_eq!(game.snake.len(), 4);
    assert_eq!(game.snake[0], (1, 0));
    assert_eq!(game.food, (1, 0));
    let snake_before = game.snake.clone();
    game.tick();
    assert!(game.won);
    assert_eq!(game.snake, snake_before);
    assert_eq!(game.food, (1, 0));
}

#[test]
fn moving_off_the_low_edge_loses() {
    let mut game = SnakeGame::new(5, 5);
    game.snake = vec![(2, 0)];
    game.food = (4, 4);
    game.direction = Direction::Up;
    game.next_direction = Direction::Up;
    game.tick();
    assert!(game.lost);
    assert_eq!(game.snake, vec![(2, 0)]);
}

#[test]
fn is_valid_matches_the_grid() {
    let game = SnakeGame::new(5, 3);
    assert!(game.is_valid((0, 0)));
    assert!(game.is_valid((4, 2)));
    assert!(!game.is_valid((5, 2)));
    assert!(!game.is_valid((4, 3)));
    assert!(!game.is_valid((5, 3)));
}
