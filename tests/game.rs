use snak::{Coord, Direction, Game, GameState, Snake, TickOutcome};

fn c(x: i32, y: i32) -> Coord {
    Coord::new(x, y)
}

fn game_with(
    history: Vec<Coord>,
    length: usize,
    score: u64,
    current: Direction,
    apple: Coord,
) -> Game {
    Game {
        snake: Snake {
            current_direction: current,
            queued_direction: Direction::Still,
            length,
            history,
        },
        apple: Some(apple),
        score,
        state: GameState::Playing,
    }
}

fn assert_fresh(g: &Game) {
    assert_eq!(g.state, GameState::Playing);
    assert_eq!(g.score, 0);
    assert_eq!(g.snake.length, 1);
    assert_eq!(g.snake.history, vec![c(0, 0)]);
    assert_eq!(g.snake.current_direction, Direction::Still);
    assert_eq!(g.snake.queued_direction, Direction::Still);
    let a = g.apple.expect("a fresh round has an apple");
    assert!(a.in_field());
    assert_ne!(a, c(0, 0));
}

#[test]
fn new_game_is_fresh() {
    for _ in 0..50 {
        assert_fresh(&Game::new());
    }
}

#[test]
fn one_tick_up_from_start_trims_to_head() {
    let mut g = game_with(vec![c(0, 0)], 1, 0, Direction::Still, c(5, 5));
    g.queue_direction(Direction::Up);
    assert_eq!(g.snake.queued_direction, Direction::Up);
    assert_eq!(g.tick(), TickOutcome::Moved);
    assert_eq!(g.head(), c(0, 1));
    assert_eq!(g.snake.history, vec![c(0, 1)]);
    assert_eq!(g.snake.length, 1);
    assert_eq!(g.snake.current_direction, Direction::Up);
    assert_eq!(g.snake.queued_direction, Direction::Still);
}

#[test]
fn still_snake_does_not_move() {
    let mut g = game_with(vec![c(0, 0)], 1, 0, Direction::Still, c(5, 5));
    for _ in 0..5 {
        assert_eq!(g.tick(), TickOutcome::Moved);
        assert_eq!(g.snake.history, vec![c(0, 0)]);
    }
}

#[test]
fn eating_grows_scores_and_moves_apple() {
    let mut g = game_with(vec![c(0, 0), c(1, 0)], 2, 0, Direction::Right, c(2, 0));
    assert_eq!(g.tick(), TickOutcome::Ate);
    assert_eq!(g.snake.history, vec![c(1, 0), c(2, 0)]);
    assert_eq!(g.snake.length, 3);
    assert_eq!(g.score, 1);
    let a = g.apple.unwrap();
    assert!(a.in_field());
    assert!(!g.snake.history.contains(&a));
    // growth shows on the next tick: nothing is trimmed
    g.apple = Some(c(-5, -5));
    assert_eq!(g.tick(), TickOutcome::Moved);
    assert_eq!(g.snake.history, vec![c(1, 0), c(2, 0), c(3, 0)]);
}

#[test]
fn leaving_field_ends_round_with_history_kept() {
    let mut g = game_with(vec![c(9, 0), c(10, 0)], 2, 1, Direction::Right, c(0, 5));
    assert_eq!(g.tick(), TickOutcome::OutOfBounds);
    assert_eq!(g.state, GameState::GameOver);
    assert_eq!(g.snake.history, vec![c(9, 0), c(10, 0)]);
    assert_eq!(g.score, 1);
    assert_eq!(g.snake.length, 2);
}

#[test]
fn leaving_field_on_each_side() {
    let cases = [
        (c(-10, 3), Direction::Left),
        (c(4, 7), Direction::Up),
        (c(-2, -7), Direction::Down),
    ];
    for (h, d) in cases {
        let mut g = game_with(vec![h], 1, 0, d, c(0, 0));
        assert_eq!(g.tick(), TickOutcome::OutOfBounds);
        assert_eq!(g.state, GameState::GameOver);
        assert_eq!(g.snake.history, vec![h]);
    }
}

#[test]
fn k_eats_from_fresh_game() {
    let mut g = Game::new();
    g.queue_direction(Direction::Right);
    for k in 1..=4u64 {
        let next = c(g.head().x + 1, 0);
        g.apple = Some(next);
        assert_eq!(g.tick(), TickOutcome::Ate);
        assert_eq!(g.score, k);
        assert_eq!(g.snake.length as u64, 1 + k);
        assert!(!g.snake.history.contains(&g.apple.unwrap()));
    }
    g.apple = Some(c(-9, -6));
    for _ in 0..3 {
        assert_eq!(g.tick(), TickOutcome::Moved);
        assert!(g.snake.history.len() <= g.snake.length);
    }
    assert_eq!(g.snake.history.len(), 5);
    assert_eq!(g.score, 4);
}

#[test]
fn history_never_exceeds_length_and_head_moves_one_cell() {
    let mut g = game_with(vec![c(-3, -3)], 3, 2, Direction::Still, c(9, 6));
    let turns = [Direction::Up, Direction::Right, Direction::Down, Direction::Right, Direction::Up];
    for d in turns {
        for _ in 0..2 {
            g.queue_direction(d);
            let before = g.head();
            assert_eq!(g.tick(), TickOutcome::Moved);
            let after = g.head();
            assert_eq!((after.x - before.x).abs() + (after.y - before.y).abs(), 1);
            assert!(g.snake.history.len() <= g.snake.length);
        }
    }
    assert_eq!(g.snake.history, vec![c(1, -3), c(1, -2), c(1, -1)]);
}

#[test]
fn reversal_is_rejected() {
    let mut g = game_with(vec![c(0, 0), c(0, 1)], 2, 1, Direction::Up, c(5, 5));
    g.queue_direction(Direction::Down);
    assert_eq!(g.snake.queued_direction, Direction::Still);
    assert_eq!(g.tick(), TickOutcome::Moved);
    assert_eq!(g.head(), c(0, 2));
    assert_eq!(g.snake.current_direction, Direction::Up);
}

#[test]
fn reversal_of_pending_turn_is_rejected_and_later_turn_overwrites() {
    let mut g = game_with(vec![c(0, 0), c(1, 0)], 2, 1, Direction::Right, c(5, 5));
    g.queue_direction(Direction::Up);
    g.queue_direction(Direction::Down);
    assert_eq!(g.snake.queued_direction, Direction::Up);
    g.queue_direction(Direction::Right);
    assert_eq!(g.snake.queued_direction, Direction::Right);
    assert_eq!(g.tick(), TickOutcome::Moved);
    assert_eq!(g.head(), c(2, 0));
}

#[test]
fn self_collision_detected() {
    let mut g = game_with(
        vec![c(0, 0), c(1, 0), c(1, 1), c(0, 1)],
        5,
        4,
        Direction::Left,
        c(5, 5),
    );
    g.queue_direction(Direction::Down);
    assert_eq!(g.tick(), TickOutcome::SelfCollision);
    assert_eq!(g.state, GameState::GameOver);
    assert_eq!(g.snake.history, vec![c(0, 0), c(1, 0), c(1, 1), c(0, 1), c(0, 0)]);
}

#[test]
fn tail_moving_away_is_no_collision() {
    let mut g = game_with(
        vec![c(0, 0), c(1, 0), c(1, 1), c(0, 1)],
        4,
        3,
        Direction::Left,
        c(5, 5),
    );
    g.queue_direction(Direction::Down);
    assert_eq!(g.tick(), TickOutcome::Moved);
    assert_eq!(g.snake.history, vec![c(1, 0), c(1, 1), c(0, 1), c(0, 0)]);
}

#[test]
fn pause_freezes_and_resumes() {
    let mut g = game_with(vec![c(0, 0), c(1, 0)], 2, 1, Direction::Right, c(5, 5));
    g.toggle_pause();
    assert_eq!(g.state, GameState::Paused);
    for _ in 0..7 {
        assert_eq!(g.tick(), TickOutcome::Idle);
        g.queue_direction(Direction::Up);
    }
    assert_eq!(g.snake.history, vec![c(0, 0), c(1, 0)]);
    assert_eq!(g.snake.length, 2);
    assert_eq!(g.score, 1);
    assert_eq!(g.snake.queued_direction, Direction::Still);
    assert_eq!(g.apple, Some(c(5, 5)));
    g.toggle_pause();
    assert_eq!(g.state, GameState::Playing);
    assert_eq!(g.tick(), TickOutcome::Moved);
    assert_eq!(g.snake.history, vec![c(1, 0), c(2, 0)]);
}

#[test]
fn restart_only_from_game_over() {
    let mut g = game_with(vec![c(9, 0), c(10, 0)], 3, 2, Direction::Right, c(0, 5));
    assert!(!g.restart());
    assert_eq!(g.score, 2);
    g.toggle_pause();
    assert!(!g.restart());
    assert_eq!(g.state, GameState::Paused);
    g.toggle_pause();
    assert_eq!(g.tick(), TickOutcome::OutOfBounds);
    g.toggle_pause();
    assert_eq!(g.state, GameState::GameOver);
    assert_eq!(g.tick(), TickOutcome::Idle);
    assert!(g.restart());
    assert_fresh(&g);
}

/// Cells of the field in a serpentine order, each next to the one before.
fn serpentine() -> Vec<Coord> {
    let mut cells = Vec::new();
    for x in -10..=10 {
        if (x + 10) % 2 == 0 {
            for y in -7..=7 {
                cells.push(c(x, y));
            }
        } else {
            for y in (-7..=7).rev() {
                cells.push(c(x, y));
            }
        }
    }
    cells
}

#[test]
fn filling_the_board_ends_the_round() {
    let mut cells = serpentine();
    assert_eq!(cells.len(), 315);
    let last = cells.pop().unwrap();
    let before_last = *cells.last().unwrap();
    assert_eq!(before_last.x, last.x);
    let d = if last.y > before_last.y { Direction::Up } else { Direction::Down };
    let mut g = game_with(cells, 315, 300, d, last);
    assert_eq!(g.tick(), TickOutcome::BoardFull);
    assert_eq!(g.state, GameState::GameOver);
    assert_eq!(g.apple, None);
    assert_eq!(g.snake.length, 316);
    assert_eq!(g.score, 301);
    assert_eq!(g.snake.history.len(), 315);
    assert!(g.restart());
    assert_fresh(&g);
}

#[test]
fn nearly_full_board_places_apple_on_last_free_cell() {
    let mut cells = serpentine();
    let spare = cells.pop().unwrap();
    let last = cells.pop().unwrap();
    let before_last = *cells.last().unwrap();
    let d = if last.y > before_last.y { Direction::Up } else { Direction::Down };
    let mut g = game_with(cells, 314, 300, d, last);
    assert_eq!(g.tick(), TickOutcome::Ate);
    assert_eq!(g.apple, Some(spare));
}
