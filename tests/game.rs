use snake::board::Cell;
use snake::coordinates::{Coordinates, SnakeDirection};
use snake::difficulty::GameDifficulty;
use snake::game::SnakeGame;

fn count(game: &SnakeGame, kind: Cell) -> usize {
    let mut n = 0;
    for col in game.board.iter() {
        for c in col.iter() {
            if *c == kind {
                n += 1;
            }
        }
    }
    n
}

fn push_all(game: &mut SnakeGame, keys: &[u8]) {
    for k in keys {
        game.add_to_input_buffer(*k);
    }
}

#[test]
fn speeds_follow_the_difficulty_table() {
    assert_eq!(GameDifficulty::Easy.get_speed(), 500);
    assert_eq!(GameDifficulty::Medium.get_speed(), 250);
    assert_eq!(GameDifficulty::Hard.get_speed(), 166);
    assert_eq!(GameDifficulty::Extreme.get_speed(), 125);
    assert_eq!(GameDifficulty::Impossible.get_speed(), 100);
}

#[test]
fn coordinates_move_by_one() {
    let mut c = Coordinates::new(3, 7);
    c.move_left();
    assert_eq!(c, Coordinates::new(2, 7));
    c.move_right();
    c.move_right();
    assert_eq!(c, Coordinates::new(4, 7));
    c.move_up();
    assert_eq!(c, Coordinates::new(4, 6));
    c.move_down();
    c.move_down();
    assert_eq!(c, Coordinates::new(4, 8));
    let o = Coordinates::new(0, 0);
    assert_eq!(o.get_left(), Coordinates::new(-1, 0));
    assert_eq!(o.get_right(), Coordinates::new(1, 0));
    assert_eq!(o.get_up(), Coordinates::new(0, -1));
    assert_eq!(o.get_down(), Coordinates::new(0, 1));
    assert_eq!(o, Coordinates::new(0, 0));
}

#[test]
fn a_new_game_has_the_opening_layout() {
    let game = SnakeGame::new(Coordinates::new(10, 10));
    assert_eq!(game.difficulty, GameDifficulty::Medium);
    assert_eq!(game.snake_head_position, Coordinates::new(6, 5));
    let body: Vec<Coordinates> = game.snake_body.iter().copied().collect();
    assert_eq!(
        body,
        vec![
            Coordinates::new(6, 5),
            Coordinates::new(5, 5),
            Coordinates::new(4, 5),
            Coordinates::new(3, 5)
        ]
    );
    assert_eq!(game.food_position, Coordinates::new(8, 5));
    assert_eq!(game.board[8][5], Cell::Food);
    assert_eq!(game.snake_direction, SnakeDirection::Right);
    assert_eq!(game.points, 0);
    assert_eq!(count(&game, Cell::SnakeBody), 4);
    assert_eq!(count(&game, Cell::Food), 1);
    assert_eq!(game.input_buffer.len(), 0);
    assert!(!game.is_over());
}

#[test]
fn difficulty_is_kept_and_food_is_halfway() {
    let game = SnakeGame::new_with_difficulty(Coordinates::new(20, 12), GameDifficulty::Impossible);
    assert_eq!(game.difficulty, GameDifficulty::Impossible);
    assert_eq!(game.food_position, Coordinates::new(13, 5));
    assert_eq!(game.board.len(), 20);
    assert_eq!(game.board[0].len(), 12);
}

#[test]
fn marked_squares_match_the_body_every_tick() {
    let mut game = SnakeGame::new(Coordinates::new(12, 12));
    let keys: [&[u8]; 6] = [
        &[27, 91, 66],
        &[],
        &[27, 91, 67],
        &[],
        &[27, 91, 65],
        &[27, 91, 68],
    ];
    for k in keys.iter() {
        push_all(&mut game, k);
        let over = game.tick();
        assert!(!over);
        assert_eq!(count(&game, Cell::SnakeBody), game.snake_body.len());
        assert_eq!(count(&game, Cell::Food), 1);
    }
}

#[test]
fn reversal_is_ignored_and_a_turn_is_taken() {
    let mut game = SnakeGame::new(Coordinates::new(10, 10));
    push_all(&mut game, &[27, 91, 68]);
    assert_eq!(game.get_direction_input(), SnakeDirection::Right);
    let mut game = SnakeGame::new(Coordinates::new(10, 10));
    push_all(&mut game, &[27, 91, 66]);
    assert_eq!(game.get_direction_input(), SnakeDirection::Down);
    game.tick();
    let mut game = SnakeGame::new(Coordinates::new(10, 10));
    push_all(&mut game, &[27, 91, 66]);
    game.tick();
    assert_eq!(game.snake_direction, SnakeDirection::Down);
    push_all(&mut game, &[27, 91, 65]);
    game.tick();
    assert_eq!(game.snake_direction, SnakeDirection::Down);
}

#[test]
fn stray_bytes_are_skipped_before_an_arrow() {
    let mut game = SnakeGame::new(Coordinates::new(10, 10));
    push_all(&mut game, &[91, 65, 27, 27, 91, 66, 65]);
    assert_eq!(game.input_buffer.len(), 7);
    assert_eq!(game.get_direction_input(), SnakeDirection::Down);
    // two skipped bytes, one of the first escape sequence and the escape byte of the match
    assert_eq!(game.input_buffer.len(), 3);
}

#[test]
fn eating_grows_the_snake_by_one() {
    let mut game = SnakeGame::new(Coordinates::new(10, 10));
    assert!(!game.tick());
    assert_eq!(game.points, 0);
    assert_eq!(game.snake_body.len(), 4);
    assert_eq!(game.board[3][5], Cell::Empty);
    // the head reaches the food at (8, 5)
    assert!(!game.tick());
    assert_eq!(game.snake_head_position, Coordinates::new(8, 5));
    assert_eq!(game.points, 1);
    assert_eq!(game.snake_body.len(), 5);
    assert_eq!(*game.snake_body.back().unwrap(), Coordinates::new(4, 5));
    assert_eq!(game.board[4][5], Cell::SnakeBody);
    assert_eq!(count(&game, Cell::SnakeBody), 5);
    assert_eq!(count(&game, Cell::Food), 1);
    let f = game.food_position;
    assert_eq!(game.board[f.x as usize][f.y as usize], Cell::Food);
    assert!(!game.snake_body.contains(&f));
}

#[test]
fn over_when_the_head_leaves_the_board() {
    let mut game = SnakeGame::new(Coordinates::new(10, 10));
    game.snake_head_position = Coordinates::new(-1, 5);
    assert!(game.is_over());
    game.snake_head_position = Coordinates::new(5, 10);
    assert!(game.is_over());
}

#[test]
fn over_when_the_head_meets_the_body() {
    let mut game = SnakeGame::new(Coordinates::new(10, 10));
    game.snake_head_position = Coordinates::new(4, 5);
    assert!(game.is_over());
    game.snake_head_position = Coordinates::new(6, 6);
    assert!(!game.is_over());
}

#[test]
fn over_when_the_board_is_full() {
    let mut game = SnakeGame::new(Coordinates::new(10, 10));
    game.points = 96;
    assert!(game.is_over());
    game.points = 95;
    assert!(!game.is_over());
}

#[test]
fn the_head_reaches_the_edge_then_leaves() {
    let mut game = SnakeGame::new(Coordinates::new(10, 10));
    assert!(!game.tick());
    assert_eq!(game.snake_head_position, Coordinates::new(7, 5));
    assert!(!game.tick());
    assert_eq!(game.snake_head_position, Coordinates::new(8, 5));
    assert!(!game.tick());
    assert_eq!(game.snake_head_position, Coordinates::new(9, 5));
    assert!(!game.is_over());
    assert!(game.tick());
    assert_eq!(game.snake_head_position, Coordinates::new(10, 5));
    assert!(game.is_over());
}

#[test]
fn up_arrow_turns_a_right_moving_snake() {
    let mut game = SnakeGame::new(Coordinates::new(10, 10));
    push_all(&mut game, &[27, 91, 65]);
    assert!(!game.tick());
    assert_eq!(game.snake_direction, SnakeDirection::Up);
    assert_eq!(game.snake_head_position, Coordinates::new(6, 4));
    // moving up, the same key is along the axis of travel
    while game.input_buffer.len() > 0 {
        game.input_buffer.pop_front();
    }
    push_all(&mut game, &[27, 91, 65]);
    assert_eq!(game.get_direction_input(), SnakeDirection::Up);
    assert_eq!(game.snake_direction, SnakeDirection::Up);
    assert_eq!(game.input_buffer.len(), 2);
}

#[test]
fn a_full_buffer_drops_the_next_byte() {
    let mut game = SnakeGame::new(Coordinates::new(10, 10));
    for _ in 0..1024 {
        game.add_to_input_buffer(27);
    }
    assert_eq!(game.input_buffer.len(), 1024);
    game.add_to_input_buffer(65);
    assert_eq!(game.input_buffer.len(), 1024);
    assert_eq!(*game.input_buffer.back().unwrap(), 27);
}

#[test]
fn other_keys_are_dropped() {
    let mut game = SnakeGame::new(Coordinates::new(10, 10));
    push_all(&mut game, &[1, 0, 97, 113, 255, 92, 64, 69]);
    assert_eq!(game.input_buffer.len(), 0);
    push_all(&mut game, &[27, 91, 65, 66, 67, 68]);
    assert_eq!(game.input_buffer.len(), 6);
}

#[test]
fn few_bytes_leave_the_direction() {
    let mut game = SnakeGame::new(Coordinates::new(10, 10));
    push_all(&mut game, &[27, 91]);
    assert_eq!(game.get_direction_input(), SnakeDirection::Right);
    assert_eq!(game.input_buffer.len(), 2);
    game.add_to_input_buffer(66);
    assert_eq!(game.get_direction_input(), SnakeDirection::Down);
}

#[test]
fn a_tick_is_due_after_the_interval() {
    assert!(!GameDifficulty::Medium.tick_due(249));
    assert!(GameDifficulty::Medium.tick_due(250));
    assert!(GameDifficulty::Easy.tick_due(501));
    assert!(!GameDifficulty::Impossible.tick_due(0));
}

#[test]
fn the_food_stays_put_until_eaten() {
    let mut game = SnakeGame::new(Coordinates::new(12, 12));
    push_all(&mut game, &[27, 91, 66]);
    assert!(!game.tick());
    assert!(!game.tick());
    assert_eq!(game.food_position, Coordinates::new(9, 5));
    assert_eq!(game.board[9][5], Cell::Food);
}
