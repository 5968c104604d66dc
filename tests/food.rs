use snake::board::{empty_board, Cell};
use snake::coordinates::Coordinates;
use snake::food::{
    empty_cells, magnitude_mod, take_draw, pick_empty_cell, pick_listed, random_below, sample_empty_cell,
    sample_square,
};

#[test]
fn random_numbers_stay_below_the_bound() {
    for n in [1, 2, 3, 7, 10, 1000, i32::MAX] {
        for _ in 0..200 {
            let r = random_below(n);
            assert!(0 <= r && r < n);
        }
    }
}

#[test]
fn random_numbers_cover_a_small_range() {
    let mut seen = [false; 4];
    for _ in 0..1000 {
        seen[random_below(4) as usize] = true;
    }
    assert!(seen.iter().all(|s| *s));
}

#[test]
fn every_free_square_is_listed() {
    let mut board = empty_board(10, 10);
    board[2][3] = Cell::SnakeBody;
    board[9][9] = Cell::Food;
    let free = empty_cells(&board, 10, 10);
    assert_eq!(free.len(), 98);
    assert!(!free.contains(&Coordinates::new(2, 3)));
    assert!(!free.contains(&Coordinates::new(9, 9)));
    assert_eq!(free[0], Coordinates::new(0, 0));
    assert_eq!(free[1], Coordinates::new(0, 1));
}

#[test]
fn a_crowded_board_gets_its_one_free_square() {
    let mut board = empty_board(10, 10);
    for col in board.iter_mut() {
        for c in col.iter_mut() {
            *c = Cell::SnakeBody;
        }
    }
    board[4][7] = Cell::Empty;
    for _ in 0..20 {
        assert_eq!(pick_empty_cell(&board, 10, 10, 99), Coordinates::new(4, 7));
    }
}

#[test]
fn a_sparse_board_gets_a_free_square() {
    let mut board = empty_board(10, 10);
    board[1][1] = Cell::SnakeBody;
    for _ in 0..100 {
        let c = pick_empty_cell(&board, 10, 10, 1);
        assert!(c != Coordinates::new(1, 1));
        assert!(0 <= c.x && c.x < 10 && 0 <= c.y && c.y < 10);
        assert_eq!(board[c.x as usize][c.y as usize], Cell::Empty);
    }
}

#[test]
fn sampling_finds_nothing_on_a_full_board() {
    let mut board = empty_board(10, 10);
    for col in board.iter_mut() {
        for c in col.iter_mut() {
            *c = Cell::SnakeBody;
        }
    }
    assert_eq!(sample_empty_cell(&board, 10, 10), None);
}

#[test]
fn magnitude_modulo_is_exact() {
    assert_eq!(magnitude_mod(13, 5), 3);
    assert_eq!(magnitude_mod(-13, 5), 3);
    assert_eq!(magnitude_mod(0, 9), 0);
    assert_eq!(magnitude_mod(i32::MAX, 10), 7);
    assert_eq!(magnitude_mod(-i32::MAX, 10), 7);
    assert_eq!(magnitude_mod(i32::MIN, 7), 2);
    assert_eq!(magnitude_mod(i32::MIN, 3), 2);
    assert_eq!(magnitude_mod(i32::MIN, 2), 0);
    assert_eq!(magnitude_mod(i32::MIN, 10), 8);
}

#[test]
fn drawn_numbers_name_a_square() {
    assert_eq!(sample_square(23, -47, 10, 12), Coordinates::new(3, 11));
    assert_eq!(sample_square(-5, 5, 10, 10), Coordinates::new(5, 5));
}

#[test]
fn the_listed_square_follows_the_drawn_number() {
    let mut board = empty_board(10, 10);
    for col in board.iter_mut() {
        for c in col.iter_mut() {
            *c = Cell::SnakeBody;
        }
    }
    board[4][7] = Cell::Empty;
    board[2][3] = Cell::Empty;
    assert_eq!(
        empty_cells(&board, 10, 10),
        vec![Coordinates::new(2, 3), Coordinates::new(4, 7)]
    );
    assert_eq!(pick_listed(&board, 10, 10, 4), Coordinates::new(2, 3));
    assert_eq!(pick_listed(&board, 10, 10, -3), Coordinates::new(4, 7));
    assert_eq!(pick_listed(&board, 10, 10, i32::MIN), Coordinates::new(2, 3));
}

#[test]
fn sampling_an_empty_board_always_succeeds() {
    let board = empty_board(10, 10);
    for _ in 0..100 {
        let c = sample_empty_cell(&board, 10, 10).unwrap();
        assert!(0 <= c.x && c.x < 10 && 0 <= c.y && c.y < 10);
    }
}

#[test]
fn a_draw_is_taken_only_on_a_free_square() {
    let mut board = empty_board(10, 10);
    board[3][4] = Cell::SnakeBody;
    assert_eq!(take_draw(&board, 10, 10, 13, -24), None);
    assert_eq!(take_draw(&board, 10, 10, -13, 25), Some(Coordinates::new(3, 5)));
}
