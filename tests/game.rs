use snake::board::{contains_point, Board, Status};
use snake::food::{cell_from_random, MAX_ATTEMPTS};
use snake::geometry::{in_bounds, step, travel_direction, Direction, Point};
use snake::input::{get_next_move, Key};

fn pt(x: u32, y: u32) -> Point {
    Point { x, y }
}

fn board(xmax: u32, ymax: u32, snake: Vec<Point>, foods: Vec<Point>) -> Board {
    Board { xmax, ymax, snake, foods }
}

fn manhattan(a: Point, b: Point) -> u32 {
    a.x.abs_diff(b.x) + a.y.abs_diff(b.y)
}

fn assert_invariant(b: &Board) {
    assert!(b.snake.len() >= 2);
    for (i, p) in b.snake.iter().enumerate() {
        assert!(p.x < b.xmax && p.y < b.ymax);
        for q in &b.snake[i + 1..] {
            assert_ne!(p, q);
        }
        assert!(!b.foods.contains(p));
    }
    for w in b.snake.windows(2) {
        assert_eq!(manhattan(w[0], w[1]), 1);
    }
    for (i, f) in b.foods.iter().enumerate() {
        assert!(f.x < b.xmax && f.y < b.ymax);
        for g in &b.foods[i + 1..] {
            assert_ne!(f, g);
        }
    }
}

#[test]
fn step_applies_unit_offsets() {
    assert_eq!(step(pt(5, 7), Direction::Up), (5, 6));
    assert_eq!(step(pt(5, 7), Direction::Down), (5, 8));
    assert_eq!(step(pt(5, 7), Direction::Left), (4, 7));
    assert_eq!(step(pt(5, 7), Direction::Right), (6, 7));
    assert_eq!(step(pt(0, 0), Direction::Left), (-1, 0));
    assert_eq!(step(pt(0, 0), Direction::Up), (0, -1));
}

#[test]
fn in_bounds_checks_both_axes() {
    assert!(in_bounds(0, 0, 3, 4));
    assert!(in_bounds(2, 3, 3, 4));
    assert!(!in_bounds(3, 0, 3, 4));
    assert!(!in_bounds(0, 4, 3, 4));
    assert!(!in_bounds(-1, 0, 3, 4));
    assert!(!in_bounds(0, -1, 3, 4));
}

#[test]
fn travel_direction_follows_neck_to_head() {
    assert_eq!(travel_direction(pt(2, 2), pt(2, 3)), Direction::Down);
    assert_eq!(travel_direction(pt(2, 3), pt(2, 2)), Direction::Up);
    assert_eq!(travel_direction(pt(2, 2), pt(3, 2)), Direction::Right);
    assert_eq!(travel_direction(pt(3, 2), pt(2, 2)), Direction::Left);
}

#[test]
fn contains_point_compares_coordinates() {
    let cells = vec![pt(1, 2), pt(3, 4)];
    assert!(contains_point(&cells, pt(3, 4)));
    assert!(!contains_point(&cells, pt(4, 3)));
    assert!(!contains_point(&Vec::new(), pt(0, 0)));
}

#[test]
fn cell_from_random_reduces_modulo_size() {
    assert_eq!(cell_from_random(17, 23, 5, 7), pt(2, 2));
    assert_eq!(cell_from_random(4, 6, 5, 7), pt(4, 6));
    assert_eq!(cell_from_random(u32::MAX, 0, 10, 3), pt(5, 0));
}

#[test]
fn initialize_twenty_by_twenty() {
    // 400 / 150 = 2 items asked for, and the seeding places one less
    let b = Board::initialize(20, 20).unwrap();
    assert_eq!(b.xmax, 20);
    assert_eq!(b.ymax, 20);
    assert_eq!(b.snake, vec![pt(2, 3), pt(2, 2)]);
    assert_eq!(b.foods.len(), 1);
    assert_invariant(&b);
}

#[test]
fn initialize_food_counts() {
    assert_eq!(Board::initialize(10, 10).unwrap().foods.len(), 0);
    assert_eq!(Board::initialize(15, 10).unwrap().foods.len(), 0);
    assert_eq!(Board::initialize(30, 10).unwrap().foods.len(), 1);
    let big = Board::initialize(80, 24).unwrap();
    assert_eq!(big.foods.len(), 11);
    assert_invariant(&big);
}

#[test]
fn initialize_rejects_small_boards() {
    assert!(Board::initialize(2, 10).is_none());
    assert!(Board::initialize(10, 3).is_none());
    assert!(Board::initialize(0, 0).is_none());
    assert!(Board::initialize(3, 4).is_some());
}

#[test]
fn left_wall_ends_game_unchanged() {
    let mut b = board(10, 10, vec![pt(0, 5), pt(1, 5), pt(2, 5)], vec![pt(7, 7)]);
    assert_eq!(b.move_snake(Direction::Left), Status::GameOver);
    assert_eq!(b.snake, vec![pt(0, 5), pt(1, 5), pt(2, 5)]);
    assert_eq!(b.foods, vec![pt(7, 7)]);
}

#[test]
fn other_walls_end_game() {
    let mut top = board(10, 10, vec![pt(4, 0), pt(4, 1)], vec![]);
    assert_eq!(top.move_snake(Direction::Up), Status::GameOver);
    let mut right = board(10, 10, vec![pt(9, 4), pt(8, 4)], vec![]);
    assert_eq!(right.move_snake(Direction::Right), Status::GameOver);
    let mut bottom = board(10, 10, vec![pt(4, 9), pt(4, 8)], vec![]);
    assert_eq!(bottom.move_snake(Direction::Down), Status::GameOver);
    assert_eq!(bottom.snake, vec![pt(4, 9), pt(4, 8)]);
}

#[test]
fn running_into_own_body_ends_game() {
    // head (1, 0) going down lands on (1, 1), the third cell behind the head
    let cells = vec![pt(1, 0), pt(0, 0), pt(0, 1), pt(1, 1), pt(2, 1)];
    let mut b = board(10, 10, cells.clone(), vec![pt(5, 5)]);
    assert_eq!(b.move_snake(Direction::Down), Status::GameOver);
    assert_eq!(b.snake, cells);
    assert_eq!(b.foods, vec![pt(5, 5)]);
}

#[test]
fn running_into_own_tail_ends_game() {
    let cells = vec![pt(1, 0), pt(0, 0), pt(0, 1), pt(1, 1)];
    let mut b = board(10, 10, cells.clone(), vec![]);
    assert_eq!(b.move_snake(Direction::Down), Status::GameOver);
    assert_eq!(b.snake, cells);
}

#[test]
fn plain_move_keeps_length() {
    let mut b = board(10, 10, vec![pt(3, 3), pt(3, 4), pt(3, 5)], vec![pt(8, 8)]);
    assert_eq!(b.move_snake(Direction::Right), Status::Continue);
    assert_eq!(b.snake, vec![pt(4, 3), pt(3, 3), pt(3, 4)]);
    assert_eq!(b.foods, vec![pt(8, 8)]);
    assert_invariant(&b);
}

#[test]
fn eating_grows_and_replaces_food() {
    let mut b = board(10, 10, vec![pt(3, 3), pt(3, 4)], vec![pt(3, 2), pt(8, 8)]);
    assert_eq!(b.move_snake(Direction::Up), Status::Continue);
    assert_eq!(b.snake, vec![pt(3, 2), pt(3, 3), pt(3, 4)]);
    assert_eq!(b.foods.len(), 2);
    assert_eq!(b.foods[0], pt(8, 8));
    assert!(!b.foods.contains(&pt(3, 2)));
    assert_invariant(&b);
}

#[test]
fn eating_the_last_free_cell_leaves_no_food() {
    // a 3 by 4 board: ten snake cells, one food, one free cell
    let snake = vec![
        pt(0, 1),
        pt(0, 2),
        pt(0, 3),
        pt(1, 3),
        pt(2, 3),
        pt(2, 2),
        pt(1, 2),
        pt(1, 1),
        pt(2, 1),
        pt(2, 0),
    ];
    let mut b = board(3, 4, snake, vec![pt(0, 0)]);
    assert_eq!(b.move_snake(Direction::Up), Status::Continue);
    assert_eq!(b.snake.len(), 11);
    assert_eq!(b.foods, vec![pt(1, 0)]);
    assert_invariant(&b);
    // now every cell is taken
    assert_eq!(b.move_snake(Direction::Right), Status::Continue);
    assert_eq!(b.snake.len(), 12);
    assert!(b.foods.is_empty());
    assert!(b.place_food().is_none());
}

#[test]
fn reversal_is_ignored() {
    let cells = vec![pt(4, 4), pt(3, 4), pt(2, 4)];
    let mut reversed = board(10, 10, cells.clone(), vec![pt(9, 9)]);
    let mut straight = board(10, 10, cells, vec![pt(9, 9)]);
    let r1 = reversed.move_snake(Direction::Left);
    let r2 = straight.move_snake(Direction::Right);
    assert_eq!(r1, Status::Continue);
    assert_eq!(r1, r2);
    assert_eq!(reversed.snake, straight.snake);
    assert_eq!(reversed.snake, vec![pt(5, 4), pt(4, 4), pt(3, 4)]);
    assert_eq!(reversed.foods, straight.foods);
}

#[test]
fn reversal_at_wall_ends_game() {
    let cells = vec![pt(9, 4), pt(8, 4)];
    let mut b = board(10, 10, cells.clone(), vec![]);
    assert_eq!(b.move_snake(Direction::Left), Status::GameOver);
    assert_eq!(b.snake, cells);
}

#[test]
fn place_food_finds_the_only_free_cell() {
    // a 3 by 4 board with every cell but (1, 0) taken
    let snake = vec![
        pt(0, 0),
        pt(0, 1),
        pt(0, 2),
        pt(0, 3),
        pt(1, 3),
        pt(2, 3),
        pt(2, 2),
        pt(1, 2),
        pt(1, 1),
        pt(2, 1),
    ];
    let b = board(3, 4, snake, vec![pt(2, 0)]);
    for _ in 0..20 {
        assert_eq!(b.place_food(), Some(pt(1, 0)));
    }
    assert_eq!(b.first_free_cell(), Some(pt(1, 0)));
}

#[test]
fn first_free_cell_scans_rows() {
    let b = board(4, 4, vec![pt(0, 0), pt(1, 0)], vec![pt(2, 0)]);
    assert_eq!(b.first_free_cell(), Some(pt(3, 0)));
    assert!(b.is_free_cell(pt(3, 0)));
    assert!(!b.is_free_cell(pt(2, 0)));
    assert!(!b.is_free_cell(pt(1, 0)));
    assert!(!b.is_free_cell(pt(4, 0)));
}

#[test]
fn add_new_food_places_on_free_cell() {
    let mut b = board(5, 5, vec![pt(0, 0), pt(1, 0)], vec![pt(4, 4)]);
    for n in 2..24 {
        b.add_new_food();
        assert_eq!(b.foods.len(), n);
        assert_invariant(&b);
    }
    b.add_new_food();
    assert_eq!(b.foods.len(), 23);
    assert_invariant(&b);
    b.add_new_food();
    assert_eq!(b.foods.len(), 23);
}

#[test]
fn create_random_cell_stays_on_board() {
    let b = board(7, 3, vec![pt(0, 0), pt(1, 0)], vec![]);
    for _ in 0..200 {
        let p = b.create_random_cell();
        assert!(p.x < 7 && p.y < 3);
    }
    assert!(MAX_ATTEMPTS > 0);
}

#[test]
fn next_move_reports_leaving_the_board() {
    let b = board(10, 10, vec![pt(0, 0), pt(1, 0)], vec![]);
    assert_eq!(b.next_move(Direction::Left), Err(()));
    assert_eq!(b.next_move(Direction::Up), Err(()));
    assert_eq!(b.next_move(Direction::Down), Ok(pt(0, 1)));
    assert_eq!(b.next_move(Direction::Right), Ok(pt(1, 0)));
}

#[test]
fn long_run_keeps_invariant() {
    let mut b = Board::initialize(30, 20).unwrap();
    let turns = [Direction::Right, Direction::Down, Direction::Left, Direction::Down];
    let mut dir = Direction::Down;
    let mut ticks = 0;
    let mut t = 0;
    while ticks < 500 {
        if ticks % 7 == 0 {
            dir = turns[t % turns.len()];
            t += 1;
        }
        let before = b.snake.len();
        let foods_before = b.foods.len();
        match b.move_snake(dir) {
            Status::GameOver => break,
            Status::Continue => {
                assert!(b.snake.len() == before || b.snake.len() == before + 1);
                assert_eq!(b.foods.len(), foods_before);
                assert_invariant(&b);
            }
        }
        ticks += 1;
    }
    assert!(ticks > 0);
}

#[test]
fn keys_choose_direction() {
    assert_eq!(get_next_move(Some(Key::Up), Direction::Right), Direction::Up);
    assert_eq!(get_next_move(Some(Key::Down), Direction::Left), Direction::Down);
    assert_eq!(get_next_move(Some(Key::Left), Direction::Up), Direction::Left);
    assert_eq!(get_next_move(Some(Key::Right), Direction::Right), Direction::Right);
}

#[test]
fn keys_ignore_reversal_and_other_input() {
    assert_eq!(get_next_move(Some(Key::Left), Direction::Right), Direction::Right);
    assert_eq!(get_next_move(Some(Key::Right), Direction::Left), Direction::Left);
    assert_eq!(get_next_move(Some(Key::Up), Direction::Down), Direction::Down);
    assert_eq!(get_next_move(Some(Key::Down), Direction::Up), Direction::Up);
    assert_eq!(get_next_move(Some(Key::Other), Direction::Up), Direction::Up);
    assert_eq!(get_next_move(None, Direction::Left), Direction::Left);
}
