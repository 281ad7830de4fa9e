use snake_demo::grid::Direction;
use snake_demo::snake::{init_snake, move_snakes, remove_snake, turn_snake, Snake};

fn snake(positions: Vec<(u16, u16)>, direction: Direction, snake_id: u8) -> Snake {
    Snake { positions, direction, snake_id }
}

#[test]
fn a_new_snake_is_five_cells_on_the_start_cell_facing_right() {
    let s = Snake::new(7);
    assert_eq!(s.positions, vec![(5, 5); 5]);
    assert_eq!(s.direction, Direction::Right);
    assert_eq!(s.snake_id, 7);
}

#[test]
fn init_snake_appends_a_new_snake() {
    let mut snakes = vec![snake(vec![(1, 1)], Direction::Up, 3)];
    init_snake(&mut snakes, 4);
    assert_eq!(snakes.len(), 2);
    assert_eq!(snakes[0], snake(vec![(1, 1)], Direction::Up, 3));
    assert_eq!(snakes[1], snake(vec![(5, 5); 5], Direction::Right, 4));
}

#[test]
fn advance_puts_a_new_head_and_drops_the_tail() {
    let mut s = snake(vec![(3, 3), (2, 3), (1, 3)], Direction::Right, 0);
    s.advance(16);
    assert_eq!(s.positions, vec![(4, 3), (3, 3), (2, 3)]);
    assert_eq!(s.direction, Direction::Right);
}

#[test]
fn advance_wraps_on_every_edge() {
    let mut up = snake(vec![(0, 0), (0, 1)], Direction::Up, 0);
    up.advance(16);
    assert_eq!(up.positions, vec![(0, 31), (0, 0)]);
    let mut left = snake(vec![(0, 0), (1, 0)], Direction::Left, 0);
    left.advance(16);
    assert_eq!(left.positions, vec![(31, 0), (0, 0)]);
    let mut down = snake(vec![(31, 31), (31, 30)], Direction::Down, 0);
    down.advance(16);
    assert_eq!(down.positions, vec![(31, 0), (31, 31)]);
    let mut right = snake(vec![(31, 31), (30, 31)], Direction::Right, 0);
    right.advance(16);
    assert_eq!(right.positions, vec![(0, 31), (31, 31)]);
}

#[test]
fn advance_uses_the_grid_of_the_given_cell_size() {
    let mut s = snake(vec![(7, 2)], Direction::Right, 0);
    s.advance(64);
    assert_eq!(s.positions, vec![(0, 2)]);
    let mut t = snake(vec![(5, 5)], Direction::Right, 0);
    t.advance(128);
    assert_eq!(t.positions, vec![(2, 5)]);
}

#[test]
fn there_and_back_returns_to_the_start_and_stays_on_the_grid() {
    let dirs = [Direction::Up, Direction::Down, Direction::Left, Direction::Right];
    for grid_size in [1u16, 2, 4, 8, 16, 32, 64, 128, 256, 512] {
        let n = 512 / grid_size;
        for dir in dirs {
            for start in [(0u16, 0u16), (n - 1, n - 1), (0, n - 1), (n / 2, n / 3)] {
                let there = snake_demo::grid::next_head(start, dir, grid_size);
                assert!(there.0 < n && there.1 < n);
                let back = snake_demo::grid::next_head(there, dir.opposite(), grid_size);
                assert_eq!(back, start);
            }
        }
    }
}

#[test]
fn grow_doubles_the_tail_cell() {
    let mut s = snake(vec![(3, 3), (2, 3), (1, 3)], Direction::Right, 0);
    s.grow();
    assert_eq!(s.positions, vec![(3, 3), (2, 3), (1, 3), (1, 3)]);
}

#[test]
fn bites_itself_looks_at_the_body_only() {
    assert!(!snake(vec![(3, 3)], Direction::Up, 0).bites_itself());
    assert!(!snake(vec![(3, 3), (2, 3), (1, 3)], Direction::Up, 0).bites_itself());
    assert!(snake(vec![(3, 3), (2, 3), (3, 3)], Direction::Up, 0).bites_itself());
    assert!(snake(vec![(5, 5); 5], Direction::Right, 0).bites_itself());
}

#[test]
fn occupies_looks_at_every_segment() {
    let s = snake(vec![(3, 3), (2, 3), (1, 3)], Direction::Up, 0);
    assert!(s.occupies((3, 3)));
    assert!(s.occupies((1, 3)));
    assert!(!s.occupies((3, 1)));
    assert!(!s.occupies((0, 0)));
}

#[test]
fn duplicate_gives_an_equal_snake() {
    let s = snake(vec![(3, 3), (2, 3), (1, 3)], Direction::Left, 9);
    assert_eq!(s.duplicate(), s);
}

#[test]
fn move_snakes_moves_each_snake_in_its_own_direction() {
    let mut snakes = vec![
        snake(vec![(5, 5), (4, 5)], Direction::Right, 0),
        snake(vec![(0, 0), (0, 1)], Direction::Up, 1),
        snake(vec![(9, 9)], Direction::Down, 2),
    ];
    move_snakes(&mut snakes, 16);
    assert_eq!(snakes[0].positions, vec![(6, 5), (5, 5)]);
    assert_eq!(snakes[1].positions, vec![(0, 31), (0, 0)]);
    assert_eq!(snakes[2].positions, vec![(9, 10)]);
}

#[test]
fn remove_snake_drops_the_snake_with_the_identifier() {
    let mut snakes = vec![
        snake(vec![(1, 1)], Direction::Right, 0),
        snake(vec![(2, 2)], Direction::Up, 1),
        snake(vec![(3, 3)], Direction::Down, 2),
    ];
    remove_snake(&mut snakes, 1);
    assert_eq!(snakes.len(), 2);
    assert_eq!(snakes[0].snake_id, 0);
    assert_eq!(snakes[1].snake_id, 2);
    remove_snake(&mut snakes, 9);
    assert_eq!(snakes.len(), 2);
}

#[test]
fn turn_snake_turns_the_first_snake_with_the_identifier() {
    let mut snakes = vec![
        snake(vec![(1, 1)], Direction::Right, 0),
        snake(vec![(2, 2)], Direction::Up, 1),
    ];
    turn_snake(&mut snakes, 1, Direction::Left);
    assert_eq!(snakes[0].direction, Direction::Right);
    assert_eq!(snakes[1].direction, Direction::Left);
    turn_snake(&mut snakes, 1, Direction::Right);
    assert_eq!(snakes[1].direction, Direction::Left);
    turn_snake(&mut snakes, 0, Direction::Right);
    assert_eq!(snakes[0].direction, Direction::Right);
    turn_snake(&mut snakes, 5, Direction::Down);
    assert_eq!(snakes[0].direction, Direction::Right);
    assert_eq!(snakes[1].direction, Direction::Left);
}
