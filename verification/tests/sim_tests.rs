use snake_demo::grid::Direction;
use snake_demo::registry::PlayerRegistry;
use snake_demo::sim::{bury_snakes, check_for_overlaps, feed_snakes, find_cell};
use snake_demo::snake::Snake;
use snake_demo::spawn::{cell_is_free, create_new_apple, place_apple};

fn name(s: &str) -> String {
    s.to_string()
}

fn snake(positions: Vec<(u16, u16)>, snake_id: u8) -> Snake {
    Snake { positions, direction: Direction::Right, snake_id }
}

#[test]
fn find_cell_gives_the_first_index() {
    let cells = vec![(1, 1), (2, 2), (1, 1)];
    assert_eq!(find_cell(&cells, (1, 1)), Some(0));
    assert_eq!(find_cell(&cells, (2, 2)), Some(1));
    assert_eq!(find_cell(&cells, (3, 3)), None);
}

#[test]
fn a_snake_on_an_apple_grows_by_one_and_the_apple_is_gone() {
    let mut snakes = vec![snake(vec![(6, 5), (5, 5), (4, 5)], 0)];
    let mut apples = vec![(9, 9), (6, 5)];
    feed_snakes(&mut snakes, &mut apples);
    assert_eq!(snakes[0].positions, vec![(6, 5), (5, 5), (4, 5), (4, 5)]);
    assert_eq!(apples, vec![(9, 9)]);
}

#[test]
fn a_snake_off_the_apples_stays_as_it_is() {
    let mut snakes = vec![snake(vec![(6, 5), (5, 5), (4, 5)], 0)];
    let mut apples = vec![(9, 9), (5, 5)];
    feed_snakes(&mut snakes, &mut apples);
    assert_eq!(snakes[0].positions, vec![(6, 5), (5, 5), (4, 5)]);
    assert_eq!(apples, vec![(9, 9), (5, 5)]);
}

#[test]
fn an_apple_under_two_heads_goes_to_the_earlier_snake() {
    let mut snakes = vec![snake(vec![(6, 5), (5, 5)], 0), snake(vec![(6, 5), (6, 6)], 1)];
    let mut apples = vec![(6, 5)];
    feed_snakes(&mut snakes, &mut apples);
    assert_eq!(snakes[0].positions.len(), 3);
    assert_eq!(snakes[1].positions.len(), 2);
    assert!(apples.is_empty());
}

#[test]
fn each_eaten_apple_lowers_the_count_by_one() {
    let mut snakes = vec![
        snake(vec![(1, 1), (1, 2)], 0),
        snake(vec![(2, 2), (2, 3)], 1),
        snake(vec![(3, 3), (3, 4)], 2),
    ];
    let mut apples = vec![(3, 3), (8, 8), (1, 1)];
    feed_snakes(&mut snakes, &mut apples);
    assert_eq!(apples, vec![(8, 8)]);
    assert_eq!(snakes[0].positions.len(), 3);
    assert_eq!(snakes[1].positions.len(), 2);
    assert_eq!(snakes[2].positions.len(), 3);
}

#[test]
fn a_snake_that_bites_itself_dies_and_its_owner_is_told() {
    let mut snakes = vec![
        snake(vec![(1, 1), (1, 2)], 0),
        snake(vec![(5, 5), (5, 6), (6, 6), (6, 5), (5, 5)], 1),
    ];
    let mut apples = vec![];
    let mut registry = PlayerRegistry::new();
    registry.insert(name("a"), 0);
    registry.insert(name("b"), 1);
    let mut leader = name("a");
    let died = check_for_overlaps(&mut snakes, &mut apples, &mut registry, &mut leader);
    assert_eq!(died, vec![name("b")]);
    assert_eq!(snakes.len(), 1);
    assert_eq!(snakes[0].snake_id, 0);
    assert_eq!(registry.len(), 1);
    assert!(!registry.contains_key(&name("b")));
    assert_eq!(registry.get(&name("a")), Some(0));
    assert_eq!(leader, name("a"));
}

#[test]
fn the_leader_is_cleared_when_its_snake_dies() {
    let mut snakes = vec![snake(vec![(5, 5), (5, 6), (5, 5)], 4)];
    let mut apples = vec![(0, 0)];
    let mut registry = PlayerRegistry::new();
    registry.insert(name("lead"), 4);
    let mut leader = name("lead");
    let died = check_for_overlaps(&mut snakes, &mut apples, &mut registry, &mut leader);
    assert_eq!(died, vec![name("lead")]);
    assert!(snakes.is_empty());
    assert_eq!(registry.len(), 0);
    assert_eq!(leader, "");
    assert_eq!(apples, vec![(0, 0)]);
}

#[test]
fn growing_does_not_save_a_snake() {
    let mut snakes = vec![snake(vec![(5, 5), (5, 6), (5, 5)], 0)];
    let mut apples = vec![(5, 5)];
    let mut registry = PlayerRegistry::new();
    registry.insert(name("a"), 0);
    let mut leader = String::new();
    let died = check_for_overlaps(&mut snakes, &mut apples, &mut registry, &mut leader);
    assert_eq!(died, vec![name("a")]);
    assert!(snakes.is_empty());
    assert!(apples.is_empty());
}

#[test]
fn a_snake_of_one_cell_that_eats_lies_on_its_new_tail_and_dies() {
    let mut snakes = vec![snake(vec![(2, 2)], 0)];
    let mut apples = vec![(2, 2)];
    let mut registry = PlayerRegistry::new();
    registry.insert(name("a"), 0);
    let mut leader = String::new();
    let died = check_for_overlaps(&mut snakes, &mut apples, &mut registry, &mut leader);
    assert_eq!(died, vec![name("a")]);
    assert!(snakes.is_empty());
}

#[test]
fn two_snakes_on_one_cell_do_not_collide() {
    let mut snakes = vec![snake(vec![(5, 5), (4, 5)], 0), snake(vec![(5, 5), (5, 6)], 1)];
    let mut apples = vec![];
    let mut registry = PlayerRegistry::new();
    registry.insert(name("a"), 0);
    registry.insert(name("b"), 1);
    let mut leader = String::new();
    let died = check_for_overlaps(&mut snakes, &mut apples, &mut registry, &mut leader);
    assert!(died.is_empty());
    assert_eq!(snakes.len(), 2);
    assert_eq!(registry.len(), 2);
}

#[test]
fn a_snake_without_an_owner_is_left_alone() {
    let mut snakes = vec![snake(vec![(5, 5), (5, 6), (5, 5)], 3)];
    let mut registry = PlayerRegistry::new();
    registry.insert(name("a"), 0);
    let mut leader = name("a");
    let died = bury_snakes(&mut snakes, &mut registry, &mut leader);
    assert!(died.is_empty());
    assert_eq!(snakes.len(), 1);
    assert_eq!(registry.len(), 1);
    assert_eq!(leader, name("a"));
}

#[test]
fn the_dead_are_told_in_the_order_of_their_snakes() {
    let mut snakes = vec![
        snake(vec![(1, 1), (1, 1)], 2),
        snake(vec![(3, 3), (3, 4)], 1),
        snake(vec![(2, 2), (2, 2)], 0),
    ];
    let mut registry = PlayerRegistry::new();
    registry.insert(name("zero"), 0);
    registry.insert(name("one"), 1);
    registry.insert(name("two"), 2);
    let mut leader = name("one");
    let died = bury_snakes(&mut snakes, &mut registry, &mut leader);
    assert_eq!(died, vec![name("two"), name("zero")]);
    assert_eq!(snakes.len(), 1);
    assert_eq!(snakes[0].snake_id, 1);
    assert_eq!(registry.len(), 1);
    assert_eq!(leader, name("one"));
}

#[test]
fn a_cell_is_free_when_no_snake_covers_it() {
    let snakes = vec![snake(vec![(1, 1), (1, 2)], 0), snake(vec![(4, 4)], 1)];
    assert!(cell_is_free(&snakes, (0, 0)));
    assert!(!cell_is_free(&snakes, (1, 2)));
    assert!(!cell_is_free(&snakes, (4, 4)));
    assert!(cell_is_free(&Vec::new(), (4, 4)));
}

#[test]
fn place_apple_reduces_the_draws_to_the_grid() {
    let snakes = vec![snake(vec![(1, 1), (1, 2)], 0)];
    let mut apples = vec![];
    assert_eq!(place_apple(&snakes, &mut apples, 16, 40, 65), Some((8, 1)));
    assert_eq!(apples, vec![(8, 1)]);
    assert_eq!(place_apple(&snakes, &mut apples, 16, 65535, 31), Some((31, 31)));
    assert_eq!(apples, vec![(8, 1), (31, 31)]);
}

#[test]
fn place_apple_refuses_a_covered_cell() {
    let snakes = vec![snake(vec![(1, 1), (1, 2)], 0)];
    let mut apples = vec![(7, 7)];
    assert_eq!(place_apple(&snakes, &mut apples, 16, 33, 34), None);
    assert_eq!(apples, vec![(7, 7)]);
}

#[test]
fn create_new_apple_places_one_apple_on_a_free_cell_of_the_grid() {
    let snakes = vec![snake(vec![(5, 5); 5], 0)];
    let mut apples = vec![];
    let placed = create_new_apple(&snakes, &mut apples, 16);
    assert_eq!(apples.len(), 1);
    assert_eq!(placed, Some(apples[0]));
    assert!(apples[0].0 < 32 && apples[0].1 < 32);
    assert!(cell_is_free(&snakes, apples[0]));
}

#[test]
fn create_new_apple_always_places_on_a_grid_that_no_snake_touches() {
    for grid_size in [1u16, 16, 100, 256, 512] {
        let cells = 512 / grid_size;
        let mut apples = vec![];
        let placed = create_new_apple(&Vec::new(), &mut apples, grid_size);
        assert_eq!(apples.len(), 1);
        assert_eq!(placed, Some(apples[0]));
        assert!(apples[0].0 < cells && apples[0].1 < cells);
    }
    let outside = vec![snake(vec![(32, 0), (0, 32), (40, 40)], 0)];
    let mut apples = vec![(3, 3)];
    let placed = create_new_apple(&outside, &mut apples, 16);
    assert_eq!(apples.len(), 2);
    assert_eq!(placed, Some(apples[1]));
    assert_eq!(apples[0], (3, 3));
}

#[test]
fn create_new_apple_gives_up_on_a_covered_grid() {
    let snakes = vec![snake(vec![(0, 0)], 0)];
    let mut apples = vec![];
    assert_eq!(create_new_apple(&snakes, &mut apples, 512), None);
    assert!(apples.is_empty());
}
