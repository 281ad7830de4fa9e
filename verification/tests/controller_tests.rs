use snake_demo::controller::SnakeController;
use snake_demo::grid::Direction;
use snake_demo::messages::{ChannelEvent, Outgoing, PlayerMessage, SnakeChannelMessage};
use snake_demo::encode::encode_player_message;

fn name(s: &str) -> String {
    s.to_string()
}

fn data(user: &str, m: PlayerMessage) -> ChannelEvent {
    ChannelEvent::Data(name(user), encode_player_message(m))
}

fn send(user: &str, message: SnakeChannelMessage) -> Outgoing {
    Outgoing::Send { user: name(user), message }
}

fn joined(users: &[&str]) -> SnakeController {
    let mut c = SnakeController::new();
    for u in users {
        c.handle(ChannelEvent::Connect(name(u)));
        c.handle(data(u, PlayerMessage::JoinGame));
    }
    c
}

#[test]
fn a_new_controller_is_empty() {
    let c = SnakeController::new();
    assert_eq!(c.session().grid_size, 16);
    assert!(c.session().snakes.is_empty());
    assert!(c.session().apples.is_empty());
    assert_eq!(c.registry().len(), 0);
    assert_eq!(c.connected().len(), 0);
    assert_eq!(c.leader(), "");
    assert_eq!(c.next_id(), 0);
}

#[test]
fn the_first_user_to_connect_leads() {
    let mut c = SnakeController::new();
    let (out, running) = c.handle(ChannelEvent::Connect(name("bob")));
    assert!(out.is_empty());
    assert!(running);
    assert_eq!(c.leader(), "bob");
    c.handle(ChannelEvent::Connect(name("alice")));
    assert_eq!(c.leader(), "bob");
    assert_eq!(c.connected().len(), 2);
    assert!(c.connected().contains(&name("alice")));
}

#[test]
fn join_game_creates_a_snake_and_acknowledges() {
    let mut c = SnakeController::new();
    c.handle(ChannelEvent::Connect(name("a")));
    let (out, running) = c.handle(data("a", PlayerMessage::JoinGame));
    assert!(running);
    assert_eq!(out, vec![send("a", SnakeChannelMessage::PlayerJoined())]);
    assert_eq!(c.registry().len(), 1);
    assert_eq!(c.registry().get(&name("a")), Some(0));
    assert_eq!(c.session().snakes.len(), 1);
    assert_eq!(c.session().snakes[0].positions, vec![(5, 5); 5]);
    assert_eq!(c.session().snakes[0].direction, Direction::Right);
    assert_eq!(c.session().snakes[0].snake_id, 0);
    assert_eq!(c.next_id(), 1);
}

#[test]
fn a_second_join_game_changes_nothing() {
    let mut c = joined(&["a"]);
    let (out, _) = c.handle(data("a", PlayerMessage::JoinGame));
    assert!(out.is_empty());
    assert_eq!(c.registry().len(), 1);
    assert_eq!(c.session().snakes.len(), 1);
    assert_eq!(c.next_id(), 1);
}

#[test]
fn every_player_gets_the_next_identifier() {
    let c = joined(&["a", "b", "c"]);
    assert_eq!(c.registry().get(&name("a")), Some(0));
    assert_eq!(c.registry().get(&name("b")), Some(1));
    assert_eq!(c.registry().get(&name("c")), Some(2));
    assert_eq!(c.session().snakes.len(), 3);
    assert_eq!(c.session().snakes[2].snake_id, 2);
    assert_eq!(c.next_id(), 3);
}

#[test]
fn change_direction_turns_the_senders_snake() {
    let mut c = joined(&["a", "b"]);
    let (out, _) = c.handle(data("b", PlayerMessage::ChangeDirection { dir: Direction::Up }));
    assert!(out.is_empty());
    assert_eq!(c.session().snakes[0].direction, Direction::Right);
    assert_eq!(c.session().snakes[1].direction, Direction::Up);
}

#[test]
fn change_direction_refuses_a_reversal_and_takes_the_rest() {
    let mut c = joined(&["a"]);
    c.handle(data("a", PlayerMessage::ChangeDirection { dir: Direction::Left }));
    assert_eq!(c.session().snakes[0].direction, Direction::Right);
    c.handle(data("a", PlayerMessage::ChangeDirection { dir: Direction::Right }));
    assert_eq!(c.session().snakes[0].direction, Direction::Right);
    c.handle(data("a", PlayerMessage::ChangeDirection { dir: Direction::Down }));
    assert_eq!(c.session().snakes[0].direction, Direction::Down);
    c.handle(data("a", PlayerMessage::ChangeDirection { dir: Direction::Up }));
    assert_eq!(c.session().snakes[0].direction, Direction::Down);
    c.handle(data("a", PlayerMessage::ChangeDirection { dir: Direction::Left }));
    assert_eq!(c.session().snakes[0].direction, Direction::Left);
}

#[test]
fn change_direction_from_a_user_without_a_snake_is_ignored() {
    let mut c = joined(&["a"]);
    c.handle(ChannelEvent::Connect(name("b")));
    let (out, running) = c.handle(data("b", PlayerMessage::ChangeDirection { dir: Direction::Up }));
    assert!(out.is_empty());
    assert!(running);
    assert_eq!(c.session().snakes[0].direction, Direction::Right);
}

#[test]
fn malformed_bytes_are_dropped() {
    let mut c = joined(&["a"]);
    for bytes in [vec![], vec![3], vec![0, 0], vec![1], vec![1, 4], vec![1, 0, 0], vec![2, 9]] {
        let (out, running) = c.handle(ChannelEvent::Data(name("b"), bytes));
        assert!(out.is_empty());
        assert!(running);
    }
    assert_eq!(c.registry().len(), 1);
    assert_eq!(c.session().snakes.len(), 1);
    assert_eq!(c.session().snakes[0].direction, Direction::Right);
}

#[test]
fn reset_game_clears_the_world_and_the_registry() {
    let mut c = joined(&["a", "b"]);
    c.handle(ChannelEvent::Timeout);
    assert_eq!(c.session().apples.len(), 1);
    let (out, running) = c.handle(data("b", PlayerMessage::ResetGame));
    assert!(out.is_empty());
    assert!(running);
    assert!(c.session().snakes.is_empty());
    assert!(c.session().apples.is_empty());
    assert_eq!(c.session().grid_size, 16);
    assert_eq!(c.registry().len(), 0);
    assert_eq!(c.connected().len(), 2);
    assert_eq!(c.leader(), "a");
}

#[test]
fn reset_game_does_not_hand_out_identifiers_again() {
    let mut c = joined(&["a", "b"]);
    c.handle(data("a", PlayerMessage::ResetGame));
    assert_eq!(c.next_id(), 2);
    c.handle(data("b", PlayerMessage::JoinGame));
    assert_eq!(c.registry().get(&name("b")), Some(2));
    assert_eq!(c.session().snakes[0].snake_id, 2);
}

#[test]
fn reset_game_is_taken_from_anybody() {
    let mut c = joined(&["a"]);
    c.handle(data("stranger", PlayerMessage::ResetGame));
    assert!(c.session().snakes.is_empty());
    assert_eq!(c.registry().len(), 0);
}

#[test]
fn disconnect_removes_the_users_snake_without_a_death_notice() {
    let mut c = joined(&["a", "b"]);
    let (out, running) = c.handle(ChannelEvent::Disconnect(name("a")));
    assert!(out.is_empty());
    assert!(running);
    assert_eq!(c.session().snakes.len(), 1);
    assert_eq!(c.session().snakes[0].snake_id, 1);
    assert_eq!(c.registry().len(), 1);
    assert!(!c.registry().contains_key(&name("a")));
    assert!(!c.connected().contains(&name("a")));
}

#[test]
fn disconnect_of_an_unknown_user_changes_nothing() {
    let mut c = joined(&["a"]);
    let (out, running) = c.handle(ChannelEvent::Disconnect(name("ghost")));
    assert!(out.is_empty());
    assert!(running);
    assert_eq!(c.session().snakes.len(), 1);
    assert_eq!(c.registry().len(), 1);
    assert_eq!(c.connected().len(), 1);
    assert_eq!(c.leader(), "a");
}

#[test]
fn the_lowest_sorted_user_takes_over_when_the_leader_leaves() {
    let mut c = SnakeController::new();
    for u in ["mallory", "zed", "bob", "carol"] {
        c.handle(ChannelEvent::Connect(name(u)));
    }
    assert_eq!(c.leader(), "mallory");
    c.handle(ChannelEvent::Disconnect(name("zed")));
    assert_eq!(c.leader(), "mallory");
    c.handle(ChannelEvent::Disconnect(name("mallory")));
    assert_eq!(c.leader(), "bob");
    c.handle(ChannelEvent::Disconnect(name("bob")));
    assert_eq!(c.leader(), "carol");
}

#[test]
fn the_sole_leader_leaves_and_the_next_user_leads() {
    let mut c = SnakeController::new();
    c.handle(ChannelEvent::Connect(name("a")));
    assert_eq!(c.leader(), "a");
    c.handle(ChannelEvent::Disconnect(name("a")));
    assert_eq!(c.leader(), "");
    assert_eq!(c.connected().len(), 0);
    c.handle(ChannelEvent::Connect(name("b")));
    assert_eq!(c.leader(), "b");
}

#[test]
fn a_tick_without_apples_spawns_exactly_one() {
    let mut c = joined(&["a"]);
    let (out, running) = c.handle(ChannelEvent::Timeout);
    assert!(running);
    assert_eq!(c.session().apples.len(), 1);
    let apple = c.session().apples[0];
    assert!(apple.0 < 32 && apple.1 < 32);
    assert_eq!(out.len(), 1);
    assert_eq!(
        out[0],
        Outgoing::Broadcast { message: SnakeChannelMessage::StateUpdate(c.session().snapshot()) }
    );
    c.handle(ChannelEvent::Timeout);
    assert_eq!(c.session().apples.len(), 1);
    assert_eq!(c.session().apples[0], apple);
}

#[test]
fn a_tick_moves_every_snake_one_cell() {
    let mut c = joined(&["a", "b"]);
    c.handle(data("b", PlayerMessage::ChangeDirection { dir: Direction::Down }));
    c.handle(ChannelEvent::Timeout);
    assert_eq!(c.session().snakes[0].positions, vec![(6, 5), (5, 5), (5, 5), (5, 5), (5, 5)]);
    assert_eq!(c.session().snakes[1].positions, vec![(5, 6), (5, 5), (5, 5), (5, 5), (5, 5)]);
}

#[test]
fn end_to_end_join_tick_turn_tick() {
    let mut c = SnakeController::new();
    c.handle(ChannelEvent::Connect(name("A")));
    let (out, _) = c.handle(data("A", PlayerMessage::JoinGame));
    assert_eq!(out, vec![send("A", SnakeChannelMessage::PlayerJoined())]);
    assert_eq!(c.registry().len(), 1);
    assert_eq!(c.session().snakes.len(), 1);
    assert_eq!(c.session().snakes[0].positions, vec![(5, 5); 5]);
    assert_eq!(c.session().snakes[0].direction, Direction::Right);

    let (out, _) = c.handle(ChannelEvent::Timeout);
    assert_eq!(c.session().apples.len(), 1);
    assert_eq!(out.len(), 1);
    assert_eq!(c.session().snakes[0].positions[0], (6, 5));

    c.handle(data("A", PlayerMessage::ChangeDirection { dir: Direction::Up }));
    assert_eq!(c.session().snakes[0].direction, Direction::Up);
    let (out, _) = c.handle(ChannelEvent::Timeout);
    assert_eq!(c.session().snakes.len(), 1);
    assert_eq!(c.session().snakes[0].positions, vec![(6, 4), (6, 5), (5, 5), (5, 5), (5, 5)]);
    assert_eq!(out.len(), 1);
    assert_eq!(c.registry().len(), 1);
}

#[test]
fn a_snake_that_turns_onto_its_tail_dies_and_its_owner_is_told() {
    let mut c = joined(&["a", "b"]);
    c.handle(ChannelEvent::Timeout);
    for dir in [Direction::Down, Direction::Left] {
        c.handle(data("a", PlayerMessage::ChangeDirection { dir }));
        let (out, _) = c.handle(ChannelEvent::Timeout);
        assert_eq!(out.len(), 1);
    }
    c.handle(data("a", PlayerMessage::ChangeDirection { dir: Direction::Up }));
    let (out, running) = c.handle(ChannelEvent::Timeout);
    assert!(running);
    assert_eq!(out.len(), 2);
    assert_eq!(out[0], send("a", SnakeChannelMessage::PlayerDied()));
    assert_eq!(
        out[1],
        Outgoing::Broadcast { message: SnakeChannelMessage::StateUpdate(c.session().snapshot()) }
    );
    assert_eq!(c.session().snakes.len(), 1);
    assert_eq!(c.session().snakes[0].snake_id, 1);
    assert_eq!(c.registry().len(), 1);
    assert!(!c.registry().contains_key(&name("a")));
    assert_eq!(c.leader(), "");
    assert!(c.connected().contains(&name("a")));
}

#[test]
fn a_dead_player_may_join_again_with_a_new_identifier() {
    let mut c = joined(&["a"]);
    c.handle(ChannelEvent::Timeout);
    for dir in [Direction::Down, Direction::Left, Direction::Up] {
        c.handle(data("a", PlayerMessage::ChangeDirection { dir }));
        c.handle(ChannelEvent::Timeout);
    }
    assert!(c.session().snakes.is_empty());
    let (out, _) = c.handle(data("a", PlayerMessage::JoinGame));
    assert_eq!(out, vec![send("a", SnakeChannelMessage::PlayerJoined())]);
    assert_eq!(c.registry().get(&name("a")), Some(1));
}

#[test]
fn a_snake_that_reaches_an_apple_eats_it() {
    let mut c = joined(&["a"]);
    assert!(c.spawn_apple_at(6, 5));
    assert_eq!(c.session().apples, vec![(6, 5)]);
    let out = c.advance();
    assert_eq!(out.len(), 1);
    assert!(c.session().apples.is_empty());
    assert_eq!(
        c.session().snakes[0].positions,
        vec![(6, 5), (5, 5), (5, 5), (5, 5), (5, 5), (5, 5)]
    );
    c.handle(ChannelEvent::Timeout);
    assert_eq!(c.session().apples.len(), 1);
    assert_eq!(c.session().snakes[0].positions.len(), 6);
}

#[test]
fn spawn_apple_at_refuses_a_covered_cell_and_a_second_apple() {
    let mut c = joined(&["a"]);
    assert!(!c.spawn_apple_at(5, 5));
    assert!(!c.spawn_apple_at(37, 69));
    assert!(c.session().apples.is_empty());
    assert!(c.spawn_apple_at(40, 65));
    assert_eq!(c.session().apples, vec![(8, 1)]);
    assert!(!c.spawn_apple_at(1, 1));
    assert_eq!(c.session().apples, vec![(8, 1)]);
}

#[test]
fn a_closed_transport_ends_the_loop_and_changes_nothing() {
    let mut c = joined(&["a"]);
    let (out, running) = c.handle(ChannelEvent::Closed);
    assert!(out.is_empty());
    assert!(!running);
    assert_eq!(c.session().snakes.len(), 1);
    assert_eq!(c.registry().len(), 1);
    assert_eq!(c.leader(), "a");
}

#[test]
fn no_identifier_is_handed_out_twice() {
    let mut c = SnakeController::new();
    for i in 0..256u32 {
        let user = format!("user-{}", i);
        let (out, _) = c.handle(ChannelEvent::Data(user.clone(), vec![0]));
        assert_eq!(out.len(), 1);
        assert_eq!(c.registry().get(&user), Some(i as u8));
    }
    assert_eq!(c.next_id(), 256);
    assert_eq!(c.session().snakes.len(), 256);
    let (out, running) = c.handle(ChannelEvent::Data(name("late"), vec![0]));
    assert!(out.is_empty());
    assert!(running);
    assert_eq!(c.registry().len(), 256);
    assert_eq!(c.session().snakes.len(), 256);
    assert!(!c.registry().contains_key(&name("late")));
}
