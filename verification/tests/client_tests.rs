use snake_demo::client::{intents, GameState, Pressed};
use snake_demo::grid::Direction;
use snake_demo::messages::{PlayerMessage, SnakeChannelMessage};
use snake_demo::render::{apple_circle, segment_square, snake_color, text_origin, Square};
use snake_demo::session::SnakeSession;
use snake_demo::snake::Snake;
use snake_demo::encode::encode_channel_message;

fn nothing() -> Pressed {
    Pressed { start: false, mouse_left: false, a: false, up: false, down: false, left: false, right: false }
}

fn world() -> SnakeSession {
    SnakeSession {
        grid_size: 16,
        snakes: vec![Snake { positions: vec![(6, 5), (5, 5)], direction: Direction::Right, snake_id: 1 }],
        apples: vec![(3, 4)],
    }
}

#[test]
fn a_new_client_has_not_joined() {
    let s = GameState::new();
    assert!(!s.joined_game);
    assert_eq!(s.snake_session, SnakeSession::new());
}

#[test]
fn the_client_follows_the_servers_messages() {
    let mut s = GameState::new();
    s.apply(SnakeChannelMessage::PlayerJoined());
    assert!(s.joined_game);
    s.apply(SnakeChannelMessage::StateUpdate(world()));
    assert!(s.joined_game);
    assert_eq!(s.snake_session, world());
    s.apply(SnakeChannelMessage::PlayerDied());
    assert!(!s.joined_game);
    assert_eq!(s.snake_session, world());
}

#[test]
fn the_client_reads_bytes_and_drops_what_it_cannot_read() {
    let mut s = GameState::new();
    s.receive(&[1]);
    assert!(s.joined_game);
    s.receive(&encode_channel_message(&SnakeChannelMessage::StateUpdate(world())).unwrap());
    assert_eq!(s.snake_session, world());
    s.receive(&[9, 9, 9]);
    s.receive(&[]);
    s.receive(&[0, 16]);
    assert!(s.joined_game);
    assert_eq!(s.snake_session, world());
    s.receive(&[2]);
    assert!(!s.joined_game);
}

#[test]
fn a_lost_connection_means_joining_again() {
    let mut s = GameState::new();
    s.apply(SnakeChannelMessage::PlayerJoined());
    s.apply(SnakeChannelMessage::StateUpdate(world()));
    s.on_disconnected();
    assert!(!s.joined_game);
    assert_eq!(s.snake_session, world());
}

#[test]
fn start_or_mouse_asks_to_join_once() {
    assert_eq!(intents(false, Pressed { start: true, ..nothing() }), vec![PlayerMessage::JoinGame]);
    assert_eq!(intents(false, Pressed { mouse_left: true, ..nothing() }), vec![PlayerMessage::JoinGame]);
    assert_eq!(intents(true, Pressed { start: true, ..nothing() }), vec![]);
    assert_eq!(intents(true, Pressed { mouse_left: true, ..nothing() }), vec![]);
    assert_eq!(intents(false, nothing()), vec![]);
}

#[test]
fn a_with_start_asks_for_a_reset() {
    assert_eq!(intents(true, Pressed { a: true, start: true, ..nothing() }), vec![PlayerMessage::ResetGame]);
    assert_eq!(
        intents(false, Pressed { a: true, start: true, ..nothing() }),
        vec![PlayerMessage::JoinGame, PlayerMessage::ResetGame]
    );
    assert_eq!(intents(true, Pressed { a: true, ..nothing() }), vec![]);
}

#[test]
fn one_direction_is_sent_up_first() {
    let turn = |dir| vec![PlayerMessage::ChangeDirection { dir }];
    assert_eq!(intents(true, Pressed { up: true, ..nothing() }), turn(Direction::Up));
    assert_eq!(intents(true, Pressed { down: true, ..nothing() }), turn(Direction::Down));
    assert_eq!(intents(true, Pressed { left: true, ..nothing() }), turn(Direction::Left));
    assert_eq!(intents(true, Pressed { right: true, ..nothing() }), turn(Direction::Right));
    assert_eq!(
        intents(true, Pressed { up: true, down: true, left: true, right: true, ..nothing() }),
        turn(Direction::Up)
    );
    assert_eq!(intents(true, Pressed { down: true, right: true, ..nothing() }), turn(Direction::Down));
    assert_eq!(intents(true, Pressed { left: true, right: true, ..nothing() }), turn(Direction::Left));
    assert_eq!(
        intents(false, Pressed { start: true, a: true, right: true, ..nothing() }),
        vec![
            PlayerMessage::JoinGame,
            PlayerMessage::ResetGame,
            PlayerMessage::ChangeDirection { dir: Direction::Right }
        ]
    );
}

#[test]
fn snakes_take_one_of_six_colours() {
    assert_eq!(snake_color(0), 0x9370DBff);
    assert_eq!(snake_color(1), 0xFF69B4ff);
    assert_eq!(snake_color(2), 0x20B2AAff);
    assert_eq!(snake_color(3), 0xDDA0DDff);
    assert_eq!(snake_color(4), 0xFF8C00ff);
    assert_eq!(snake_color(5), 0x9932CCff);
    assert_eq!(snake_color(6), 0x9370DBff);
    assert_eq!(snake_color(255), 0xDDA0DDff);
}

#[test]
fn a_segment_is_the_cell_without_a_border_of_one() {
    assert_eq!(segment_square((5, 5), 16), Some(Square { x: 81, y: 81, size: 14 }));
    assert_eq!(segment_square((0, 31), 16), Some(Square { x: 1, y: 497, size: 14 }));
    assert_eq!(segment_square((0, 0), 2), Some(Square { x: 1, y: 1, size: 0 }));
    assert_eq!(segment_square((0, 0), 1), None);
    assert_eq!(segment_square((4096, 0), 16), None);
    assert_eq!(segment_square((0, 4096), 16), None);
    assert_eq!(segment_square((4095, 0), 16), Some(Square { x: 65521, y: 1, size: 14 }));
}

#[test]
fn an_apple_is_the_circle_in_the_cell_without_a_border_of_two() {
    assert_eq!(apple_circle((5, 5), 16), Some(Square { x: 82, y: 82, size: 12 }));
    assert_eq!(apple_circle((1, 0), 4), Some(Square { x: 6, y: 2, size: 0 }));
    assert_eq!(apple_circle((0, 0), 3), None);
    assert_eq!(apple_circle((65535, 65535), 65535), None);
}

#[test]
fn the_prompt_is_centred() {
    assert_eq!(text_origin(512, 512, 19), Some((180, 252)));
    assert_eq!(text_origin(152, 8, 19), Some((0, 0)));
    assert_eq!(text_origin(150, 512, 19), None);
    assert_eq!(text_origin(512, 6, 19), None);
    assert_eq!(text_origin(512, 512, 0), Some((256, 252)));
    assert_eq!(text_origin(u32::MAX, u32::MAX, 536870912), None);
}
