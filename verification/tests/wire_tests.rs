use snake_demo::grid::Direction;
use snake_demo::messages::{PlayerMessage, SnakeChannelMessage};
use snake_demo::session::SnakeSession;
use snake_demo::snake::Snake;
use snake_demo::decode::{decode_channel_message, decode_player_message};
use snake_demo::encode::{encode_channel_message, encode_player_message, session_is_encodable};

fn sample_session() -> SnakeSession {
    SnakeSession {
        grid_size: 16,
        snakes: vec![
            Snake { positions: vec![(6, 5), (5, 5), (5, 5)], direction: Direction::Right, snake_id: 0 },
            Snake { positions: vec![(300, 258)], direction: Direction::Up, snake_id: 255 },
            Snake { positions: vec![], direction: Direction::Left, snake_id: 7 },
        ],
        apples: vec![(0, 0), (31, 65535)],
    }
}

fn tag(d: Direction) -> u8 {
    match d {
        Direction::Up => 0,
        Direction::Down => 1,
        Direction::Left => 2,
        Direction::Right => 3,
    }
}

fn reference_bytes(s: &SnakeSession) -> Vec<u8> {
    let snakes: Vec<(Vec<(u16, u16)>, u8, u8)> =
        s.snakes.iter().map(|k| (k.positions.clone(), tag(k.direction), k.snake_id)).collect();
    borsh::to_vec(&(0u8, s.grid_size, snakes, s.apples.clone())).unwrap()
}

#[test]
fn player_messages_have_their_exact_bytes() {
    assert_eq!(encode_player_message(PlayerMessage::JoinGame), vec![0]);
    assert_eq!(encode_player_message(PlayerMessage::ResetGame), vec![2]);
    assert_eq!(encode_player_message(PlayerMessage::ChangeDirection { dir: Direction::Up }), vec![1, 0]);
    assert_eq!(encode_player_message(PlayerMessage::ChangeDirection { dir: Direction::Down }), vec![1, 1]);
    assert_eq!(encode_player_message(PlayerMessage::ChangeDirection { dir: Direction::Left }), vec![1, 2]);
    assert_eq!(encode_player_message(PlayerMessage::ChangeDirection { dir: Direction::Right }), vec![1, 3]);
}

#[test]
fn player_messages_are_written_as_borsh_writes_them() {
    assert_eq!(encode_player_message(PlayerMessage::JoinGame), borsh::to_vec(&0u8).unwrap());
    assert_eq!(encode_player_message(PlayerMessage::ResetGame), borsh::to_vec(&2u8).unwrap());
    for dir in [Direction::Up, Direction::Down, Direction::Left, Direction::Right] {
        assert_eq!(
            encode_player_message(PlayerMessage::ChangeDirection { dir }),
            borsh::to_vec(&(1u8, tag(dir))).unwrap()
        );
    }
}

#[test]
fn player_messages_round_trip() {
    let all = [
        PlayerMessage::JoinGame,
        PlayerMessage::ResetGame,
        PlayerMessage::ChangeDirection { dir: Direction::Up },
        PlayerMessage::ChangeDirection { dir: Direction::Down },
        PlayerMessage::ChangeDirection { dir: Direction::Left },
        PlayerMessage::ChangeDirection { dir: Direction::Right },
    ];
    for m in all {
        assert_eq!(decode_player_message(&encode_player_message(m)), Some(m));
    }
}

#[test]
fn player_bytes_that_hold_no_message_are_refused() {
    let bad: [&[u8]; 8] = [&[], &[3], &[255], &[0, 0], &[2, 0], &[1], &[1, 4], &[1, 0, 0]];
    for bytes in bad {
        assert_eq!(decode_player_message(bytes), None);
    }
}

#[test]
fn short_channel_messages_have_their_exact_bytes() {
    assert_eq!(encode_channel_message(&SnakeChannelMessage::PlayerJoined()), Some(vec![1]));
    assert_eq!(encode_channel_message(&SnakeChannelMessage::PlayerDied()), Some(vec![2]));
}

#[test]
fn a_state_update_has_its_exact_bytes() {
    let session = SnakeSession {
        grid_size: 16,
        snakes: vec![Snake {
            positions: vec![(6, 5), (261, 512)],
            direction: Direction::Right,
            snake_id: 9,
        }],
        apples: vec![(1, 2)],
    };
    let expected: Vec<u8> = vec![
        0, // StateUpdate
        16, 0, // grid_size
        1, 0, 0, 0, // number of snakes
        2, 0, 0, 0, // number of positions
        6, 0, 5, 0, // (6, 5)
        5, 1, 0, 2, // (261, 512)
        3, // Right
        9, // snake_id
        1, 0, 0, 0, // number of apples
        1, 0, 2, 0, // (1, 2)
    ];
    assert_eq!(encode_channel_message(&SnakeChannelMessage::StateUpdate(session)), Some(expected));
}

#[test]
fn an_empty_state_update_has_its_exact_bytes() {
    let bytes = encode_channel_message(&SnakeChannelMessage::StateUpdate(SnakeSession::new()));
    assert_eq!(bytes, Some(vec![0, 16, 0, 0, 0, 0, 0, 0, 0, 0, 0]));
}

#[test]
fn a_state_update_is_written_as_borsh_writes_it() {
    let session = sample_session();
    let expected = reference_bytes(&session);
    assert_eq!(encode_channel_message(&SnakeChannelMessage::StateUpdate(session)), Some(expected));
}

#[test]
fn channel_messages_round_trip() {
    let all = [
        SnakeChannelMessage::PlayerJoined(),
        SnakeChannelMessage::PlayerDied(),
        SnakeChannelMessage::StateUpdate(SnakeSession::new()),
        SnakeChannelMessage::StateUpdate(sample_session()),
    ];
    for m in all {
        let bytes = encode_channel_message(&m).unwrap();
        assert_eq!(decode_channel_message(&bytes), Some(m));
    }
}

#[test]
fn what_borsh_wrote_is_read_back() {
    let session = sample_session();
    let bytes = reference_bytes(&session);
    assert_eq!(decode_channel_message(&bytes), Some(SnakeChannelMessage::StateUpdate(session)));
    assert_eq!(decode_channel_message(&borsh::to_vec(&1u8).unwrap()), Some(SnakeChannelMessage::PlayerJoined()));
    assert_eq!(decode_channel_message(&borsh::to_vec(&2u8).unwrap()), Some(SnakeChannelMessage::PlayerDied()));
}

#[test]
fn channel_bytes_that_hold_no_message_are_refused() {
    let good = encode_channel_message(&SnakeChannelMessage::StateUpdate(sample_session())).unwrap();
    for cut in 0..good.len() {
        assert_eq!(decode_channel_message(&good[..cut]), None, "cut at {}", cut);
    }
    let mut longer = good.clone();
    longer.push(0);
    assert_eq!(decode_channel_message(&longer), None);
    assert_eq!(decode_channel_message(&[]), None);
    assert_eq!(decode_channel_message(&[3]), None);
    assert_eq!(decode_channel_message(&[1, 0]), None);
    assert_eq!(decode_channel_message(&[2, 0]), None);
    let bad_direction = [0, 16, 0, 1, 0, 0, 0, 0, 0, 0, 0, 4, 0, 0, 0, 0, 0];
    assert_eq!(decode_channel_message(&bad_direction), None);
    let huge_count = [0, 16, 0, 255, 255, 255, 255, 0, 0, 0, 0];
    assert_eq!(decode_channel_message(&huge_count), None);
    let huge_apples = [0, 16, 0, 0, 0, 0, 0, 255, 255, 255, 255, 1, 0, 2, 0];
    assert_eq!(decode_channel_message(&huge_apples), None);
}

#[test]
fn cut_or_lengthened_bytes_are_refused_as_borsh_refuses_them() {
    type Reference = (u8, u16, Vec<(Vec<(u16, u16)>, u8, u8)>, Vec<(u16, u16)>);
    let good = reference_bytes(&sample_session());
    assert!(borsh::from_slice::<Reference>(&good).is_ok());
    assert!(decode_channel_message(&good).is_some());
    for cut in 1..good.len() {
        assert!(borsh::from_slice::<Reference>(&good[..cut]).is_err());
        assert!(decode_channel_message(&good[..cut]).is_none());
    }
    let mut longer = good.clone();
    longer.push(7);
    assert!(borsh::from_slice::<Reference>(&longer).is_err());
    assert!(decode_channel_message(&longer).is_none());
}

#[test]
fn a_session_of_ordinary_size_can_be_written() {
    assert!(session_is_encodable(&SnakeSession::new()));
    assert!(session_is_encodable(&sample_session()));
}
