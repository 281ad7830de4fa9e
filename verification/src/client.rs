//! The client's side of the protocol: what a client remembers of the game
//! and which messages a player's input turns into.

use crate::grid::Direction;
use crate::messages::{ChannelMessageView, PlayerMessage, SnakeChannelMessage};
use crate::session::{SessionView, SnakeSession};
use crate::decode::decode_channel_message;
use crate::wire::decoded_channel_message;
use vstd::prelude::*;

verus! {

/// What a client knows: the world as the server last sent it, and whether
/// the player owns a snake.
#[derive(Debug, Clone, PartialEq, Eq)]
pub struct GameState {
    /// The world of the last state update.
    pub snake_session: SnakeSession,
    /// Whether the server has let the player in and the snake still lives.
    pub joined_game: bool,
}

/// The mathematical value of a [`GameState`].
pub struct GameStateView {
    pub session: SessionView,
    pub joined: bool,
}

impl View for GameState {
    type V = GameStateView;

    open spec fn view(&self) -> GameStateView {
        GameStateView { session: self.snake_session@, joined: self.joined_game }
    }
}

impl GameStateView {
    /// What a client knows before it has heard from the server.
    pub open spec fn initial() -> GameStateView {
        GameStateView { session: SessionView::initial(), joined: false }
    }

    /// The state after a message from the server.
    pub open spec fn applied(self, message: ChannelMessageView) -> GameStateView {
        match message {
            ChannelMessageView::StateUpdate(session) => GameStateView { session, ..self },
            ChannelMessageView::PlayerJoined => GameStateView { joined: true, ..self },
            ChannelMessageView::PlayerDied => GameStateView { joined: false, ..self },
        }
    }

    /// The state after bytes from the server: that after the message they
    /// hold, or the same state if they hold none.
    pub open spec fn received(self, bytes: Seq<u8>) -> GameStateView {
        match decoded_channel_message(bytes) {
            Some(message) => self.applied(message),
            None => self,
        }
    }
}

/// The buttons that went down in this frame.
#[derive(Debug, Clone, Copy, PartialEq, Eq, Structural)]
pub struct Pressed {
    pub start: bool,
    pub mouse_left: bool,
    pub a: bool,
    pub up: bool,
    pub down: bool,
    pub left: bool,
    pub right: bool,
}

/// The direction that the pressed buttons ask for: up before down before
/// left before right.
pub open spec fn wanted_direction(pressed: Pressed) -> Option<Direction> {
    if pressed.up {
        Some(Direction::Up)
    } else if pressed.down {
        Some(Direction::Down)
    } else if pressed.left {
        Some(Direction::Left)
    } else if pressed.right {
        Some(Direction::Right)
    } else {
        None
    }
}

/// The messages that a frame's input turns into, in the order in which they
/// are sent: a request to join from a player who has not joined, a reset,
/// a change of direction.
pub open spec fn spec_intents(joined: bool, pressed: Pressed) -> Seq<PlayerMessage> {
    let join = if !joined && (pressed.start || pressed.mouse_left) {
        seq![PlayerMessage::JoinGame]
    } else {
        Seq::empty()
    };
    let reset = if pressed.a && pressed.start {
        seq![PlayerMessage::ResetGame]
    } else {
        Seq::empty()
    };
    let turn = match wanted_direction(pressed) {
        Some(dir) => seq![PlayerMessage::ChangeDirection { dir }],
        None => Seq::empty(),
    };
    join + reset + turn
}

/// Turns the input of one frame into the messages to send.
pub fn intents(joined: bool, pressed: Pressed) -> (out: Vec<PlayerMessage>)
    ensures
        out@ == spec_intents(joined, pressed),
{
    let mut out: Vec<PlayerMessage> = Vec::new();
    if !joined && (pressed.start || pressed.mouse_left) {
        out.push(PlayerMessage::JoinGame);
    }
    if pressed.a && pressed.start {
        out.push(PlayerMessage::ResetGame);
    }
    if pressed.up {
        out.push(PlayerMessage::ChangeDirection { dir: Direction::Up });
    } else if pressed.down {
        out.push(PlayerMessage::ChangeDirection { dir: Direction::Down });
    } else if pressed.left {
        out.push(PlayerMessage::ChangeDirection { dir: Direction::Left });
    } else if pressed.right {
        out.push(PlayerMessage::ChangeDirection { dir: Direction::Right });
    }
    out
}

impl GameState {
    /// Creates the state of a client that has not heard from the server.
    pub fn new() -> (s: GameState)
        ensures
            s@ == GameStateView::initial(),
    {
        GameState { snake_session: SnakeSession::new(), joined_game: false }
    }

    /// Notes that the connection is down: the player has to join again.
    pub fn on_disconnected(&mut self)
        ensures
            final(self)@ == (GameStateView { joined: false, ..old(self)@ }),
    {
        self.joined_game = false;
    }

    /// Takes in a message from the server.
    pub fn apply(&mut self, message: SnakeChannelMessage)
        ensures
            final(self)@ == old(self)@.applied(message@),
    {
        match message {
            SnakeChannelMessage::StateUpdate(next_state) => {
                self.snake_session = next_state;
            },
            SnakeChannelMessage::PlayerJoined() => {
                self.joined_game = true;
            },
            SnakeChannelMessage::PlayerDied() => {
                self.joined_game = false;
            },
        }
    }

    /// Takes in bytes from the server. Bytes that hold no message are
    /// dropped.
    pub fn receive(&mut self, data: &[u8])
        ensures
            final(self)@ == old(self)@.received(data@),
    {
        match decode_channel_message(data) {
            Some(message) => {
                self.apply(message);
            },
            None => {},
        }
    }
}

} // verus!
