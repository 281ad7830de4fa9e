//! The messages that players and server exchange.

use crate::grid::Direction;
use crate::session::{SessionView, SnakeSession};
use vstd::prelude::*;

verus! {

/// What a player asks of the server.
#[derive(Debug, Clone, Copy, PartialEq, Eq, Structural)]
pub enum PlayerMessage {
    /// Give me a snake.
    JoinGame,
    /// Turn my snake to face `dir`.
    ChangeDirection { dir: Direction },
    /// Start the whole game over.
    ResetGame,
}

/// What the server tells its clients.
#[derive(Debug, Clone, PartialEq, Eq)]
pub enum SnakeChannelMessage {
    /// The world after a tick, for everybody.
    StateUpdate(SnakeSession),
    /// The addressee now owns a snake.
    PlayerJoined(),
    /// The addressee's snake has died.
    PlayerDied(),
}

/// The mathematical value of a [`SnakeChannelMessage`].
pub enum ChannelMessageView {
    StateUpdate(SessionView),
    PlayerJoined,
    PlayerDied,
}

impl View for SnakeChannelMessage {
    type V = ChannelMessageView;

    open spec fn view(&self) -> ChannelMessageView {
        match self {
            SnakeChannelMessage::StateUpdate(s) => ChannelMessageView::StateUpdate(s@),
            SnakeChannelMessage::PlayerJoined() => ChannelMessageView::PlayerJoined,
            SnakeChannelMessage::PlayerDied() => ChannelMessageView::PlayerDied,
        }
    }
}

/// A message that the server wants delivered.
#[derive(Debug, Clone, PartialEq, Eq)]
pub enum Outgoing {
    /// For one user only.
    Send { user: String, message: SnakeChannelMessage },
    /// For every connected user.
    Broadcast { message: SnakeChannelMessage },
}

/// The mathematical value of an [`Outgoing`].
pub enum OutgoingView {
    Send { user: Seq<char>, message: ChannelMessageView },
    Broadcast { message: ChannelMessageView },
}

impl View for Outgoing {
    type V = OutgoingView;

    open spec fn view(&self) -> OutgoingView {
        match self {
            Outgoing::Send { user, message } => OutgoingView::Send {
                user: user@,
                message: message@,
            },
            Outgoing::Broadcast { message } => OutgoingView::Broadcast { message: message@ },
        }
    }
}

/// The values of a list of outgoing messages, in the same order.
pub open spec fn outgoing_view(out: Seq<Outgoing>) -> Seq<OutgoingView> {
    Seq::new(out.len(), |i: int| out[i]@)
}

/// What the transport hands to the server.
#[derive(Debug, Clone, PartialEq, Eq)]
pub enum ChannelEvent {
    /// A user has connected.
    Connect(String),
    /// A user has disconnected.
    Disconnect(String),
    /// A user has sent bytes.
    Data(String, Vec<u8>),
    /// Nothing arrived within the tick period.
    Timeout,
    /// The transport has failed for good.
    Closed,
}

/// The mathematical value of a [`ChannelEvent`].
pub enum ChannelEventView {
    Connect(Seq<char>),
    Disconnect(Seq<char>),
    Data(Seq<char>, Seq<u8>),
    Timeout,
    Closed,
}

impl View for ChannelEvent {
    type V = ChannelEventView;

    open spec fn view(&self) -> ChannelEventView {
        match self {
            ChannelEvent::Connect(user) => ChannelEventView::Connect(user@),
            ChannelEvent::Disconnect(user) => ChannelEventView::Disconnect(user@),
            ChannelEvent::Data(user, bytes) => ChannelEventView::Data(user@, bytes@),
            ChannelEvent::Timeout => ChannelEventView::Timeout,
            ChannelEvent::Closed => ChannelEventView::Closed,
        }
    }
}

} // verus!
