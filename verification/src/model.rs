//! The server's state machine, as mathematics: the value of the server's
//! state, what holds of every reachable state, and the state and the
//! messages that follow each event.

use crate::connected::least_user;
use crate::grid::{in_grid, Direction, DEFAULT_GRID_SIZE};
use crate::messages::{ChannelEventView, ChannelMessageView, OutgoingView, PlayerMessage};
use crate::registry::{has_id, one_owner_each};
use crate::session::SessionView;
use crate::sim::{casualties, feed, leader_after, registry_after, survivors};
use crate::snake::{
    all_have_heads, all_moved, distinct_ids, has_snake, with_turn, without_snake, SnakeView,
};
use crate::spawn::is_free;
use crate::wire::decoded_player_message;
use vstd::prelude::*;

verus! {

/// The mathematical value of a [`SnakeController`].
pub struct ControllerView {
    /// The users that hold a connection.
    pub connected: Set<Seq<char>>,
    /// The session leader; the empty identity stands for "nobody".
    pub leader: Seq<char>,
    /// The identifier that the next new snake gets; 256 when none is left.
    pub next_id: int,
    /// Which user owns which snake.
    pub registry: Map<Seq<char>, u8>,
    /// The world.
    pub session: SessionView,
}

impl ControllerView {
    /// The state of a server that has just started.
    pub open spec fn initial() -> ControllerView {
        ControllerView {
            connected: Set::empty(),
            leader: Seq::empty(),
            next_id: 0,
            registry: Map::empty(),
            session: SessionView::initial(),
        }
    }

    /// What holds of every state that the server can reach.
    pub open spec fn wf(self) -> bool {
        &&& self.connected.finite()
        &&& 0 <= self.next_id <= 256
        &&& self.session.grid_size == DEFAULT_GRID_SIZE
        &&& self.session.apples.no_duplicates()
        &&& all_have_heads(self.session.snakes)
        &&& distinct_ids(self.session.snakes)
        &&& one_owner_each(self.registry)
        &&& forall|i: int|
            0 <= i < self.session.snakes.len() ==> has_id(
                self.registry,
                (#[trigger] self.session.snakes[i]).snake_id,
            )
        &&& forall|u: Seq<char>| #[trigger]
            self.registry.contains_key(u) ==> has_snake(self.session.snakes, self.registry[u])
                && self.registry[u] < self.next_id
    }

    /// The state after `user` has connected: the user is recorded, and leads
    /// the session if nobody did.
    pub open spec fn connect(self, user: Seq<char>) -> ControllerView {
        ControllerView {
            connected: self.connected.insert(user),
            leader: if self.leader.len() == 0 {
                user
            } else {
                self.leader
            },
            ..self
        }
    }

    /// The state after `user` has disconnected: the user is forgotten, its
    /// snake and registry entry are gone, and if it led the session the
    /// connected user that sorts first takes over, or nobody.
    pub open spec fn disconnect(self, user: Seq<char>) -> ControllerView {
        let rest = self.connected.remove(user);
        ControllerView {
            connected: rest,
            leader: if self.leader == user {
                if rest == Set::<Seq<char>>::empty() {
                    Seq::empty()
                } else {
                    least_user(rest)
                }
            } else {
                self.leader
            },
            registry: self.registry.remove(user),
            session: if self.registry.contains_key(user) {
                SessionView {
                    snakes: without_snake(self.session.snakes, self.registry[user]),
                    ..self.session
                }
            } else {
                self.session
            },
            ..self
        }
    }

    /// Whether a `JoinGame` from `user` is granted: the user owns no snake
    /// yet and an identifier is left.
    pub open spec fn admits(self, user: Seq<char>) -> bool {
        !self.registry.contains_key(user) && self.next_id <= u8::MAX
    }

    /// The state after `user` has asked to join.
    pub open spec fn join(self, user: Seq<char>) -> ControllerView {
        if self.admits(user) {
            ControllerView {
                next_id: self.next_id + 1,
                registry: self.registry.insert(user, self.next_id as u8),
                session: SessionView {
                    snakes: self.session.snakes.push(SnakeView::spawned(self.next_id as u8)),
                    ..self.session
                },
                ..self
            }
        } else {
            self
        }
    }

    /// The state after `user` has asked its snake to face `wanted`.
    pub open spec fn change_direction(self, user: Seq<char>, wanted: Direction) -> ControllerView {
        if self.registry.contains_key(user) {
            ControllerView {
                session: SessionView {
                    snakes: with_turn(self.session.snakes, self.registry[user], wanted),
                    ..self.session
                },
                ..self
            }
        } else {
            self
        }
    }

    /// The state after a reset: no snake, no apple, no player, the default
    /// cell size. The connections, the leader and the source of identifiers
    /// stay as they are.
    pub open spec fn reset(self) -> ControllerView {
        ControllerView { registry: Map::empty(), session: SessionView::initial(), ..self }
    }

    /// The state after `user` has sent `bytes`: what the message in them asks
    /// for, or the same state if they hold no message.
    pub open spec fn data(self, user: Seq<char>, bytes: Seq<u8>) -> ControllerView {
        match decoded_player_message(bytes) {
            Some(PlayerMessage::JoinGame) => self.join(user),
            Some(PlayerMessage::ChangeDirection { dir }) => self.change_direction(user, dir),
            Some(PlayerMessage::ResetGame) => self.reset(),
            None => self,
        }
    }

    /// What the server sends after `user` has sent `bytes`: an
    /// acknowledgement to a user whose `JoinGame` is granted, else nothing.
    pub open spec fn data_messages(self, user: Seq<char>, bytes: Seq<u8>) -> Seq<OutgoingView> {
        if decoded_player_message(bytes) == Some(PlayerMessage::JoinGame) && self.admits(user) {
            seq![OutgoingView::Send { user, message: ChannelMessageView::PlayerJoined }]
        } else {
            Seq::empty()
        }
    }

    /// Whether a tick may spawn as `spawn` says. An apple is spawned only
    /// when none exists, and only on a cell of the grid that no snake
    /// covers; the spawner may also give up.
    pub open spec fn spawn_allowed(self, spawn: Option<(u16, u16)>) -> bool {
        match spawn {
            Some(cell) => {
                &&& self.session.apples.len() == 0
                &&& in_grid(cell, self.session.grid_size)
                &&& is_free(self.session.snakes, cell)
            },
            None => true,
        }
    }

    /// The state after the spawner has done as `spawn` says.
    pub open spec fn with_spawn(self, spawn: Option<(u16, u16)>) -> ControllerView {
        match spawn {
            Some(cell) => ControllerView {
                session: SessionView {
                    apples: self.session.apples.push(cell),
                    ..self.session
                },
                ..self
            },
            None => self,
        }
    }

    /// The snakes after all have moved and eaten, before any is removed.
    pub open spec fn fed_snakes(self) -> Seq<SnakeView> {
        feed(all_moved(self.session.snakes, self.session.grid_size), self.session.apples).0
    }

    /// The state after the snakes have moved, eaten and died.
    pub open spec fn advance(self) -> ControllerView {
        ControllerView {
            leader: leader_after(self.fed_snakes(), self.registry, self.leader),
            registry: registry_after(self.fed_snakes(), self.registry),
            session: SessionView {
                snakes: survivors(self.fed_snakes(), self.registry),
                apples: feed(
                    all_moved(self.session.snakes, self.session.grid_size),
                    self.session.apples,
                ).1,
                ..self.session
            },
            ..self
        }
    }

    /// What the server sends after the snakes have moved: a death notice to
    /// the owner of each dead snake, then the new world to everybody.
    pub open spec fn advance_messages(self) -> Seq<OutgoingView> {
        death_notices(casualties(self.fed_snakes(), self.registry)).push(
            OutgoingView::Broadcast {
                message: ChannelMessageView::StateUpdate(self.advance().session),
            },
        )
    }

    /// The state after a tick in which the spawner did as `spawn` says.
    pub open spec fn tick(self, spawn: Option<(u16, u16)>) -> ControllerView {
        self.with_spawn(spawn).advance()
    }

    /// What the server sends after such a tick.
    pub open spec fn tick_messages(self, spawn: Option<(u16, u16)>) -> Seq<OutgoingView> {
        self.with_spawn(spawn).advance_messages()
    }

    /// The state after an event. `spawn` says what the spawner did; it
    /// matters for a timeout only.
    pub open spec fn react(self, event: ChannelEventView, spawn: Option<(u16, u16)>) -> ControllerView {
        match event {
            ChannelEventView::Connect(user) => self.connect(user),
            ChannelEventView::Disconnect(user) => self.disconnect(user),
            ChannelEventView::Data(user, bytes) => self.data(user, bytes),
            ChannelEventView::Timeout => self.tick(spawn),
            ChannelEventView::Closed => self,
        }
    }

    /// What the server sends after an event.
    pub open spec fn react_messages(self, event: ChannelEventView, spawn: Option<(u16, u16)>) -> Seq<
        OutgoingView,
    > {
        match event {
            ChannelEventView::Data(user, bytes) => self.data_messages(user, bytes),
            ChannelEventView::Timeout => self.tick_messages(spawn),
            _ => Seq::empty(),
        }
    }
}

/// One death notice for each user of the list, in the same order.
pub open spec fn death_notices(died: Seq<Seq<char>>) -> Seq<OutgoingView> {
    Seq::new(
        died.len(),
        |i: int| OutgoingView::Send { user: died[i], message: ChannelMessageView::PlayerDied },
    )
}

} // verus!
