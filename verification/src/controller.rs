//! The session controller: the state of one game server and its reaction to
//! each transport event.
//!
//! The controller never waits and never sends. Whoever runs the event loop
//! hands it one event at a time and delivers the messages it returns.

use crate::connected::ConnectedUsers;
use crate::decode::decode_player_message;
use crate::grid::Direction;
use crate::laws::{
    lemma_advance_wf, lemma_change_direction_wf, lemma_disconnect_wf, lemma_join_wf,
    lemma_with_spawn_wf,
};
use crate::messages::{
    outgoing_view, ChannelEvent, ChannelMessageView, Outgoing, OutgoingView, PlayerMessage,
    SnakeChannelMessage,
};
use crate::model::ControllerView;
use crate::registry::{has_id, PlayerRegistry};
use crate::session::SnakeSession;
use crate::sim::check_for_overlaps;
use crate::snake::{all_moved, init_snake, move_snakes, remove_snake, turn_snake};
use crate::spawn::{candidate_cell, create_new_apple, is_free, place_apple};
use vstd::prelude::*;

verus! {

/// The state of one game server.
#[derive(Debug)]
pub struct SnakeController {
    connected: ConnectedUsers,
    driver: String,
    next_id: u16,
    player_snake_ids: PlayerRegistry,
    state: SnakeSession,
}

impl View for SnakeController {
    type V = ControllerView;

    closed spec fn view(&self) -> ControllerView {
        ControllerView {
            connected: self.connected@,
            leader: self.driver@,
            next_id: self.next_id as int,
            registry: self.player_snake_ids@,
            session: self.state@,
        }
    }
}

impl SnakeController {
    /// The representation is sound and the state is one that a server can
    /// reach.
    pub closed spec fn wf(&self) -> bool {
        &&& self.connected.wf()
        &&& self.player_snake_ids.wf()
        &&& self@.wf()
    }

    /// A sound controller has a well-formed value.
    pub proof fn lemma_wf(&self)
        requires
            self.wf(),
        ensures
            self@.wf(),
    {
    }

    /// Creates the controller of a server that has just started.
    pub fn new() -> (c: SnakeController)
        ensures
            c.wf(),
            c@ == ControllerView::initial(),
    {
        SnakeController {
            connected: ConnectedUsers::new(),
            driver: String::new(),
            next_id: 0,
            player_snake_ids: PlayerRegistry::new(),
            state: SnakeSession::new(),
        }
    }

    /// The world as it stands.
    pub fn session(&self) -> (s: &SnakeSession)
        ensures
            s@ == self@.session,
    {
        &self.state
    }

    /// The player registry as it stands.
    pub fn registry(&self) -> (r: &PlayerRegistry)
        requires
            self.wf(),
        ensures
            r.wf(),
            r@ == self@.registry,
    {
        &self.player_snake_ids
    }

    /// The connected users as they stand.
    pub fn connected(&self) -> (r: &ConnectedUsers)
        requires
            self.wf(),
        ensures
            r.wf(),
            r@ == self@.connected,
    {
        &self.connected
    }

    /// The session leader; the empty string stands for "nobody".
    pub fn leader(&self) -> (r: &String)
        ensures
            r@ == self@.leader,
    {
        &self.driver
    }

    /// The identifier that the next new snake gets; 256 when none is left.
    pub fn next_id(&self) -> (r: u16)
        ensures
            r == self@.next_id,
    {
        self.next_id
    }

    /// Reacts to a new connection.
    pub fn on_connect(&mut self, user: String)
        requires
            old(self).wf(),
        ensures
            final(self).wf(),
            final(self)@ == old(self)@.connect(user@),
    {
        if self.driver.as_str().is_empty() {
            self.driver = user.clone();
        }
        self.connected.insert(user);
    }

    /// Reacts to the loss of a connection. No death notice goes out: the
    /// user is gone.
    pub fn on_disconnect(&mut self, user: &String)
        requires
            old(self).wf(),
        ensures
            final(self).wf(),
            final(self)@ == old(self)@.disconnect(user@),
    {
        proof {
            lemma_disconnect_wf(self@, user@);
        }
        self.connected.remove(user);
        if self.driver == *user {
            match self.connected.least() {
                Some(next) => {
                    self.driver = next;
                },
                None => {
                    self.driver = String::new();
                },
            }
        }
        match self.player_snake_ids.get(user) {
            Some(snake_id) => {
                remove_snake(&mut self.state.snakes, snake_id);
            },
            None => {},
        }
        self.player_snake_ids.remove(user);
    }

    /// Gives `user` a snake, unless the user owns one already or no
    /// identifier is left. Returns whether the user has joined and is owed
    /// an acknowledgement.
    pub fn join(&mut self, user: String) -> (joined: bool)
        requires
            old(self).wf(),
        ensures
            final(self).wf(),
            joined == old(self)@.admits(user@),
            final(self)@ == old(self)@.join(user@),
    {
        proof {
            lemma_join_wf(self@, user@);
        }
        if self.player_snake_ids.contains_key(&user) || self.next_id > 255 {
            return false;
        }
        let snake_id = self.next_id as u8;
        proof {
            let reg = self.player_snake_ids@;
            if has_id(reg, snake_id) {
                let u = choose|u: Seq<char>| reg.contains_key(u) && reg[u] == snake_id;
            }
        }
        init_snake(&mut self.state.snakes, snake_id);
        self.player_snake_ids.insert(user, snake_id);
        self.next_id += 1;
        true
    }

    /// Asks the snake of `user` to face `wanted`. A reversal is refused, and
    /// a user without a snake is ignored.
    pub fn change_direction(&mut self, user: &String, wanted: Direction)
        requires
            old(self).wf(),
        ensures
            final(self).wf(),
            final(self)@ == old(self)@.change_direction(user@, wanted),
    {
        proof {
            lemma_change_direction_wf(self@, user@, wanted);
        }
        match self.player_snake_ids.get(user) {
            Some(snake_id) => {
                turn_snake(&mut self.state.snakes, snake_id, wanted);
            },
            None => {},
        }
    }

    /// Starts the game over: every snake, apple and registry entry is
    /// dropped and the cell size is the default again. Identifiers that were
    /// handed out are not handed out again.
    pub fn reset(&mut self)
        requires
            old(self).wf(),
        ensures
            final(self).wf(),
            final(self)@ == old(self)@.reset(),
    {
        self.state = SnakeSession::new();
        self.player_snake_ids.clear();
    }

    /// Reacts to bytes from `user`. Bytes that hold no message are dropped.
    pub fn on_data(&mut self, user: String, data: &[u8]) -> (out: Vec<Outgoing>)
        requires
            old(self).wf(),
        ensures
            final(self).wf(),
            final(self)@ == old(self)@.data(user@, data@),
            outgoing_view(out@) == old(self)@.data_messages(user@, data@),
    {
        let mut out: Vec<Outgoing> = Vec::new();
        match decode_player_message(data) {
            Some(PlayerMessage::JoinGame) => {
                let addressee = user.clone();
                if self.join(user) {
                    out.push(
                        Outgoing::Send {
                            user: addressee,
                            message: SnakeChannelMessage::PlayerJoined(),
                        },
                    );
                }
            },
            Some(PlayerMessage::ChangeDirection { dir }) => {
                self.change_direction(&user, dir);
            },
            Some(PlayerMessage::ResetGame) => {
                self.reset();
            },
            None => {},
        }
        out
    }

    /// Tries to spawn an apple on the cell that the draws `rx` and `ry`
    /// stand for. The apple is placed if no apple exists and no snake covers
    /// the cell. Returns whether it was placed.
    pub fn spawn_apple_at(&mut self, rx: u16, ry: u16) -> (placed: bool)
        requires
            old(self).wf(),
        ensures
            final(self).wf(),
            placed == (old(self)@.session.apples.len() == 0 && is_free(
                old(self)@.session.snakes,
                candidate_cell(rx, ry, old(self)@.session.grid_size),
            )),
            final(self)@ == old(self)@.with_spawn(
                if placed {
                    Some(candidate_cell(rx, ry, old(self)@.session.grid_size))
                } else {
                    None
                },
            ),
            placed ==> old(self)@.spawn_allowed(
                Some(candidate_cell(rx, ry, old(self)@.session.grid_size)),
            ),
    {
        if self.state.apples.len() != 0 {
            return false;
        }
        place_apple(&self.state.snakes, &mut self.state.apples, self.state.grid_size, rx, ry)
            .is_some()
    }

    /// Moves every snake one cell, lets it eat and removes the snakes that
    /// ran into themselves. Returns a death notice for the owner of each
    /// dead snake, followed by the new world for everybody.
    pub fn advance(&mut self) -> (out: Vec<Outgoing>)
        requires
            old(self).wf(),
        ensures
            final(self).wf(),
            final(self)@ == old(self)@.advance(),
            outgoing_view(out@) == old(self)@.advance_messages(),
    {
        proof {
            lemma_advance_wf(self@);
            let moved = all_moved(self@.session.snakes, self@.session.grid_size);
            assert forall|i: int| 0 <= i < moved.len() implies (#[trigger] moved[i]).wf() by {
            }
            assert forall|i: int, j: int| 0 <= i < j < moved.len() implies (
            #[trigger] moved[i]).snake_id != (#[trigger] moved[j]).snake_id by {
            }
        }
        move_snakes(&mut self.state.snakes, self.state.grid_size);
        let died = check_for_overlaps(
            &mut self.state.snakes,
            &mut self.state.apples,
            &mut self.player_snake_ids,
            &mut self.driver,
        );
        let mut out: Vec<Outgoing> = Vec::new();
        let mut i: usize = 0;
        while i < died.len()
            invariant
                i <= died.len(),
                out@.len() == i,
                forall|k: int|
                    0 <= k < i ==> (#[trigger] out@[k])@ == (OutgoingView::Send {
                        user: died@[k]@,
                        message: ChannelMessageView::PlayerDied,
                    }),
            decreases died.len() - i,
        {
            out.push(
                Outgoing::Send { user: died[i].clone(), message: SnakeChannelMessage::PlayerDied() },
            );
            i += 1;
        }
        out.push(Outgoing::Broadcast { message: SnakeChannelMessage::StateUpdate(self.state.snapshot()) });
        out
    }

    /// Reacts to a tick: spawns an apple if none exists, then advances the
    /// world. Where the apple lands is for the random source to say; the
    /// contract holds whatever it said.
    pub fn on_tick(&mut self) -> (out: Vec<Outgoing>)
        requires
            old(self).wf(),
        ensures
            final(self).wf(),
            exists|spawn: Option<(u16, u16)>|
                {
                    &&& old(self)@.spawn_allowed(spawn)
                    &&& final(self)@ == #[trigger] old(self)@.tick(spawn)
                    &&& outgoing_view(out@) == old(self)@.tick_messages(spawn)
                },
    {
        let mut spawn: Option<(u16, u16)> = None;
        if self.state.apples.len() == 0 {
            spawn = create_new_apple(
                &self.state.snakes,
                &mut self.state.apples,
                self.state.grid_size,
            );
        }
        proof {
            lemma_with_spawn_wf(old(self)@, spawn);
        }
        let out = self.advance();
        proof {
            assert(self@ == old(self)@.tick(spawn));
        }
        out
    }

    /// Reacts to one transport event and returns the messages to deliver, in
    /// order, and whether the event loop goes on. A failure of the transport
    /// ends the loop and leaves the state as it is.
    pub fn handle(&mut self, event: ChannelEvent) -> (r: (Vec<Outgoing>, bool))
        requires
            old(self).wf(),
        ensures
            final(self).wf(),
            r.1 == !(event@ is Closed),
            exists|spawn: Option<(u16, u16)>|
                {
                    &&& event@ is Timeout ==> old(self)@.spawn_allowed(spawn)
                    &&& final(self)@ == #[trigger] old(self)@.react(event@, spawn)
                    &&& outgoing_view(r.0@) == old(self)@.react_messages(event@, spawn)
                },
    {
        match event {
            ChannelEvent::Connect(user) => {
                self.on_connect(user);
                let out: Vec<Outgoing> = Vec::new();
                assert(self@ == old(self)@.react(event@, None));
                (out, true)
            },
            ChannelEvent::Disconnect(user) => {
                self.on_disconnect(&user);
                let out: Vec<Outgoing> = Vec::new();
                assert(self@ == old(self)@.react(event@, None));
                (out, true)
            },
            ChannelEvent::Data(user, bytes) => {
                let out = self.on_data(user, bytes.as_slice());
                assert(self@ == old(self)@.react(event@, None));
                (out, true)
            },
            ChannelEvent::Timeout => {
                let out = self.on_tick();
                proof {
                    let spawn = choose|spawn: Option<(u16, u16)>|
                        {
                            &&& old(self)@.spawn_allowed(spawn)
                            &&& self@ == #[trigger] old(self)@.tick(spawn)
                            &&& outgoing_view(out@) == old(self)@.tick_messages(spawn)
                        };
                    assert(self@ == old(self)@.react(event@, spawn));
                }
                (out, true)
            },
            ChannelEvent::Closed => {
                let out: Vec<Outgoing> = Vec::new();
                assert(self@ == old(self)@.react(event@, None));
                (out, false)
            },
        }
    }
}

} // verus!
