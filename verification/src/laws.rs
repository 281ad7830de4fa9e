//! What is proved of the server's state machine: every reaction keeps the
//! state well-formed, and the rules of joining, turning, eating, dying,
//! resetting and leading hold in every state.

use crate::connected::{is_least, lemma_has_least};
use crate::grid::{Direction, DEFAULT_GRID_SIZE};
use crate::identity::user_le;
use crate::messages::{ChannelEventView, ChannelMessageView, OutgoingView, PlayerMessage};
use crate::model::{death_notices, ControllerView};
use crate::registry::has_id;
use crate::sim::{
    casualties, dies, dies_at, doomed, lemma_casualties, lemma_death, lemma_eating,
    lemma_feed_apples, lemma_feed_shape, lemma_meal_lowers_count, lives,
};
use crate::snake::{
    all_have_heads, all_moved, distinct_ids, has_snake, lemma_filter_snakes, lemma_moved,
    other_than, SnakeView,
};
use crate::wire::{decoded_player_message, lemma_player_message_round_trip, player_message_bytes};
use vstd::prelude::*;

verus! {

/// Connecting keeps the state well-formed.
pub proof fn lemma_connect_wf(v: ControllerView, user: Seq<char>)
    requires
        v.wf(),
    ensures
        v.connect(user).wf(),
{
}

/// Disconnecting keeps the state well-formed.
pub proof fn lemma_disconnect_wf(v: ControllerView, user: Seq<char>)
    requires
        v.wf(),
    ensures
        v.disconnect(user).wf(),
{
    let w = v.disconnect(user);
    if v.registry.contains_key(user) {
        let id = v.registry[user];
        let old_snakes = v.session.snakes;
        let new_snakes = w.session.snakes;
        lemma_filter_snakes(old_snakes, other_than(id));
        assert forall|i: int| 0 <= i < new_snakes.len() implies has_id(
            w.registry,
            (#[trigger] new_snakes[i]).snake_id,
        ) by {
            let s = new_snakes[i];
            let a = choose|a: int| 0 <= a < old_snakes.len() && old_snakes[a] == s;
            let u = choose|u: Seq<char>| v.registry.contains_key(u) && v.registry[u] == s.snake_id;
            assert(w.registry.contains_key(u) && w.registry[u] == s.snake_id);
        }
        assert forall|u: Seq<char>| #[trigger] w.registry.contains_key(u) implies has_snake(
            new_snakes,
            w.registry[u],
        ) && w.registry[u] < w.next_id by {
            let a = choose|a: int|
                0 <= a < old_snakes.len() && (#[trigger] old_snakes[a]).snake_id == v.registry[u];
            let b = choose|b: int| 0 <= b < new_snakes.len() && new_snakes[b] == old_snakes[a];
        }
    } else {
        assert(w.registry =~= v.registry);
    }
}

/// Joining keeps the state well-formed.
pub proof fn lemma_join_wf(v: ControllerView, user: Seq<char>)
    requires
        v.wf(),
    ensures
        v.join(user).wf(),
{
    if v.admits(user) {
        let w = v.join(user);
        let id = v.next_id as u8;
        let old_snakes = v.session.snakes;
        let new_snakes = w.session.snakes;
        let n = old_snakes.len() as int;
        assert(new_snakes[n] == SnakeView::spawned(id));
        assert forall|i: int| 0 <= i < n implies (#[trigger] old_snakes[i]).snake_id < v.next_id by {
            let u = choose|u: Seq<char>|
                v.registry.contains_key(u) && v.registry[u] == old_snakes[i].snake_id;
        }
        assert forall|i: int| 0 <= i < new_snakes.len() implies (#[trigger] new_snakes[i]).wf() by {
            if i < n {
                assert(old_snakes[i].wf());
            }
        }
        assert forall|i: int, j: int| 0 <= i < j < new_snakes.len() implies (
        #[trigger] new_snakes[i]).snake_id != (#[trigger] new_snakes[j]).snake_id by {
            if j < n {
                assert(old_snakes[i].snake_id != old_snakes[j].snake_id);
            }
        }
        assert forall|i: int| 0 <= i < new_snakes.len() implies has_id(
            w.registry,
            (#[trigger] new_snakes[i]).snake_id,
        ) by {
            if i < n {
                let u = choose|u: Seq<char>|
                    v.registry.contains_key(u) && v.registry[u] == old_snakes[i].snake_id;
                assert(w.registry.contains_key(u) && w.registry[u] == new_snakes[i].snake_id);
            } else {
                assert(w.registry.contains_key(user) && w.registry[user] == id);
            }
        }
        assert forall|u: Seq<char>| #[trigger] w.registry.contains_key(u) implies has_snake(
            new_snakes,
            w.registry[u],
        ) && w.registry[u] < w.next_id by {
            if u == user {
                assert(new_snakes[n].snake_id == id);
            } else {
                let a = choose|a: int|
                    0 <= a < old_snakes.len() && (#[trigger] old_snakes[a]).snake_id
                        == v.registry[u];
                assert(new_snakes[a].snake_id == w.registry[u]);
            }
        }
        assert forall|a: Seq<char>, b: Seq<char>|
            w.registry.contains_key(a) && w.registry.contains_key(b) && w.registry[a]
                == w.registry[b] implies a == b by {
            if a != user {
                assert(v.registry.contains_key(a));
            }
            if b != user {
                assert(v.registry.contains_key(b));
            }
        }
    }
}

/// A change of facing keeps the state well-formed.
pub proof fn lemma_change_direction_wf(v: ControllerView, user: Seq<char>, wanted: Direction)
    requires
        v.wf(),
    ensures
        v.change_direction(user, wanted).wf(),
{
    if v.registry.contains_key(user) {
        let w = v.change_direction(user, wanted);
        let old_snakes = v.session.snakes;
        let new_snakes = w.session.snakes;
        assert forall|i: int| 0 <= i < new_snakes.len() implies (#[trigger] new_snakes[i]).wf()
            && new_snakes[i].snake_id == old_snakes[i].snake_id by {
        }
        assert forall|i: int, j: int| 0 <= i < j < new_snakes.len() implies (
        #[trigger] new_snakes[i]).snake_id != (#[trigger] new_snakes[j]).snake_id by {
        }
        assert forall|i: int| 0 <= i < new_snakes.len() implies has_id(
            w.registry,
            (#[trigger] new_snakes[i]).snake_id,
        ) by {
        }
        assert forall|u: Seq<char>| #[trigger] w.registry.contains_key(u) implies has_snake(
            new_snakes,
            w.registry[u],
        ) && w.registry[u] < w.next_id by {
            let a = choose|a: int|
                0 <= a < old_snakes.len() && (#[trigger] old_snakes[a]).snake_id == v.registry[u];
            assert(new_snakes[a].snake_id == w.registry[u]);
        }
    }
}

/// A reset keeps the state well-formed.
pub proof fn lemma_reset_wf(v: ControllerView)
    requires
        v.wf(),
    ensures
        v.reset().wf(),
{
}

/// Spawning an apple keeps the state well-formed.
pub proof fn lemma_with_spawn_wf(v: ControllerView, spawn: Option<(u16, u16)>)
    requires
        v.wf(),
        v.spawn_allowed(spawn),
    ensures
        v.with_spawn(spawn).wf(),
{
}

/// Moving, eating and dying keep the state well-formed.
pub proof fn lemma_advance_wf(v: ControllerView)
    requires
        v.wf(),
    ensures
        v.advance().wf(),
{
    let w = v.advance();
    let reg = v.registry;
    let old_snakes = v.session.snakes;
    let moved = all_moved(old_snakes, v.session.grid_size);
    let fed = v.fed_snakes();
    let new_snakes = w.session.snakes;
    assert forall|i: int| 0 <= i < moved.len() implies (#[trigger] moved[i]).wf() && moved[i].snake_id
        == old_snakes[i].snake_id by {
    }
    assert(distinct_ids(moved)) by {
        assert forall|i: int, j: int| 0 <= i < j < moved.len() implies (#[trigger] moved[i]).snake_id
            != (#[trigger] moved[j]).snake_id by {
        }
    }
    lemma_feed_shape(moved, v.session.apples);
    lemma_feed_apples(moved, v.session.apples);
    lemma_filter_snakes(fed, lives(reg));
    assert forall|i: int| 0 <= i < fed.len() implies (#[trigger] fed[i]).snake_id
        == old_snakes[i].snake_id by {
    }
    assert forall|i: int| 0 <= i < new_snakes.len() implies has_id(
        w.registry,
        (#[trigger] new_snakes[i]).snake_id,
    ) by {
        let s = new_snakes[i];
        let a = choose|a: int| 0 <= a < fed.len() && fed[a] == s;
        let u = choose|u: Seq<char>| reg.contains_key(u) && reg[u] == s.snake_id;
        if doomed(fed, reg, s.snake_id) {
            let b = choose|b: int| dies_at(fed, reg, s.snake_id, b);
            if a != b {
                assert(fed[a].snake_id != fed[b].snake_id);
            }
        }
        assert(w.registry.contains_key(u) && w.registry[u] == s.snake_id);
    }
    assert forall|u: Seq<char>| #[trigger] w.registry.contains_key(u) implies has_snake(
        new_snakes,
        w.registry[u],
    ) && w.registry[u] < w.next_id by {
        let a = choose|a: int|
            0 <= a < old_snakes.len() && (#[trigger] old_snakes[a]).snake_id == reg[u];
        if dies(fed[a], reg) {
            assert(dies_at(fed, reg, reg[u], a));
        }
        let b = choose|b: int| 0 <= b < new_snakes.len() && new_snakes[b] == fed[a];
    }
}

/// A user's request to turn reaches the user's own snake and no other: a
/// request for the opposite of the snake's facing leaves the facing as it
/// is, any other request becomes the new facing.
pub proof fn lemma_change_direction(v: ControllerView, user: Seq<char>, wanted: Direction, i: int)
    requires
        v.wf(),
        v.registry.contains_key(user),
        0 <= i < v.session.snakes.len(),
    ensures
        v.change_direction(user, wanted).session.snakes.len() == v.session.snakes.len(),
        v.session.snakes[i].snake_id == v.registry[user] ==> {
            let before = v.session.snakes[i];
            let after = v.change_direction(user, wanted).session.snakes[i];
            &&& after == before.turned(wanted)
            &&& wanted == before.direction.spec_opposite() ==> after.direction == before.direction
            &&& wanted != before.direction.spec_opposite() ==> after.direction == wanted
        },
        v.session.snakes[i].snake_id != v.registry[user] ==> v.change_direction(
            user,
            wanted,
        ).session.snakes[i] == v.session.snakes[i],
{
    let snakes = v.session.snakes;
    let id = v.registry[user];
    if snakes[i].snake_id == id {
        assert forall|j: int| 0 <= j < i implies (#[trigger] snakes[j]).snake_id != id by {
        }
    }
}

/// A `JoinGame` from a user who owns a snake changes nothing: no snake is
/// added, the registry keeps its entries, and no acknowledgement goes out.
pub proof fn lemma_join_again(v: ControllerView, user: Seq<char>)
    requires
        v.registry.contains_key(user),
    ensures
        v.join(user) == v,
        v.join(user).session.snakes.len() == v.session.snakes.len(),
        v.join(user).registry.dom() == v.registry.dom(),
        v.data(user, player_message_bytes(PlayerMessage::JoinGame)) == v,
        v.data_messages(user, player_message_bytes(PlayerMessage::JoinGame)) == Seq::<
            OutgoingView,
        >::empty(),
{
    lemma_player_message_round_trip(PlayerMessage::JoinGame);
}

/// A first `JoinGame` gives the user a snake of five segments on the start
/// cell, facing right, registers the user and acknowledges.
pub proof fn lemma_first_join(v: ControllerView, user: Seq<char>)
    requires
        v.wf(),
        v.admits(user),
    ensures
        v.join(user).session.snakes.len() == v.session.snakes.len() + 1,
        v.join(user).session.snakes.last() == SnakeView::spawned(v.next_id as u8),
        v.join(user).registry.contains_key(user),
        v.join(user).registry[user] == v.next_id,
        v.join(user).next_id == v.next_id + 1,
        v.data_messages(user, player_message_bytes(PlayerMessage::JoinGame)) == seq![
            OutgoingView::Send { user, message: ChannelMessageView::PlayerJoined },
        ],
{
    lemma_player_message_round_trip(PlayerMessage::JoinGame);
}

/// Whatever the state, a reset leaves no snake, no apple and no registry
/// entry, and the default cell size.
pub proof fn lemma_reset(v: ControllerView)
    ensures
        v.reset().session.snakes == Seq::<SnakeView>::empty(),
        v.reset().session.apples == Seq::<(u16, u16)>::empty(),
        v.reset().registry == Map::<Seq<char>, u8>::empty(),
        v.reset().session.grid_size == DEFAULT_GRID_SIZE,
        v.reset().next_id == v.next_id,
        v.data(v.leader, player_message_bytes(PlayerMessage::ResetGame)) == v.reset(),
{
    lemma_player_message_round_trip(PlayerMessage::ResetGame);
}

/// When the only connected user leads the session and disconnects, nobody
/// leads any more; the next user to connect becomes the leader.
pub proof fn lemma_sole_leader_leaves(v: ControllerView, leader: Seq<char>, newcomer: Seq<char>)
    requires
        v.leader == leader,
        v.connected == set![leader],
    ensures
        v.disconnect(leader).leader == Seq::<char>::empty(),
        v.disconnect(leader).connected == Set::<Seq<char>>::empty(),
        v.disconnect(leader).connect(newcomer).leader == newcomer,
        v.disconnect(leader).connect(newcomer).connected == set![newcomer],
{
    assert(v.connected.remove(leader) =~= Set::<Seq<char>>::empty());
}

/// When a leader disconnects and others stay connected, the one that sorts
/// first among them takes over.
pub proof fn lemma_leader_succession(v: ControllerView, user: Seq<char>, other: Seq<char>)
    requires
        v.connected.finite(),
        v.leader == user,
        v.connected.contains(other),
        other != user,
    ensures
        is_least(v.connected.remove(user), v.disconnect(user).leader),
        user_le(v.disconnect(user).leader, other),
{
    let rest = v.connected.remove(user);
    if rest.len() == 0 {
        assert(rest =~= Set::<Seq<char>>::empty());
    }
    lemma_has_least(rest);
}

/// A snake that, after moving and eating, has its head on its own body is
/// gone after the tick: it is no longer among the live snakes, its owner has
/// left the registry, and a death notice goes to its owner.
pub proof fn lemma_tick_death(v: ControllerView, i: int, owner: Seq<char>)
    requires
        v.wf(),
        0 <= i < v.session.snakes.len(),
        v.fed_snakes()[i].bites_itself(),
        v.registry.contains_key(owner),
        v.registry[owner] == v.session.snakes[i].snake_id,
    ensures
        !has_snake(v.advance().session.snakes, v.session.snakes[i].snake_id),
        !v.advance().registry.contains_key(owner),
        v.advance_messages().contains(
            OutgoingView::Send { user: owner, message: ChannelMessageView::PlayerDied },
        ),
{
    let snakes = v.session.snakes;
    let moved = all_moved(snakes, v.session.grid_size);
    let fed = v.fed_snakes();
    assert forall|k: int| 0 <= k < moved.len() implies (#[trigger] moved[k]).wf() && moved[k].snake_id
        == snakes[k].snake_id by {
    }
    assert(distinct_ids(moved)) by {
        assert forall|a: int, b: int| 0 <= a < b < moved.len() implies (#[trigger] moved[a]).snake_id
            != (#[trigger] moved[b]).snake_id by {
        }
    }
    lemma_feed_shape(moved, v.session.apples);
    lemma_death(fed, v.registry, i, owner);
    let told = casualties(fed, v.registry);
    let k = choose|k: int| 0 <= k < told.len() && told[k] == owner;
    let notices = death_notices(told);
    assert(v.advance_messages()[k] == notices[k]);
}

/// The death notices of a tick go to the owners of the snakes that died, one
/// to each, and the last message of a tick is the new world for everybody.
pub proof fn lemma_tick_messages(v: ControllerView)
    requires
        v.wf(),
    ensures
        v.advance_messages().len() == casualties(v.fed_snakes(), v.registry).len() + 1,
        v.advance_messages().last() == (OutgoingView::Broadcast {
            message: ChannelMessageView::StateUpdate(v.advance().session),
        }),
        casualties(v.fed_snakes(), v.registry).no_duplicates(),
        forall|k: int|
            0 <= k < casualties(v.fed_snakes(), v.registry).len() ==> {
                let u = casualties(v.fed_snakes(), v.registry)[k];
                &&& #[trigger] v.advance_messages()[k] == (OutgoingView::Send {
                    user: u,
                    message: ChannelMessageView::PlayerDied,
                })
                &&& v.registry.contains_key(u)
                &&& doomed(v.fed_snakes(), v.registry, v.registry[u])
            },
{
    let snakes = v.session.snakes;
    let moved = all_moved(snakes, v.session.grid_size);
    let fed = v.fed_snakes();
    assert forall|k: int| 0 <= k < moved.len() implies (#[trigger] moved[k]).wf() && moved[k].snake_id
        == snakes[k].snake_id by {
    }
    assert(distinct_ids(moved)) by {
        assert forall|a: int, b: int| 0 <= a < b < moved.len() implies (#[trigger] moved[a]).snake_id
            != (#[trigger] moved[b]).snake_id by {
        }
    }
    lemma_feed_shape(moved, v.session.apples);
    lemma_casualties(fed, v.registry);
    let told = casualties(fed, v.registry);
    assert forall|k: int| 0 <= k < told.len() implies {
        let u = told[k];
        &&& #[trigger] v.advance_messages()[k] == (OutgoingView::Send {
            user: u,
            message: ChannelMessageView::PlayerDied,
        })
        &&& v.registry.contains_key(u)
        &&& doomed(fed, v.registry, v.registry[u])
    } by {
    }
}

/// A snake whose head, after the move, lands on an apple that no earlier
/// snake reaches in the same tick grows by exactly one segment, and the
/// apple is gone after the tick.
pub proof fn lemma_tick_eating(v: ControllerView, i: int)
    requires
        v.wf(),
        0 <= i < v.session.snakes.len(),
        v.session.apples.contains(v.session.snakes[i].moved(v.session.grid_size).head()),
        forall|j: int|
            0 <= j < i ==> (#[trigger] v.session.snakes[j]).moved(v.session.grid_size).head()
                != v.session.snakes[i].moved(v.session.grid_size).head(),
    ensures
        v.fed_snakes()[i] == v.session.snakes[i].moved(v.session.grid_size).grown(),
        v.fed_snakes()[i].positions.len() == v.session.snakes[i].positions.len() + 1,
        !v.advance().session.apples.contains(
            v.session.snakes[i].moved(v.session.grid_size).head(),
        ),
        v.advance().session.apples.len() < v.session.apples.len(),
{
    let g = v.session.grid_size;
    let snakes = v.session.snakes;
    let apples = v.session.apples;
    let moved = all_moved(snakes, g);
    assert(all_have_heads(moved)) by {
        assert forall|k: int| 0 <= k < moved.len() implies (#[trigger] moved[k]).wf() by {
        }
    }
    assert forall|j: int| 0 <= j < i implies (#[trigger] moved[j]).head() != moved[i].head() by {
    }
    lemma_eating(moved, apples, i);
    assert(snakes[i].moved(g).positions.len() == snakes[i].positions.len()) by {
        lemma_moved(snakes[i], g);
    }
    lemma_meal_lowers_count(moved, apples, i);
}

/// Identifiers are handed out forwards only: no reaction, a reset included,
/// lowers the identifier that the next snake gets.
pub proof fn lemma_identifiers_forward(
    v: ControllerView,
    event: ChannelEventView,
    spawn: Option<(u16, u16)>,
)
    ensures
        v.react(event, spawn).next_id >= v.next_id,
{
}

/// Every live snake carries an identifier below the one that the next snake
/// gets: a new snake never shares its identifier with a live one.
pub proof fn lemma_live_identifiers_are_used(v: ControllerView, i: int)
    requires
        v.wf(),
        0 <= i < v.session.snakes.len(),
    ensures
        v.session.snakes[i].snake_id < v.next_id,
{
    let id = v.session.snakes[i].snake_id;
    let u = choose|u: Seq<char>| v.registry.contains_key(u) && v.registry[u] == id;
    assert(v.registry.contains_key(u));
}

/// Every reaction keeps the state well-formed: what holds of the state of a
/// server that has just started holds of every state it reaches.
pub proof fn lemma_react_wf(v: ControllerView, event: ChannelEventView, spawn: Option<(u16, u16)>)
    requires
        v.wf(),
        event is Timeout ==> v.spawn_allowed(spawn),
    ensures
        ControllerView::initial().wf(),
        v.react(event, spawn).wf(),
{
    match event {
        ChannelEventView::Connect(user) => {
            lemma_connect_wf(v, user);
        },
        ChannelEventView::Disconnect(user) => {
            lemma_disconnect_wf(v, user);
        },
        ChannelEventView::Data(user, bytes) => {
            match decoded_player_message(bytes) {
                Some(PlayerMessage::JoinGame) => {
                    lemma_join_wf(v, user);
                },
                Some(PlayerMessage::ChangeDirection { dir }) => {
                    lemma_change_direction_wf(v, user, dir);
                },
                Some(PlayerMessage::ResetGame) => {
                    lemma_reset_wf(v);
                },
                None => {},
            }
        },
        ChannelEventView::Timeout => {
            lemma_with_spawn_wf(v, spawn);
            lemma_advance_wf(v.with_spawn(spawn));
        },
        ChannelEventView::Closed => {},
    }
}

} // verus!
