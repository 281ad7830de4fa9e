//! Writing messages in the wire format.

use crate::grid::Direction;
use crate::messages::{PlayerMessage, SnakeChannelMessage};
use crate::session::SnakeSession;
use crate::snake::{snakes_view, Snake};
use crate::wire::{
    cell_list_bytes, cells_bytes, channel_message_bytes, direction_tag, fits_length,
    message_encodable, player_message_bytes, session_bytes, session_encodable, snake_bytes,
    snakes_bytes, u16_bytes, u32_bytes,
};
use vstd::prelude::*;

verus! {

/// Appends the bytes of a 16-bit integer.
fn put_u16(out: &mut Vec<u8>, v: u16)
    ensures
        final(out)@ == old(out)@ + u16_bytes(v),
{
    out.push((v % 256) as u8);
    out.push((v / 256) as u8);
}

/// Appends the bytes of a 32-bit integer.
fn put_u32(out: &mut Vec<u8>, v: u32)
    ensures
        final(out)@ == old(out)@ + u32_bytes(v),
{
    out.push((v % 256) as u8);
    out.push((v / 256 % 256) as u8);
    out.push((v / 65536 % 256) as u8);
    out.push((v / 16777216) as u8);
}

/// Returns the tag of a facing.
fn tag_of_direction(d: Direction) -> (t: u8)
    ensures
        t == direction_tag(d),
{
    match d {
        Direction::Up => 0,
        Direction::Down => 1,
        Direction::Left => 2,
        Direction::Right => 3,
    }
}

/// Appends the bytes of a list of cells.
fn put_cell_list(out: &mut Vec<u8>, cells: &Vec<(u16, u16)>)
    requires
        fits_length(cells@.len()),
    ensures
        final(out)@ == old(out)@ + cell_list_bytes(cells@),
{
    put_u32(out, cells.len() as u32);
    let ghost head = out@;
    let mut i: usize = 0;
    while i < cells.len()
        invariant
            i <= cells.len(),
            out@ == head + cells_bytes(cells@.take(i as int)),
        decreases cells.len() - i,
    {
        let c = cells[i];
        put_u16(out, c.0);
        put_u16(out, c.1);
        proof {
            assert(cells@.take(i + 1).drop_last() =~= cells@.take(i as int));
        }
        i += 1;
    }
    proof {
        assert(cells@.take(i as int) =~= cells@);
    }
}

/// Appends the bytes of a snake.
fn put_snake(out: &mut Vec<u8>, snake: &Snake)
    requires
        fits_length(snake@.positions.len()),
    ensures
        final(out)@ == old(out)@ + snake_bytes(snake@),
{
    put_cell_list(out, &snake.positions);
    out.push(tag_of_direction(snake.direction));
    out.push(snake.snake_id);
}

/// Tells whether every list of the world state has a length that can be
/// written.
pub fn session_is_encodable(session: &SnakeSession) -> (b: bool)
    ensures
        b == session_encodable(session@),
{
    if session.snakes.len() > u32::MAX as usize || session.apples.len() > u32::MAX as usize {
        return false;
    }
    let mut i: usize = 0;
    while i < session.snakes.len()
        invariant
            i <= session.snakes.len(),
            fits_length(session@.snakes.len()),
            fits_length(session@.apples.len()),
            forall|k: int| 0 <= k < i ==> fits_length((#[trigger] session@.snakes[k]).positions.len()),
        decreases session.snakes.len() - i,
    {
        if session.snakes[i].positions.len() > u32::MAX as usize {
            assert(!fits_length(session@.snakes[i as int].positions.len()));
            return false;
        }
        i += 1;
    }
    true
}

/// Appends the bytes of a world state.
fn put_session(out: &mut Vec<u8>, session: &SnakeSession)
    requires
        session_encodable(session@),
    ensures
        final(out)@ == old(out)@ + session_bytes(session@),
{
    put_u16(out, session.grid_size);
    put_u32(out, session.snakes.len() as u32);
    let ghost head = out@;
    let ghost all = session@.snakes;
    let mut i: usize = 0;
    while i < session.snakes.len()
        invariant
            i <= session.snakes.len(),
            all == snakes_view(session.snakes@),
            session_encodable(session@),
            out@ == head + snakes_bytes(all.take(i as int)),
        decreases session.snakes.len() - i,
    {
        assert(fits_length(session@.snakes[i as int].positions.len()));
        put_snake(out, &session.snakes[i]);
        proof {
            assert(all.take(i + 1).drop_last() =~= all.take(i as int));
        }
        i += 1;
    }
    put_cell_list(out, &session.apples);
    proof {
        assert(all.take(i as int) =~= all);
    }
}

/// Writes a player's message.
pub fn encode_player_message(m: PlayerMessage) -> (bytes: Vec<u8>)
    ensures
        bytes@ == player_message_bytes(m),
{
    let mut out: Vec<u8> = Vec::new();
    match m {
        PlayerMessage::JoinGame => {
            out.push(0);
        },
        PlayerMessage::ChangeDirection { dir } => {
            out.push(1);
            out.push(tag_of_direction(dir));
        },
        PlayerMessage::ResetGame => {
            out.push(2);
        },
    }
    out
}

/// Writes a server's message. `None` is returned when a list of the message
/// is too long for its length field.
pub fn encode_channel_message(m: &SnakeChannelMessage) -> (r: Option<Vec<u8>>)
    ensures
        match r {
            Some(bytes) => message_encodable(m@) && bytes@ == channel_message_bytes(m@),
            None => !message_encodable(m@),
        },
{
    let mut out: Vec<u8> = Vec::new();
    match m {
        SnakeChannelMessage::StateUpdate(session) => {
            if !session_is_encodable(session) {
                return None;
            }
            out.push(0);
            put_session(&mut out, session);
        },
        SnakeChannelMessage::PlayerJoined() => {
            out.push(1);
        },
        SnakeChannelMessage::PlayerDied() => {
            out.push(2);
        },
    }
    Some(out)
}

} // verus!
