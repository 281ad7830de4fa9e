//! The wire format of the messages.
//!
//! Every value is written field by field in declaration order. An enum
//! starts with one byte that holds the index of its variant. Integers are
//! written in fixed width, least significant byte first. A list starts with
//! its length as a 32-bit integer, and a pair is its two parts side by side.
//!
//! This module says which bytes stand for which value and proves that no
//! two values share their bytes. Writing and reading are in
//! [`crate::encode`] and [`crate::decode`].

use crate::grid::Direction;
use crate::messages::{ChannelMessageView, PlayerMessage};
use crate::session::SessionView;
use crate::snake::SnakeView;
use vstd::prelude::*;

verus! {

/// The two bytes of a 16-bit integer.
pub open spec fn u16_bytes(v: u16) -> Seq<u8> {
    seq![(v % 256) as u8, (v / 256) as u8]
}

/// The four bytes of a 32-bit integer.
pub open spec fn u32_bytes(v: u32) -> Seq<u8> {
    seq![
        (v % 256) as u8,
        (v / 256 % 256) as u8,
        (v / 65536 % 256) as u8,
        (v / 16777216) as u8,
    ]
}

/// The tag of a facing.
pub open spec fn direction_tag(d: Direction) -> u8 {
    match d {
        Direction::Up => 0,
        Direction::Down => 1,
        Direction::Left => 2,
        Direction::Right => 3,
    }
}

/// The four bytes of a cell: column, then row.
pub open spec fn cell_bytes(c: (u16, u16)) -> Seq<u8> {
    u16_bytes(c.0) + u16_bytes(c.1)
}

/// The bytes of the cells of a list, one after the other.
pub open spec fn cells_bytes(cells: Seq<(u16, u16)>) -> Seq<u8>
    decreases cells.len(),
{
    if cells.len() == 0 {
        Seq::empty()
    } else {
        cells_bytes(cells.drop_last()) + cell_bytes(cells.last())
    }
}

/// The bytes of a list of cells: its length, then its cells.
pub open spec fn cell_list_bytes(cells: Seq<(u16, u16)>) -> Seq<u8> {
    u32_bytes(cells.len() as u32) + cells_bytes(cells)
}

/// The bytes of a snake: body, facing, identifier.
pub open spec fn snake_bytes(s: SnakeView) -> Seq<u8> {
    cell_list_bytes(s.positions) + seq![direction_tag(s.direction), s.snake_id]
}

/// The bytes of the snakes of a list, one after the other.
pub open spec fn snakes_bytes(snakes: Seq<SnakeView>) -> Seq<u8>
    decreases snakes.len(),
{
    if snakes.len() == 0 {
        Seq::empty()
    } else {
        snakes_bytes(snakes.drop_last()) + snake_bytes(snakes.last())
    }
}

/// The bytes of a world state: cell size, snakes, apples.
pub open spec fn session_bytes(s: SessionView) -> Seq<u8> {
    u16_bytes(s.grid_size) + u32_bytes(s.snakes.len() as u32) + snakes_bytes(s.snakes)
        + cell_list_bytes(s.apples)
}

/// The bytes of a player's message.
pub open spec fn player_message_bytes(m: PlayerMessage) -> Seq<u8> {
    match m {
        PlayerMessage::JoinGame => seq![0u8],
        PlayerMessage::ChangeDirection { dir } => seq![1u8, direction_tag(dir)],
        PlayerMessage::ResetGame => seq![2u8],
    }
}

/// The bytes of a server's message.
pub open spec fn channel_message_bytes(m: ChannelMessageView) -> Seq<u8> {
    match m {
        ChannelMessageView::StateUpdate(s) => seq![0u8] + session_bytes(s),
        ChannelMessageView::PlayerJoined => seq![1u8],
        ChannelMessageView::PlayerDied => seq![2u8],
    }
}

/// A list length that the 32-bit length field can hold.
pub open spec fn fits_length(n: nat) -> bool {
    n <= u32::MAX
}

/// Every snake of the list has a body whose length can be written.
pub open spec fn snakes_encodable(snakes: Seq<SnakeView>) -> bool {
    forall|i: int| 0 <= i < snakes.len() ==> fits_length((#[trigger] snakes[i]).positions.len())
}

/// Every list of the world state has a length that can be written.
pub open spec fn session_encodable(s: SessionView) -> bool {
    &&& fits_length(s.snakes.len())
    &&& fits_length(s.apples.len())
    &&& forall|i: int| 0 <= i < s.snakes.len() ==> fits_length((#[trigger] s.snakes[i]).positions.len())
}

/// Every list of the message has a length that can be written.
pub open spec fn message_encodable(m: ChannelMessageView) -> bool {
    match m {
        ChannelMessageView::StateUpdate(s) => session_encodable(s),
        _ => true,
    }
}

/// The player's message that the bytes hold, if they are exactly the bytes
/// of one.
pub open spec fn decoded_player_message(bytes: Seq<u8>) -> Option<PlayerMessage> {
    if exists|m: PlayerMessage| bytes == player_message_bytes(m) {
        Some(choose|m: PlayerMessage| bytes == player_message_bytes(m))
    } else {
        None
    }
}

/// The server's message that the bytes hold, if they are exactly the bytes
/// of one.
pub open spec fn decoded_channel_message(bytes: Seq<u8>) -> Option<ChannelMessageView> {
    if exists|m: ChannelMessageView| message_encodable(m) && bytes == channel_message_bytes(m) {
        Some(
            choose|m: ChannelMessageView| message_encodable(m) && bytes == channel_message_bytes(m),
        )
    } else {
        None
    }
}

/// Two player's messages with the same bytes are the same message.
pub proof fn lemma_player_message_bytes_injective(a: PlayerMessage, b: PlayerMessage)
    requires
        player_message_bytes(a) == player_message_bytes(b),
    ensures
        a == b,
{
    let x = player_message_bytes(a);
    match a {
        PlayerMessage::JoinGame => {
            assert(x[0] == 0 && x.len() == 1);
        },
        PlayerMessage::ChangeDirection { dir: d } => {
        },
        PlayerMessage::ResetGame => {
            assert(x[0] == 2 && x.len() == 1);
            assert(b is ResetGame);
        },
    }
}

/// Reading back what was written gives the message that was written.
pub proof fn lemma_player_message_round_trip(m: PlayerMessage)
    ensures
        decoded_player_message(player_message_bytes(m)) == Some(m),
{
    let back = choose|k: PlayerMessage| player_message_bytes(m) == player_message_bytes(k);
    lemma_player_message_bytes_injective(m, back);
}

/// A message that can be written is known by its bytes.
pub proof fn lemma_channel_message_bytes_injective(a: ChannelMessageView, b: ChannelMessageView)
    requires
        message_encodable(a),
        message_encodable(b),
        channel_message_bytes(a) == channel_message_bytes(b),
    ensures
        a == b,
{
    let bytes = channel_message_bytes(a);
    assert(channel_message_bytes(a)[0] == channel_message_bytes(b)[0]);
    match (a, b) {
        (ChannelMessageView::StateUpdate(s), ChannelMessageView::StateUpdate(t)) => {
            assert(holds_at(bytes, 0, seq![0u8] + session_bytes(s)));
            assert(holds_at(bytes, 0, seq![0u8] + session_bytes(t)));
            assert(holds_at(bytes, 1, session_bytes(s))) by {
                lemma_holds_split(bytes, 0, seq![0u8], session_bytes(s));
            }
            assert(holds_at(bytes, 1, session_bytes(t))) by {
                lemma_holds_split(bytes, 0, seq![0u8], session_bytes(t));
            }
            lemma_session_unique(bytes, 1, s, t);
        },
        _ => {},
    }
}

/// Reading back what was written gives the message that was written.
pub proof fn lemma_channel_message_round_trip(m: ChannelMessageView)
    requires
        message_encodable(m),
    ensures
        decoded_channel_message(channel_message_bytes(m)) == Some(m),
{
    let back = choose|k: ChannelMessageView|
        message_encodable(k) && channel_message_bytes(m) == channel_message_bytes(k);
    lemma_channel_message_bytes_injective(m, back);
}

/// A 16-bit integer is known by its bytes.
pub proof fn lemma_u16_bytes_injective(a: u16, b: u16)
    requires
        u16_bytes(a) == u16_bytes(b),
    ensures
        a == b,
{
}

/// A 32-bit integer is known by its bytes.
pub proof fn lemma_u32_bytes_injective(a: u32, b: u32)
    requires
        u32_bytes(a) == u32_bytes(b),
    ensures
        a == b,
{
    assert(u32_bytes(a)[0] == u32_bytes(b)[0]);
}

/// The bytes `piece` stand in `bytes` from position `pos` on.
pub open spec fn holds_at(bytes: Seq<u8>, pos: int, piece: Seq<u8>) -> bool {
    0 <= pos && pos + piece.len() <= bytes.len() && bytes.subrange(pos, pos + piece.len())
        =~= piece
}

/// Two pieces stand one after the other exactly when their concatenation
/// stands there.
pub proof fn lemma_holds_split(bytes: Seq<u8>, pos: int, a: Seq<u8>, b: Seq<u8>)
    requires
        0 <= pos,
    ensures
        holds_at(bytes, pos, a + b) <==> (holds_at(bytes, pos, a) && holds_at(
            bytes,
            pos + a.len(),
            b,
        )),
{
    if holds_at(bytes, pos, a + b) {
        let whole = bytes.subrange(pos, pos + (a + b).len());
        assert forall|k: int| 0 <= k < a.len() implies bytes.subrange(pos, pos + a.len())[k]
            == a[k] by {
        }
        assert forall|k: int| 0 <= k < b.len() implies bytes.subrange(
            pos + a.len(),
            pos + a.len() + b.len(),
        )[k] == b[k] by {
            assert(whole[a.len() + k] == (a + b)[a.len() + k]);
        }
    }
    if holds_at(bytes, pos, a) && holds_at(bytes, pos + a.len(), b) {
        let first = bytes.subrange(pos, pos + a.len());
        assert forall|k: int| 0 <= k < (a + b).len() implies bytes.subrange(
            pos,
            pos + (a + b).len(),
        )[k] == (a + b)[k] by {
            if k < a.len() {
                assert(first[k] == a[k]);
            }
        }
    }
}

/// Where a piece stands, every opening part of it stands too.
pub proof fn lemma_holds_prefix(bytes: Seq<u8>, pos: int, piece: Seq<u8>, n: int)
    requires
        holds_at(bytes, pos, piece),
        0 <= n <= piece.len(),
    ensures
        holds_at(bytes, pos, piece.subrange(0, n)),
{
    assert forall|k: int| 0 <= k < n implies bytes.subrange(pos, pos + n)[k] == piece.subrange(
        0,
        n,
    )[k] by {
    }
}

/// The bytes of the first `i + 1` cells are those of the first `i`, then
/// those of the next cell.
pub proof fn lemma_cells_bytes_step(cells: Seq<(u16, u16)>, i: int)
    requires
        0 <= i < cells.len(),
    ensures
        cells_bytes(cells.take(i + 1)) == cells_bytes(cells.take(i)) + cell_bytes(cells[i]),
{
    assert(cells.take(i + 1).drop_last() =~= cells.take(i));
}

/// The bytes of the first `i` cells open the bytes of the whole list.
pub proof fn lemma_cells_bytes_prefix(cells: Seq<(u16, u16)>, i: int)
    requires
        0 <= i <= cells.len(),
    ensures
        cells_bytes(cells.take(i)).len() <= cells_bytes(cells).len(),
        cells_bytes(cells).subrange(0, cells_bytes(cells.take(i)).len() as int) == cells_bytes(
            cells.take(i),
        ),
    decreases cells.len(),
{
    if i == cells.len() {
        assert(cells.take(i) =~= cells);
        assert(cells_bytes(cells).subrange(0, cells_bytes(cells).len() as int) =~= cells_bytes(
            cells,
        ));
    } else {
        let front = cells.drop_last();
        lemma_cells_bytes_prefix(front, i);
        assert(front.take(i) =~= cells.take(i));
        let short = cells_bytes(cells.take(i));
        assert(cells_bytes(cells).subrange(0, short.len() as int) =~= cells_bytes(front).subrange(
            0,
            short.len() as int,
        ));
    }
}

/// The bytes of the first `i + 1` snakes are those of the first `i`, then
/// those of the next snake.
pub proof fn lemma_snakes_bytes_step(snakes: Seq<SnakeView>, i: int)
    requires
        0 <= i < snakes.len(),
    ensures
        snakes_bytes(snakes.take(i + 1)) == snakes_bytes(snakes.take(i)) + snake_bytes(snakes[i]),
{
    assert(snakes.take(i + 1).drop_last() =~= snakes.take(i));
}

/// The bytes of the first `i` snakes open the bytes of the whole list.
pub proof fn lemma_snakes_bytes_prefix(snakes: Seq<SnakeView>, i: int)
    requires
        0 <= i <= snakes.len(),
    ensures
        snakes_bytes(snakes.take(i)).len() <= snakes_bytes(snakes).len(),
        snakes_bytes(snakes).subrange(0, snakes_bytes(snakes.take(i)).len() as int)
            == snakes_bytes(snakes.take(i)),
    decreases snakes.len(),
{
    if i == snakes.len() {
        assert(snakes.take(i) =~= snakes);
        assert(snakes_bytes(snakes).subrange(0, snakes_bytes(snakes).len() as int)
            =~= snakes_bytes(snakes));
    } else {
        let front = snakes.drop_last();
        lemma_snakes_bytes_prefix(front, i);
        assert(front.take(i) =~= snakes.take(i));
        let short = snakes_bytes(snakes.take(i));
        assert(snakes_bytes(snakes).subrange(0, short.len() as int) =~= snakes_bytes(
            front,
        ).subrange(0, short.len() as int));
    }
}

/// Where the bytes of a world state stand, each of its parts stands at its
/// place, and the other way round.
pub proof fn lemma_session_parts(bytes: Seq<u8>, pos: int, s: SessionView)
    requires
        0 <= pos,
    ensures
        holds_at(bytes, pos, session_bytes(s)) <==> {
            &&& holds_at(bytes, pos, u16_bytes(s.grid_size))
            &&& holds_at(bytes, pos + 2, u32_bytes(s.snakes.len() as u32))
            &&& holds_at(bytes, pos + 6, snakes_bytes(s.snakes))
            &&& holds_at(bytes, pos + 6 + snakes_bytes(s.snakes).len(), cell_list_bytes(s.apples))
        },
{
    let a = u16_bytes(s.grid_size);
    let b = u32_bytes(s.snakes.len() as u32);
    let c = snakes_bytes(s.snakes);
    let d = cell_list_bytes(s.apples);
    lemma_holds_split(bytes, pos, a + b + c, d);
    lemma_holds_split(bytes, pos, a + b, c);
    lemma_holds_split(bytes, pos, a, b);
}

/// Two lists of as many cells whose bytes stand at the same place are the
/// same list.
pub proof fn lemma_cells_unique(bytes: Seq<u8>, pos: int, a: Seq<(u16, u16)>, b: Seq<(u16, u16)>)
    requires
        a.len() == b.len(),
        holds_at(bytes, pos, cells_bytes(a)),
        holds_at(bytes, pos, cells_bytes(b)),
    ensures
        a == b,
    decreases a.len(),
{
    if a.len() > 0 {
        lemma_holds_split(bytes, pos, cells_bytes(a.drop_last()), cell_bytes(a.last()));
        lemma_holds_split(bytes, pos, cells_bytes(b.drop_last()), cell_bytes(b.last()));
        lemma_cells_unique(bytes, pos, a.drop_last(), b.drop_last());
        let at = pos + cells_bytes(a.drop_last()).len();
        lemma_holds_split(bytes, at, u16_bytes(a.last().0), u16_bytes(a.last().1));
        lemma_holds_split(bytes, at, u16_bytes(b.last().0), u16_bytes(b.last().1));
        lemma_u16_bytes_injective(a.last().0, b.last().0);
        lemma_u16_bytes_injective(a.last().1, b.last().1);
        assert(a =~= a.drop_last().push(a.last()));
    }
}

/// Two lists of cells whose bytes, length first, stand at the same place
/// are the same list.
pub proof fn lemma_cell_list_unique(bytes: Seq<u8>, pos: int, a: Seq<(u16, u16)>, b: Seq<(u16, u16)>)
    requires
        fits_length(a.len()),
        fits_length(b.len()),
        holds_at(bytes, pos, cell_list_bytes(a)),
        holds_at(bytes, pos, cell_list_bytes(b)),
    ensures
        a == b,
{
    lemma_holds_split(bytes, pos, u32_bytes(a.len() as u32), cells_bytes(a));
    lemma_holds_split(bytes, pos, u32_bytes(b.len() as u32), cells_bytes(b));
    lemma_u32_bytes_injective(a.len() as u32, b.len() as u32);
    lemma_cells_unique(bytes, pos + 4, a, b);
}

/// Two snakes whose bytes stand at the same place are the same snake.
pub proof fn lemma_snake_unique(bytes: Seq<u8>, pos: int, a: SnakeView, b: SnakeView)
    requires
        fits_length(a.positions.len()),
        fits_length(b.positions.len()),
        holds_at(bytes, pos, snake_bytes(a)),
        holds_at(bytes, pos, snake_bytes(b)),
    ensures
        a == b,
{
    let ta = seq![direction_tag(a.direction), a.snake_id];
    let tb = seq![direction_tag(b.direction), b.snake_id];
    lemma_holds_split(bytes, pos, cell_list_bytes(a.positions), ta);
    lemma_holds_split(bytes, pos, cell_list_bytes(b.positions), tb);
    lemma_cell_list_unique(bytes, pos, a.positions, b.positions);
}

/// Two lists of as many snakes whose bytes stand at the same place are the
/// same list.
pub proof fn lemma_snakes_unique(bytes: Seq<u8>, pos: int, a: Seq<SnakeView>, b: Seq<SnakeView>)
    requires
        a.len() == b.len(),
        snakes_encodable(a),
        snakes_encodable(b),
        holds_at(bytes, pos, snakes_bytes(a)),
        holds_at(bytes, pos, snakes_bytes(b)),
    ensures
        a == b,
    decreases a.len(),
{
    if a.len() > 0 {
        lemma_holds_split(bytes, pos, snakes_bytes(a.drop_last()), snake_bytes(a.last()));
        lemma_holds_split(bytes, pos, snakes_bytes(b.drop_last()), snake_bytes(b.last()));
        assert(snakes_encodable(a.drop_last())) by {
            assert forall|i: int| 0 <= i < a.drop_last().len() implies fits_length(
                (#[trigger] a.drop_last()[i]).positions.len(),
            ) by {
            }
        }
        assert(snakes_encodable(b.drop_last())) by {
            assert forall|i: int| 0 <= i < b.drop_last().len() implies fits_length(
                (#[trigger] b.drop_last()[i]).positions.len(),
            ) by {
            }
        }
        lemma_snakes_unique(bytes, pos, a.drop_last(), b.drop_last());
        lemma_snake_unique(
            bytes,
            pos + snakes_bytes(a.drop_last()).len() as int,
            a.last(),
            b.last(),
        );
        assert(a =~= a.drop_last().push(a.last()));
    }
}

/// Two world states whose bytes stand at the same place are the same state.
pub proof fn lemma_session_unique(bytes: Seq<u8>, pos: int, s: SessionView, t: SessionView)
    requires
        0 <= pos,
        session_encodable(s),
        session_encodable(t),
        holds_at(bytes, pos, session_bytes(s)),
        holds_at(bytes, pos, session_bytes(t)),
    ensures
        s == t,
{
    lemma_session_parts(bytes, pos, s);
    lemma_session_parts(bytes, pos, t);
    assert(s.grid_size == t.grid_size) by {
        lemma_u16_bytes_injective(s.grid_size, t.grid_size);
    }
    assert(s.snakes.len() == t.snakes.len()) by {
        lemma_u32_bytes_injective(s.snakes.len() as u32, t.snakes.len() as u32);
    }
    assert(s.snakes == t.snakes) by {
        lemma_snakes_unique(bytes, pos + 6, s.snakes, t.snakes);
    }
    assert(s.apples == t.apples) by {
        lemma_cell_list_unique(
            bytes,
            pos + 6 + snakes_bytes(s.snakes).len() as int,
            s.apples,
            t.apples,
        );
    }
}

} // verus!
