//! Reading messages in the wire format.
//!
//! Every reader takes the bytes and a position. It says what it found there
//! and, of every value whose bytes stand there, that it found this value: so
//! a reader that gives up proves that no value is written at that place.

use crate::grid::Direction;
use crate::messages::{ChannelMessageView, PlayerMessage, SnakeChannelMessage};
use crate::session::{SessionView, SnakeSession};
use crate::snake::{snakes_view, Snake, SnakeView};
use crate::wire::{
    cell_bytes, cell_list_bytes, cells_bytes, channel_message_bytes, decoded_channel_message,
    decoded_player_message, direction_tag, fits_length, holds_at, lemma_cells_bytes_prefix,
    lemma_cells_bytes_step, lemma_holds_prefix, lemma_holds_split, lemma_player_message_round_trip,
    lemma_session_parts, lemma_snakes_bytes_prefix, lemma_snakes_bytes_step,
    lemma_u16_bytes_injective, lemma_u32_bytes_injective, message_encodable, player_message_bytes,
    session_bytes, session_encodable, snake_bytes, snakes_bytes, snakes_encodable, u16_bytes,
    u32_bytes,
};
use vstd::prelude::*;

verus! {

/// Returns the facing that a tag stands for.
fn direction_of_tag(t: u8) -> (r: Option<Direction>)
    ensures
        match r {
            Some(d) => direction_tag(d) == t,
            None => forall|d: Direction| direction_tag(d) != t,
        },
{
    if t == 0 {
        Some(Direction::Up)
    } else if t == 1 {
        Some(Direction::Down)
    } else if t == 2 {
        Some(Direction::Left)
    } else if t == 3 {
        Some(Direction::Right)
    } else {
        None
    }
}

/// Reads a player's message. The bytes must be exactly those of one
/// message: an unknown tag, a missing byte or a byte too many gives `None`.
pub fn decode_player_message(bytes: &[u8]) -> (r: Option<PlayerMessage>)
    ensures
        r == decoded_player_message(bytes@),
        match r {
            Some(m) => bytes@ == player_message_bytes(m),
            None => forall|m: PlayerMessage| bytes@ != player_message_bytes(m),
        },
{
    proof {
        if exists|m: PlayerMessage| bytes@ == player_message_bytes(m) {
            let m = choose|m: PlayerMessage| bytes@ == player_message_bytes(m);
            lemma_player_message_round_trip(m);
        }
    }
    if bytes.len() == 1 {
        if bytes[0] == 0 {
            assert(bytes@ =~= player_message_bytes(PlayerMessage::JoinGame));
            proof {
                lemma_player_message_round_trip(PlayerMessage::JoinGame);
            }
            return Some(PlayerMessage::JoinGame);
        }
        if bytes[0] == 2 {
            assert(bytes@ =~= player_message_bytes(PlayerMessage::ResetGame));
            proof {
                lemma_player_message_round_trip(PlayerMessage::ResetGame);
            }
            return Some(PlayerMessage::ResetGame);
        }
    } else if bytes.len() == 2 {
        if bytes[0] == 1 {
            match direction_of_tag(bytes[1]) {
                Some(dir) => {
                    assert(bytes@ =~= player_message_bytes(PlayerMessage::ChangeDirection { dir }));
                    proof {
                        lemma_player_message_round_trip(PlayerMessage::ChangeDirection { dir });
                    }
                    return Some(PlayerMessage::ChangeDirection { dir });
                },
                None => {},
            }
        }
    }
    assert forall|m: PlayerMessage| bytes@ != player_message_bytes(m) by {
        let e = player_message_bytes(m);
        if bytes@ == e {
            match m {
                PlayerMessage::JoinGame => {
                    assert(e[0] == 0);
                },
                PlayerMessage::ChangeDirection { dir } => {
                    assert(e[0] == 1);
                    assert(e[1] == direction_tag(dir));
                },
                PlayerMessage::ResetGame => {
                    assert(e[0] == 2);
                },
            }
        }
    }
    None
}

/// The four bytes of the 32-bit integer with the given base-256 digits are
/// those digits, lowest first.
proof fn lemma_u32_of_digits(b0: u8, b1: u8, b2: u8, b3: u8)
    ensures
        b0 + 256 * b1 + 65536 * b2 + 16777216 * b3 <= u32::MAX,
        u32_bytes((b0 + 256 * b1 + 65536 * b2 + 16777216 * b3) as u32) == seq![b0, b1, b2, b3],
{
    let t2: int = b2 + 256 * b3;
    let t1: int = b1 + 256 * t2;
    let v: int = b0 + 256 * t1;
    assert(v / 65536 == t2);
    assert(v / 16777216 == b3);
}

/// Reads a 16-bit integer at `pos`.
fn read_u16(bytes: &[u8], pos: usize) -> (r: Option<u16>)
    requires
        pos <= bytes@.len(),
    ensures
        match r {
            Some(v) => holds_at(bytes@, pos as int, u16_bytes(v)),
            None => pos + 2 > bytes@.len(),
        },
        forall|w: u16| #[trigger] holds_at(bytes@, pos as int, u16_bytes(w)) ==> r == Some(w),
{
    if bytes.len() - pos < 2 {
        return None;
    }
    let lo = bytes[pos] as u16;
    let hi = bytes[pos + 1] as u16;
    let v = lo + 256 * hi;
    proof {
        assert forall|w: u16| #[trigger] holds_at(bytes@, pos as int, u16_bytes(w)) implies w
            == v by {
            lemma_u16_bytes_injective(v, w);
        }
    }
    Some(v)
}

/// Reads a 32-bit integer at `pos`.
fn read_u32(bytes: &[u8], pos: usize) -> (r: Option<u32>)
    requires
        pos <= bytes@.len(),
    ensures
        match r {
            Some(v) => holds_at(bytes@, pos as int, u32_bytes(v)),
            None => pos + 4 > bytes@.len(),
        },
        forall|w: u32| #[trigger] holds_at(bytes@, pos as int, u32_bytes(w)) ==> r == Some(w),
{
    if bytes.len() - pos < 4 {
        return None;
    }
    let b0 = bytes[pos] as u32;
    let b1 = bytes[pos + 1] as u32;
    let b2 = bytes[pos + 2] as u32;
    let b3 = bytes[pos + 3] as u32;
    proof {
        lemma_u32_of_digits(bytes@[pos as int], bytes@[pos + 1], bytes@[pos + 2], bytes@[pos + 3]);
    }
    let v = b0 + 256 * b1 + 65536 * b2 + 16777216 * b3;
    proof {
        assert forall|w: u32| #[trigger] holds_at(bytes@, pos as int, u32_bytes(w)) implies w
            == v by {
            lemma_u32_bytes_injective(v, w);
        }
    }
    Some(v)
}

/// Reads a cell at `pos`.
fn read_cell(bytes: &[u8], pos: usize) -> (r: Option<(u16, u16)>)
    requires
        pos <= bytes@.len(),
    ensures
        match r {
            Some(c) => holds_at(bytes@, pos as int, cell_bytes(c)),
            None => pos + 4 > bytes@.len(),
        },
        forall|c: (u16, u16)| #[trigger] holds_at(bytes@, pos as int, cell_bytes(c)) ==> r == Some(c),
{
    if bytes.len() - pos < 4 {
        return None;
    }
    let x = read_u16(bytes, pos);
    let y = read_u16(bytes, pos + 2);
    match (x, y) {
        (Some(x), Some(y)) => {
            proof {
                lemma_holds_split(bytes@, pos as int, u16_bytes(x), u16_bytes(y));
                assert forall|c: (u16, u16)| #[trigger]
                    holds_at(bytes@, pos as int, cell_bytes(c)) implies c == (x, y) by {
                    lemma_holds_split(bytes@, pos as int, u16_bytes(c.0), u16_bytes(c.1));
                }
            }
            Some((x, y))
        },
        _ => None,
    }
}

/// Reads `count` cells from `pos` on. Returns them with the position behind
/// them.
fn read_cells(bytes: &[u8], pos: usize, count: u32) -> (r: Option<(Vec<(u16, u16)>, usize)>)
    requires
        pos <= bytes@.len(),
    ensures
        match r {
            Some((cells, next)) => {
                &&& cells@.len() == count
                &&& holds_at(bytes@, pos as int, cells_bytes(cells@))
                &&& next == pos + cells_bytes(cells@).len()
            },
            None => true,
        },
        forall|c: Seq<(u16, u16)>|
            c.len() == count && #[trigger] holds_at(bytes@, pos as int, cells_bytes(c)) ==> r
                is Some && r.unwrap().0@ == c,
{
    let mut cells: Vec<(u16, u16)> = Vec::new();
    let mut cur: usize = pos;
    let mut i: u32 = 0;
    let total = bytes.len();
    while i < count
        invariant
            total == bytes@.len(),
            i <= count,
            pos <= cur <= bytes@.len(),
            cells@.len() == i,
            holds_at(bytes@, pos as int, cells_bytes(cells@)),
            cur == pos + cells_bytes(cells@).len(),
            forall|c: Seq<(u16, u16)>|
                c.len() == count && #[trigger] holds_at(bytes@, pos as int, cells_bytes(c))
                    ==> c.take(i as int) == cells@,
        decreases count - i,
    {
        let ghost so_far = cells@;
        proof {
            assert forall|c: Seq<(u16, u16)>|
                c.len() == count && #[trigger] holds_at(
                    bytes@,
                    pos as int,
                    cells_bytes(c),
                ) implies holds_at(bytes@, cur as int, cell_bytes(c[i as int])) by {
                lemma_cells_bytes_prefix(c, i + 1);
                lemma_cells_bytes_step(c, i as int);
                lemma_holds_prefix(
                    bytes@,
                    pos as int,
                    cells_bytes(c),
                    cells_bytes(c.take(i + 1)).len() as int,
                );
                lemma_holds_split(
                    bytes@,
                    pos as int,
                    cells_bytes(c.take(i as int)),
                    cell_bytes(c[i as int]),
                );
            }
        }
        match read_cell(bytes, cur) {
            Some(cell) => {
                cells.push(cell);
                proof {
                    assert(cells@.take(i as int) =~= so_far);
                    lemma_cells_bytes_step(cells@, i as int);
                    lemma_holds_split(bytes@, pos as int, cells_bytes(so_far), cell_bytes(cell));
                    assert forall|c: Seq<(u16, u16)>|
                        c.len() == count && #[trigger] holds_at(
                            bytes@,
                            pos as int,
                            cells_bytes(c),
                        ) implies c.take(i + 1) == cells@ by {
                    }
                }
                cur = cur + 4;
                i += 1;
            },
            None => {
                proof {
                    assert forall|c: Seq<(u16, u16)>|
                        c.len() == count && #[trigger] holds_at(
                            bytes@,
                            pos as int,
                            cells_bytes(c),
                        ) implies false by {
                    }
                }
                return None;
            },
        }
    }
    proof {
        assert forall|c: Seq<(u16, u16)>|
            c.len() == count && #[trigger] holds_at(
                bytes@,
                pos as int,
                cells_bytes(c),
            ) implies cells@ == c by {
        }
    }
    Some((cells, cur))
}

/// Reads a list of cells at `pos`: its length, then its cells.
fn read_cell_list(bytes: &[u8], pos: usize) -> (r: Option<(Vec<(u16, u16)>, usize)>)
    requires
        pos <= bytes@.len(),
    ensures
        match r {
            Some((cells, next)) => {
                &&& fits_length(cells@.len())
                &&& holds_at(bytes@, pos as int, cell_list_bytes(cells@))
                &&& next == pos + cell_list_bytes(cells@).len()
            },
            None => true,
        },
        forall|c: Seq<(u16, u16)>|
            fits_length(c.len()) && #[trigger] holds_at(bytes@, pos as int, cell_list_bytes(c))
                ==> r is Some && r.unwrap().0@ == c,
{
    proof {
        assert forall|c: Seq<(u16, u16)>|
            fits_length(c.len()) && #[trigger] holds_at(
                bytes@,
                pos as int,
                cell_list_bytes(c),
            ) implies holds_at(bytes@, pos as int, u32_bytes(c.len() as u32)) && holds_at(
            bytes@,
            pos + 4,
            cells_bytes(c),
        ) by {
            lemma_holds_split(bytes@, pos as int, u32_bytes(c.len() as u32), cells_bytes(c));
        }
    }
    let count = match read_u32(bytes, pos) {
        Some(count) => count,
        None => {
            return None;
        },
    };
    assert(pos + 4 <= bytes.len());
    match read_cells(bytes, pos + 4, count) {
        Some((cells, next)) => {
            proof {
                lemma_holds_split(bytes@, pos as int, u32_bytes(count), cells_bytes(cells@));
            }
            Some((cells, next))
        },
        None => None,
    }
}

/// Reads a snake at `pos`.
fn read_snake(bytes: &[u8], pos: usize) -> (r: Option<(Snake, usize)>)
    requires
        pos <= bytes@.len(),
    ensures
        match r {
            Some((snake, next)) => {
                &&& fits_length(snake@.positions.len())
                &&& holds_at(bytes@, pos as int, snake_bytes(snake@))
                &&& next == pos + snake_bytes(snake@).len()
            },
            None => true,
        },
        forall|s: SnakeView|
            fits_length(s.positions.len()) && #[trigger] holds_at(
                bytes@,
                pos as int,
                snake_bytes(s),
            ) ==> r is Some && r.unwrap().0@ == s,
{
    proof {
        assert forall|s: SnakeView|
            fits_length(s.positions.len()) && #[trigger] holds_at(
                bytes@,
                pos as int,
                snake_bytes(s),
            ) implies holds_at(bytes@, pos as int, cell_list_bytes(s.positions)) && holds_at(
            bytes@,
            pos + cell_list_bytes(s.positions).len(),
            seq![direction_tag(s.direction), s.snake_id],
        ) by {
            lemma_holds_split(
                bytes@,
                pos as int,
                cell_list_bytes(s.positions),
                seq![direction_tag(s.direction), s.snake_id],
            );
        }
    }
    let (positions, next) = match read_cell_list(bytes, pos) {
        Some(found) => found,
        None => {
            return None;
        },
    };
    if bytes.len() - next < 2 {
        return None;
    }
    let snake_id = bytes[next + 1];
    match direction_of_tag(bytes[next]) {
        Some(direction) => {
            let snake = Snake { positions, direction, snake_id };
            proof {
                let tail = seq![direction_tag(direction), snake_id];
                lemma_holds_split(bytes@, pos as int, cell_list_bytes(snake@.positions), tail);
                assert forall|s: SnakeView|
                    fits_length(s.positions.len()) && #[trigger] holds_at(
                        bytes@,
                        pos as int,
                        snake_bytes(s),
                    ) implies snake@ == s by {
                    let other = seq![direction_tag(s.direction), s.snake_id];
                }
            }
            Some((snake, next + 2))
        },
        None => {
            proof {
                assert forall|s: SnakeView|
                    fits_length(s.positions.len()) && #[trigger] holds_at(
                        bytes@,
                        pos as int,
                        snake_bytes(s),
                    ) implies false by {
                }
            }
            None
        },
    }
}

/// Reads `count` snakes from `pos` on. Returns them with the position
/// behind them.
fn read_snakes(bytes: &[u8], pos: usize, count: u32) -> (r: Option<(Vec<Snake>, usize)>)
    requires
        pos <= bytes@.len(),
    ensures
        match r {
            Some((snakes, next)) => {
                &&& snakes@.len() == count
                &&& snakes_encodable(snakes_view(snakes@))
                &&& holds_at(bytes@, pos as int, snakes_bytes(snakes_view(snakes@)))
                &&& next == pos + snakes_bytes(snakes_view(snakes@)).len()
            },
            None => true,
        },
        forall|l: Seq<SnakeView>|
            l.len() == count && snakes_encodable(l) && #[trigger] holds_at(
                bytes@,
                pos as int,
                snakes_bytes(l),
            ) ==> r is Some && snakes_view(r.unwrap().0@) == l,
{
    let mut snakes: Vec<Snake> = Vec::new();
    let mut cur: usize = pos;
    let mut i: u32 = 0;
    let total = bytes.len();
    while i < count
        invariant
            total == bytes@.len(),
            i <= count,
            pos <= cur <= bytes@.len(),
            snakes@.len() == i,
            snakes_encodable(snakes_view(snakes@)),
            holds_at(bytes@, pos as int, snakes_bytes(snakes_view(snakes@))),
            cur == pos + snakes_bytes(snakes_view(snakes@)).len(),
            forall|l: Seq<SnakeView>|
                l.len() == count && snakes_encodable(l) && #[trigger] holds_at(
                    bytes@,
                    pos as int,
                    snakes_bytes(l),
                ) ==> l.take(i as int) == snakes_view(snakes@),
        decreases count - i,
    {
        let ghost so_far = snakes_view(snakes@);
        proof {
            assert forall|l: Seq<SnakeView>|
                l.len() == count && snakes_encodable(l) && #[trigger] holds_at(
                    bytes@,
                    pos as int,
                    snakes_bytes(l),
                ) implies holds_at(bytes@, cur as int, snake_bytes(l[i as int])) && fits_length(
                l[i as int].positions.len(),
            ) by {
                lemma_snakes_bytes_prefix(l, i + 1);
                lemma_snakes_bytes_step(l, i as int);
                lemma_holds_prefix(
                    bytes@,
                    pos as int,
                    snakes_bytes(l),
                    snakes_bytes(l.take(i + 1)).len() as int,
                );
                lemma_holds_split(
                    bytes@,
                    pos as int,
                    snakes_bytes(l.take(i as int)),
                    snake_bytes(l[i as int]),
                );
            }
        }
        match read_snake(bytes, cur) {
            Some((snake, next)) => {
                let ghost value = snake@;
                snakes.push(snake);
                proof {
                    let now = snakes_view(snakes@);
                    assert(now.take(i as int) =~= so_far);
                    lemma_snakes_bytes_step(now, i as int);
                    assert(now.take(i + 1) =~= now);
                    lemma_holds_split(bytes@, pos as int, snakes_bytes(so_far), snake_bytes(value));
                    assert forall|l: Seq<SnakeView>|
                        l.len() == count && snakes_encodable(l) && #[trigger] holds_at(
                            bytes@,
                            pos as int,
                            snakes_bytes(l),
                        ) implies l.take(i + 1) == now by {
                    }
                    assert forall|k: int| 0 <= k < now.len() implies fits_length(
                        (#[trigger] now[k]).positions.len(),
                    ) by {
                        if k < i {
                            assert(now[k] == so_far[k]);
                        }
                    }
                }
                cur = next;
                i += 1;
            },
            None => {
                proof {
                    assert forall|l: Seq<SnakeView>|
                        l.len() == count && snakes_encodable(l) && #[trigger] holds_at(
                            bytes@,
                            pos as int,
                            snakes_bytes(l),
                        ) implies false by {
                    }
                }
                return None;
            },
        }
    }
    proof {
        assert forall|l: Seq<SnakeView>|
            l.len() == count && snakes_encodable(l) && #[trigger] holds_at(
                bytes@,
                pos as int,
                snakes_bytes(l),
            ) implies snakes_view(snakes@) == l by {
        }
    }
    Some((snakes, cur))
}

/// Reads a world state at `pos`.
fn read_session(bytes: &[u8], pos: usize) -> (r: Option<(SnakeSession, usize)>)
    requires
        pos <= bytes@.len(),
    ensures
        match r {
            Some((session, next)) => {
                &&& session_encodable(session@)
                &&& holds_at(bytes@, pos as int, session_bytes(session@))
                &&& next == pos + session_bytes(session@).len()
            },
            None => true,
        },
        forall|s: SessionView|
            session_encodable(s) && #[trigger] holds_at(bytes@, pos as int, session_bytes(s)) ==> r
                is Some && r.unwrap().0@ == s,
{
    proof {
        assert forall|s: SessionView|
            session_encodable(s) && #[trigger] holds_at(
                bytes@,
                pos as int,
                session_bytes(s),
            ) implies {
            &&& holds_at(bytes@, pos as int, u16_bytes(s.grid_size))
            &&& holds_at(bytes@, pos + 2, u32_bytes(s.snakes.len() as u32))
            &&& holds_at(bytes@, pos + 6, snakes_bytes(s.snakes))
            &&& holds_at(bytes@, pos + 6 + snakes_bytes(s.snakes).len(), cell_list_bytes(s.apples))
            &&& snakes_encodable(s.snakes)
        } by {
            lemma_session_parts(bytes@, pos as int, s);
        }
    }
    let grid_size = match read_u16(bytes, pos) {
        Some(v) => v,
        None => {
            return None;
        },
    };
    assert(pos + 2 <= bytes.len());
    let count = match read_u32(bytes, pos + 2) {
        Some(v) => v,
        None => {
            return None;
        },
    };
    assert(pos + 6 <= bytes.len());
    let (snakes, after_snakes) = match read_snakes(bytes, pos + 6, count) {
        Some(found) => found,
        None => {
            return None;
        },
    };
    let (apples, next) = match read_cell_list(bytes, after_snakes) {
        Some(found) => found,
        None => {
            return None;
        },
    };
    let session = SnakeSession { grid_size, snakes, apples };
    proof {
        lemma_session_parts(bytes@, pos as int, session@);
        assert forall|s: SessionView|
            session_encodable(s) && #[trigger] holds_at(
                bytes@,
                pos as int,
                session_bytes(s),
            ) implies session@ == s by {
        }
    }
    Some((session, next))
}

/// The view of a message that was read, if one was.
pub open spec fn view_of(r: Option<SnakeChannelMessage>) -> Option<ChannelMessageView> {
    match r {
        Some(m) => Some(m@),
        None => None,
    }
}

/// Reads a server's message. The bytes must be exactly those of one
/// message: an unknown tag, a list cut short or a byte too many gives
/// `None`. What comes back is the one message that is written as these
/// bytes.
pub fn decode_channel_message(bytes: &[u8]) -> (r: Option<SnakeChannelMessage>)
    ensures
        view_of(r) == decoded_channel_message(bytes@),
        match r {
            Some(m) => message_encodable(m@) && bytes@ == channel_message_bytes(m@),
            None => forall|v: ChannelMessageView|
                message_encodable(v) ==> bytes@ != #[trigger] channel_message_bytes(v),
        },
        forall|v: ChannelMessageView|
            message_encodable(v) && bytes@ == #[trigger] channel_message_bytes(v) ==> view_of(r)
                == Some(v),
{
    let total = bytes.len();
    proof {
        assert forall|v: ChannelMessageView|
            message_encodable(v) && bytes@ == #[trigger] channel_message_bytes(v) implies total
            >= 1 && bytes@[0] == channel_message_bytes(v)[0] && (v matches ChannelMessageView::StateUpdate(
            s,
        ) ==> holds_at(bytes@, 1, session_bytes(s)) && session_encodable(s) && total == 1
            + session_bytes(s).len()) by {
            match v {
                ChannelMessageView::StateUpdate(s) => {
                    lemma_holds_split(bytes@, 0, seq![0u8], session_bytes(s));
                },
                _ => {},
            }
        }
    }
    if total == 0 {
        proof {
            if exists|m: ChannelMessageView|
                message_encodable(m) && bytes@ == channel_message_bytes(m) {
                let m = choose|m: ChannelMessageView|
                    message_encodable(m) && bytes@ == channel_message_bytes(m);
            }
        }
        return None;
    }
    let tag = bytes[0];
    let r = if tag == 0 {
        match read_session(bytes, 1) {
            Some((session, next)) => {
                if next == total {
                    proof {
                        lemma_holds_split(bytes@, 0, seq![0u8], session_bytes(session@));
                    }
                    Some(SnakeChannelMessage::StateUpdate(session))
                } else {
                    None
                }
            },
            None => None,
        }
    } else if tag == 1 && total == 1 {
        Some(SnakeChannelMessage::PlayerJoined())
    } else if tag == 2 && total == 1 {
        Some(SnakeChannelMessage::PlayerDied())
    } else {
        None
    };
    proof {
        assert forall|v: ChannelMessageView|
            message_encodable(v) && bytes@ == #[trigger] channel_message_bytes(v) implies view_of(r)
            == Some(v) by {
            match v {
                ChannelMessageView::StateUpdate(s) => {},
                ChannelMessageView::PlayerJoined => {},
                ChannelMessageView::PlayerDied => {},
            }
        }
        let read = view_of(r);
        if read is Some {
            let m = read.unwrap();
            assert(message_encodable(m) && bytes@ == channel_message_bytes(m));
        }
        if exists|m: ChannelMessageView| message_encodable(m) && bytes@ == channel_message_bytes(m) {
            let m = choose|m: ChannelMessageView|
                message_encodable(m) && bytes@ == channel_message_bytes(m);
        }
    }
    r
}

} // verus!
