//! One player's snake: an ordered body of cells, a facing and an identifier.

use crate::grid::{spec_next_head, usable_grid_size, Direction, next_head};
use vstd::prelude::*;

verus! {

/// Number of cells in the body of a snake that has just joined.
pub const INITIAL_LENGTH: usize = 5;

/// The cell on which every segment of a new snake lies.
pub const START_CELL: (u16, u16) = (5, 5);

/// A snake as the server stores it and as it travels in a state update.
#[derive(Debug, Clone, PartialEq, Eq)]
pub struct Snake {
    /// Body cells, the head first and the tail last.
    pub positions: Vec<(u16, u16)>,
    /// Current facing.
    pub direction: Direction,
    /// Identifier that ties the snake to its player.
    pub snake_id: u8,
}

/// The mathematical value of a [`Snake`].
pub struct SnakeView {
    pub positions: Seq<(u16, u16)>,
    pub direction: Direction,
    pub snake_id: u8,
}

impl View for Snake {
    type V = SnakeView;

    open spec fn view(&self) -> SnakeView {
        SnakeView { positions: self.positions@, direction: self.direction, snake_id: self.snake_id }
    }
}

impl SnakeView {
    /// A snake has at least a head.
    pub open spec fn wf(self) -> bool {
        self.positions.len() > 0
    }

    /// The head cell.
    pub open spec fn head(self) -> (u16, u16) {
        self.positions[0]
    }

    /// The snake a player gets on joining: five segments stacked on the
    /// start cell, facing right.
    pub open spec fn spawned(snake_id: u8) -> SnakeView {
        SnakeView {
            positions: Seq::new(INITIAL_LENGTH as nat, |i: int| START_CELL),
            direction: Direction::Right,
            snake_id,
        }
    }

    /// The snake after one step: a new head in front, the tail cell gone.
    pub open spec fn moved(self, grid_size: u16) -> SnakeView {
        SnakeView {
            positions: self.positions.insert(
                0,
                spec_next_head(self.head(), self.direction, grid_size),
            ).drop_last(),
            ..self
        }
    }

    /// The snake after eating: the tail cell is doubled.
    pub open spec fn grown(self) -> SnakeView {
        SnakeView { positions: self.positions.push(self.positions.last()), ..self }
    }

    /// The snake after its player asked for a new facing.
    pub open spec fn turned(self, wanted: Direction) -> SnakeView {
        SnakeView { direction: self.direction.spec_turn(wanted), ..self }
    }

    /// Whether the head lies on another segment of the same snake.
    pub open spec fn bites_itself(self) -> bool {
        exists|i: int| 1 <= i < self.positions.len() && self.positions[i] == self.head()
    }

    /// Whether some segment lies on `cell`.
    pub open spec fn occupies(self, cell: (u16, u16)) -> bool {
        self.positions.contains(cell)
    }
}

/// The values of a list of snakes, in the same order.
pub open spec fn snakes_view(snakes: Seq<Snake>) -> Seq<SnakeView> {
    Seq::new(snakes.len(), |i: int| snakes[i]@)
}

/// Every snake of the list has a head.
pub open spec fn all_have_heads(snakes: Seq<SnakeView>) -> bool {
    forall|i: int| 0 <= i < snakes.len() ==> (#[trigger] snakes[i]).wf()
}

/// No identifier is carried by two snakes of the list.
pub open spec fn distinct_ids(snakes: Seq<SnakeView>) -> bool {
    forall|i: int, j: int|
        0 <= i < j < snakes.len() ==> (#[trigger] snakes[i]).snake_id != (
        #[trigger] snakes[j]).snake_id
}

/// The list after every snake has taken one step.
pub open spec fn all_moved(snakes: Seq<SnakeView>, grid_size: u16) -> Seq<SnakeView> {
    Seq::new(snakes.len(), |i: int| snakes[i].moved(grid_size))
}

/// Some snake of the list carries the identifier `id`.
pub open spec fn has_snake(snakes: Seq<SnakeView>, id: u8) -> bool {
    exists|i: int| 0 <= i < snakes.len() && (#[trigger] snakes[i]).snake_id == id
}

/// The test "carries another identifier than `id`".
pub open spec fn other_than(id: u8) -> spec_fn(SnakeView) -> bool {
    |s: SnakeView| s.snake_id != id
}

/// The list without the snakes that carry the identifier `id`.
pub open spec fn without_snake(snakes: Seq<SnakeView>, id: u8) -> Seq<SnakeView> {
    snakes.filter(other_than(id))
}

/// The snake at index `i` is the first of the list with the identifier `id`.
pub open spec fn first_with_id(snakes: Seq<SnakeView>, id: u8, i: int) -> bool {
    &&& 0 <= i < snakes.len()
    &&& snakes[i].snake_id == id
    &&& forall|j: int| 0 <= j < i ==> (#[trigger] snakes[j]).snake_id != id
}

/// The list after the first snake with the identifier `id` was asked to face
/// `wanted`.
pub open spec fn with_turn(snakes: Seq<SnakeView>, id: u8, wanted: Direction) -> Seq<SnakeView> {
    Seq::new(
        snakes.len(),
        |i: int|
            if first_with_id(snakes, id, i) {
                snakes[i].turned(wanted)
            } else {
                snakes[i]
            },
    )
}

/// Filtering the first `k + 1` snakes is filtering the first `k` and then
/// judging the next one.
pub proof fn lemma_filter_step(snakes: Seq<SnakeView>, keep: spec_fn(SnakeView) -> bool, k: int)
    requires
        0 <= k < snakes.len(),
    ensures
        snakes.take(k + 1).filter(keep) == if keep(snakes[k]) {
            snakes.take(k).filter(keep).push(snakes[k])
        } else {
            snakes.take(k).filter(keep)
        },
{
    assert(snakes.take(k + 1) =~= snakes.take(k).push(snakes[k]));
    snakes.take(k).lemma_filter_push(snakes[k], keep);
}

/// What a filtered list of snakes holds: exactly the snakes that pass the
/// test, with heads and distinct identifiers if the list had them.
pub proof fn lemma_filter_snakes(snakes: Seq<SnakeView>, keep: spec_fn(SnakeView) -> bool)
    ensures
        forall|j: int|
            0 <= j < snakes.filter(keep).len() ==> keep(#[trigger] snakes.filter(keep)[j])
                && snakes.contains(snakes.filter(keep)[j]),
        forall|i: int|
            0 <= i < snakes.len() && keep(snakes[i]) ==> snakes.filter(keep).contains(
                #[trigger] snakes[i],
            ),
        all_have_heads(snakes) ==> all_have_heads(snakes.filter(keep)),
        distinct_ids(snakes) ==> distinct_ids(snakes.filter(keep)),
    decreases snakes.len(),
{
    reveal(Seq::filter);
    let out = snakes.filter(keep);
    if snakes.len() > 0 {
        let front = snakes.drop_last();
        let last = snakes.last();
        let prev = front.filter(keep);
        lemma_filter_snakes(front, keep);
        assert forall|j: int| 0 <= j < out.len() implies keep(#[trigger] out[j]) && snakes.contains(
            out[j],
        ) by {
            if j < prev.len() {
                let i = choose|i: int| 0 <= i < front.len() && front[i] == prev[j];
            }
        }
        assert forall|i: int| 0 <= i < snakes.len() && keep(snakes[i]) implies out.contains(
            #[trigger] snakes[i],
        ) by {
            if i < front.len() {
                let j = choose|j: int| 0 <= j < prev.len() && prev[j] == front[i];
            }
        }
        if all_have_heads(snakes) {
            assert forall|j: int| 0 <= j < out.len() implies (#[trigger] out[j]).wf() by {
                let i = choose|i: int| 0 <= i < snakes.len() && snakes[i] == out[j];
            }
        }
        if distinct_ids(snakes) {
            assert(distinct_ids(front)) by {
                assert forall|i: int, j: int| 0 <= i < j < front.len() implies (
                #[trigger] front[i]).snake_id != (#[trigger] front[j]).snake_id by {
                }
            }
            assert forall|i: int, j: int| 0 <= i < j < out.len() implies (#[trigger] out[i]).snake_id
                != (#[trigger] out[j]).snake_id by {
                if j < prev.len() {
                    assert(prev[i].snake_id != prev[j].snake_id);
                } else {
                    let a = choose|a: int| 0 <= a < front.len() && front[a] == prev[i];
                }
            }
        }
    }
}

/// A step puts the head one cell further in the snake's facing and keeps
/// the length, the facing and the identifier.
pub proof fn lemma_moved(s: SnakeView, grid_size: u16)
    requires
        s.wf(),
    ensures
        s.moved(grid_size).wf(),
        s.moved(grid_size).head() == spec_next_head(s.head(), s.direction, grid_size),
        s.moved(grid_size).positions.len() == s.positions.len(),
        s.moved(grid_size).direction == s.direction,
        s.moved(grid_size).snake_id == s.snake_id,
        forall|i: int|
            1 <= i < s.positions.len() ==> s.moved(grid_size).positions[i] == s.positions[i - 1],
{
}

impl Snake {
    /// Creates the snake of a player who has just joined.
    pub fn new(snake_id: u8) -> (s: Snake)
        ensures
            s@ == SnakeView::spawned(snake_id),
    {
        let mut positions: Vec<(u16, u16)> = Vec::new();
        let mut i: usize = 0;
        while i < INITIAL_LENGTH
            invariant
                i <= INITIAL_LENGTH,
                positions@ == Seq::new(i as nat, |k: int| START_CELL),
            decreases INITIAL_LENGTH - i,
        {
            positions.push(START_CELL);
            i += 1;
        }
        Snake { positions, direction: Direction::Right, snake_id }
    }

    /// Moves the snake one cell in its facing, wrapping at the grid's edges.
    /// The length stays as it was.
    pub fn advance(&mut self, grid_size: u16)
        requires
            usable_grid_size(grid_size),
            old(self)@.wf(),
        ensures
            final(self)@ == old(self)@.moved(grid_size),
            final(self)@.positions.len() == old(self)@.positions.len(),
    {
        let head = self.positions[0];
        let new_head = next_head(head, self.direction, grid_size);
        self.positions.insert(0, new_head);
        self.positions.pop();
    }

    /// Lengthens the snake by one segment, laid on its tail cell.
    pub fn grow(&mut self)
        requires
            old(self)@.wf(),
        ensures
            final(self)@ == old(self)@.grown(),
    {
        let tail = self.positions[self.positions.len() - 1];
        self.positions.push(tail);
    }

    /// Tells whether the head lies on another segment of the snake.
    pub fn bites_itself(&self) -> (b: bool)
        requires
            self@.wf(),
        ensures
            b == self@.bites_itself(),
    {
        let head = self.positions[0];
        let mut i: usize = 1;
        while i < self.positions.len()
            invariant
                1 <= i <= self.positions.len(),
                head == self.positions@[0],
                forall|k: int| 1 <= k < i ==> self.positions@[k] != head,
            decreases self.positions.len() - i,
        {
            let c = self.positions[i];
            if c.0 == head.0 && c.1 == head.1 {
                assert(self@.positions[i as int] == self@.head());
                return true;
            }
            i += 1;
        }
        false
    }

    /// Tells whether some segment of the snake lies on `cell`.
    pub fn occupies(&self, cell: (u16, u16)) -> (b: bool)
        ensures
            b == self@.occupies(cell),
    {
        let mut i: usize = 0;
        while i < self.positions.len()
            invariant
                i <= self.positions.len(),
                forall|k: int| 0 <= k < i ==> self.positions@[k] != cell,
            decreases self.positions.len() - i,
        {
            let c = self.positions[i];
            if c.0 == cell.0 && c.1 == cell.1 {
                return true;
            }
            i += 1;
        }
        false
    }

    /// Makes an independent copy with the same value.
    pub fn duplicate(&self) -> (s: Snake)
        ensures
            s@ == self@,
    {
        let mut positions: Vec<(u16, u16)> = Vec::new();
        let mut i: usize = 0;
        while i < self.positions.len()
            invariant
                i <= self.positions.len(),
                positions@ == self.positions@.take(i as int),
            decreases self.positions.len() - i,
        {
            positions.push(self.positions[i]);
            i += 1;
        }
        assert(positions@ =~= self.positions@);
        Snake { positions, direction: self.direction, snake_id: self.snake_id }
    }
}

/// Removes the snakes that carry the identifier `snake_id`.
pub fn remove_snake(snakes: &mut Vec<Snake>, snake_id: u8)
    ensures
        snakes_view(final(snakes)@) == without_snake(snakes_view(old(snakes)@), snake_id),
{
    let ghost start = snakes_view(snakes@);
    let ghost keep = other_than(snake_id);
    let mut i: usize = 0;
    let ghost mut k: int = 0;
    proof {
        reveal(Seq::filter);
        assert(snakes_view(snakes@) =~= start.take(0).filter(keep) + start.skip(0));
    }
    while i < snakes.len()
        invariant
            0 <= k <= start.len(),
            keep == other_than(snake_id),
            i == start.take(k).filter(keep).len(),
            snakes_view(snakes@) == start.take(k).filter(keep) + start.skip(k),
        decreases snakes.len() - i,
    {
        let ghost now = snakes_view(snakes@);
        proof {
            assert(now[i as int] == start.skip(k)[0]);
            lemma_filter_step(start, keep, k);
        }
        if snakes[i].snake_id == snake_id {
            snakes.remove(i);
            proof {
                assert(snakes_view(snakes@) =~= now.remove(i as int));
            }
        } else {
            i += 1;
        }
        proof {
            k = k + 1;
        }
    }
}

/// Asks the first snake with the identifier `snake_id` to face `wanted`. The
/// request is dropped when it would reverse the snake.
pub fn turn_snake(snakes: &mut Vec<Snake>, snake_id: u8, wanted: Direction)
    ensures
        snakes_view(final(snakes)@) == with_turn(snakes_view(old(snakes)@), snake_id, wanted),
{
    let ghost start = snakes_view(snakes@);
    let mut i: usize = 0;
    while i < snakes.len()
        invariant
            i <= snakes.len(),
            snakes@ == old(snakes)@,
            start == snakes_view(old(snakes)@),
            forall|j: int| 0 <= j < i ==> (#[trigger] start[j]).snake_id != snake_id,
        decreases snakes.len() - i,
    {
        if snakes[i].snake_id == snake_id {
            let facing = snakes[i].direction;
            snakes[i].direction = facing.turn(wanted);
            proof {
                assert(first_with_id(start, snake_id, i as int));
                assert forall|j: int| 0 <= j < start.len() && j != i implies !first_with_id(
                    start,
                    snake_id,
                    j,
                ) by {
                    if j > i {
                        assert(start[i as int].snake_id == snake_id);
                    }
                }
            }
            return ;
        }
        i += 1;
    }
    proof {
        assert forall|j: int| 0 <= j < start.len() implies !first_with_id(start, snake_id, j) by {
        }
    }
}

/// Adds the snake of a newly joined player to the end of the list.
pub fn init_snake(snakes: &mut Vec<Snake>, snake_id: u8)
    ensures
        snakes_view(final(snakes)@) == snakes_view(old(snakes)@).push(
            SnakeView::spawned(snake_id),
        ),
{
    let snake = Snake::new(snake_id);
    snakes.push(snake);
}

/// Moves every snake of the list one cell in its own facing.
pub fn move_snakes(snakes: &mut Vec<Snake>, grid_size: u16)
    requires
        usable_grid_size(grid_size),
        all_have_heads(snakes_view(old(snakes)@)),
    ensures
        snakes_view(final(snakes)@) == all_moved(snakes_view(old(snakes)@), grid_size),
{
    let mut i: usize = 0;
    while i < snakes.len()
        invariant
            usable_grid_size(grid_size),
            i <= snakes.len(),
            snakes.len() == old(snakes).len(),
            forall|k: int| 0 <= k < i ==> (#[trigger] snakes@[k])@ == old(snakes)@[k]@.moved(grid_size),
            forall|k: int| i <= k < snakes.len() ==> #[trigger] snakes@[k] == old(snakes)@[k],
            all_have_heads(snakes_view(old(snakes)@)),
        decreases snakes.len() - i,
    {
        assert(snakes_view(old(snakes)@)[i as int].wf());
        snakes[i].advance(grid_size);
        i += 1;
    }
}

} // verus!
