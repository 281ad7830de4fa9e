//! The shared world: the grid's cell size, the live snakes and the apples.

use crate::grid::DEFAULT_GRID_SIZE;
use crate::snake::{snakes_view, Snake, SnakeView};
use vstd::prelude::*;

verus! {

/// The world state that the server owns and sends to every client.
#[derive(Debug, Clone, PartialEq, Eq)]
pub struct SnakeSession {
    /// Edge length of a cell, in canvas units.
    pub grid_size: u16,
    /// The live snakes, in the order in which they joined.
    pub snakes: Vec<Snake>,
    /// The cells that hold an uneaten apple.
    pub apples: Vec<(u16, u16)>,
}

/// The mathematical value of a [`SnakeSession`].
pub struct SessionView {
    pub grid_size: u16,
    pub snakes: Seq<SnakeView>,
    pub apples: Seq<(u16, u16)>,
}

impl View for SnakeSession {
    type V = SessionView;

    open spec fn view(&self) -> SessionView {
        SessionView {
            grid_size: self.grid_size,
            snakes: snakes_view(self.snakes@),
            apples: self.apples@,
        }
    }
}

impl SessionView {
    /// The world of a fresh or reset session: the default cell size, no
    /// snake, no apple.
    pub open spec fn initial() -> SessionView {
        SessionView {
            grid_size: DEFAULT_GRID_SIZE,
            snakes: Seq::empty(),
            apples: Seq::empty(),
        }
    }
}

/// Copies a list of cells.
pub fn duplicate_cells(cells: &Vec<(u16, u16)>) -> (r: Vec<(u16, u16)>)
    ensures
        r@ == cells@,
{
    let mut r: Vec<(u16, u16)> = Vec::new();
    let mut i: usize = 0;
    while i < cells.len()
        invariant
            i <= cells.len(),
            r@ == cells@.take(i as int),
        decreases cells.len() - i,
    {
        r.push(cells[i]);
        i += 1;
    }
    r
}

/// Copies a list of snakes.
pub fn duplicate_snakes(snakes: &Vec<Snake>) -> (r: Vec<Snake>)
    ensures
        snakes_view(r@) == snakes_view(snakes@),
{
    let mut r: Vec<Snake> = Vec::new();
    let mut i: usize = 0;
    while i < snakes.len()
        invariant
            i <= snakes.len(),
            r@.len() == i,
            forall|k: int| 0 <= k < i ==> (#[trigger] r@[k])@ == snakes@[k]@,
        decreases snakes.len() - i,
    {
        r.push(snakes[i].duplicate());
        i += 1;
    }
    r
}

impl SnakeSession {
    /// Creates the world of a fresh session.
    pub fn new() -> (s: SnakeSession)
        ensures
            s@ == SessionView::initial(),
    {
        let s = SnakeSession { grid_size: DEFAULT_GRID_SIZE, snakes: Vec::new(), apples: Vec::new() };
        assert(snakes_view(s.snakes@) =~= Seq::empty());
        s
    }

    /// Makes an independent copy with the same value, as it is sent to the
    /// clients.
    pub fn snapshot(&self) -> (s: SnakeSession)
        ensures
            s@ == self@,
    {
        SnakeSession {
            grid_size: self.grid_size,
            snakes: duplicate_snakes(&self.snakes),
            apples: duplicate_cells(&self.apples),
        }
    }
}

} // verus!
