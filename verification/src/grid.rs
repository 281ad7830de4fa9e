//! Grid geometry: a fixed canvas cut into square cells, with wrap-around
//! movement on both axes.

use vstd::prelude::*;

verus! {

/// Width of the canvas, in canvas units.
pub const CANVAS_WIDTH: u16 = 512;

/// Height of the canvas, in canvas units.
pub const CANVAS_HEIGHT: u16 = 512;

/// Edge length of a cell when a session starts or is reset.
pub const DEFAULT_GRID_SIZE: u16 = 16;

/// One of the four facings of a snake.
#[derive(Clone, Copy, Debug, PartialEq, Eq, Structural)]
pub enum Direction {
    Up,
    Down,
    Left,
    Right,
}

impl Direction {
    /// The facing that points the other way.
    pub open spec fn spec_opposite(self) -> Direction {
        match self {
            Direction::Up => Direction::Down,
            Direction::Down => Direction::Up,
            Direction::Left => Direction::Right,
            Direction::Right => Direction::Left,
        }
    }

    /// The facing a snake has after it is asked to face `wanted`: a reversal
    /// is refused, anything else is taken.
    pub open spec fn spec_turn(self, wanted: Direction) -> Direction {
        if wanted == self.spec_opposite() {
            self
        } else {
            wanted
        }
    }

    /// Returns the facing that points the other way.
    pub fn opposite(self) -> (r: Direction)
        ensures
            r == self.spec_opposite(),
    {
        match self {
            Direction::Up => Direction::Down,
            Direction::Down => Direction::Up,
            Direction::Left => Direction::Right,
            Direction::Right => Direction::Left,
        }
    }

    /// Applies a requested change of facing. The request is dropped when it
    /// would reverse the snake onto its own neck; every other request,
    /// including the current facing, is granted.
    pub fn turn(self, wanted: Direction) -> (r: Direction)
        ensures
            r == self.spec_turn(wanted),
            wanted == self.spec_opposite() ==> r == self,
            wanted != self.spec_opposite() ==> r == wanted,
    {
        match (self, wanted) {
            (Direction::Up, Direction::Down) => self,
            (Direction::Down, Direction::Up) => self,
            (Direction::Left, Direction::Right) => self,
            (Direction::Right, Direction::Left) => self,
            _ => wanted,
        }
    }
}

/// A grid size for which both axes hold at least one cell.
pub open spec fn usable_grid_size(grid_size: u16) -> bool {
    0 < grid_size <= CANVAS_WIDTH && grid_size <= CANVAS_HEIGHT
}

/// A grid size that cuts the canvas into whole cells.
pub open spec fn divides_canvas(grid_size: u16) -> bool {
    grid_size > 0 && CANVAS_WIDTH % grid_size == 0 && CANVAS_HEIGHT % grid_size == 0
}

/// Number of cells in a row.
pub open spec fn spec_cells_per_row(grid_size: u16) -> int {
    CANVAS_WIDTH as int / grid_size as int
}

/// Number of cells in a column.
pub open spec fn spec_cells_per_col(grid_size: u16) -> int {
    CANVAS_HEIGHT as int / grid_size as int
}

/// Whether a cell lies on the grid of the given cell size.
pub open spec fn in_grid(cell: (u16, u16), grid_size: u16) -> bool {
    cell.0 < spec_cells_per_row(grid_size) && cell.1 < spec_cells_per_col(grid_size)
}

/// The cell one step away from `cell` in direction `dir`, wrapping at the
/// edges of a grid of `width` by `height` cells.
pub open spec fn spec_step(cell: (u16, u16), dir: Direction, width: int, height: int) -> (
    int,
    int,
) {
    match dir {
        Direction::Up => (cell.0 as int, (height + cell.1 - 1) % height),
        Direction::Down => (cell.0 as int, (cell.1 + 1) % height),
        Direction::Left => ((width + cell.0 - 1) % width, cell.1 as int),
        Direction::Right => ((cell.0 + 1) % width, cell.1 as int),
    }
}

/// The head a snake gets when it moves one cell on the grid of the given
/// cell size.
pub open spec fn spec_next_head(head: (u16, u16), dir: Direction, grid_size: u16) -> (u16, u16) {
    let c = spec_step(head, dir, spec_cells_per_row(grid_size), spec_cells_per_col(grid_size));
    (c.0 as u16, c.1 as u16)
}

/// Returns the number of cells in a row.
pub fn cells_per_row(grid_size: u16) -> (n: u16)
    requires
        grid_size > 0,
    ensures
        n == spec_cells_per_row(grid_size),
{
    CANVAS_WIDTH / grid_size
}

/// Returns the number of cells in a column.
pub fn cells_per_col(grid_size: u16) -> (n: u16)
    requires
        grid_size > 0,
    ensures
        n == spec_cells_per_col(grid_size),
{
    CANVAS_HEIGHT / grid_size
}

/// Moves one cell along an axis of `count` cells, forwards or backwards,
/// wrapping at both ends.
fn wrap_step(v: u16, count: u16, forward: bool) -> (r: u16)
    requires
        count > 0,
    ensures
        forward ==> r == (v + 1) % (count as int),
        !forward ==> r == (count + v - 1) % (count as int),
        r < count,
{
    let wide: u32 = if forward {
        (v as u32 + 1) % (count as u32)
    } else {
        (count as u32 + v as u32 - 1) % (count as u32)
    };
    wide as u16
}

/// Computes the head a snake gets when it moves one cell in direction `dir`.
/// Moving off one edge of the grid lands on the opposite edge.
pub fn next_head(head: (u16, u16), dir: Direction, grid_size: u16) -> (r: (u16, u16))
    requires
        usable_grid_size(grid_size),
    ensures
        r == spec_next_head(head, dir, grid_size),
        in_grid(head, grid_size) ==> in_grid(r, grid_size),
        dir == Direction::Up || dir == Direction::Down ==> r.0 == head.0 && r.1
            < spec_cells_per_col(grid_size),
        dir == Direction::Left || dir == Direction::Right ==> r.1 == head.1 && r.0
            < spec_cells_per_row(grid_size),
{
    let width = cells_per_row(grid_size);
    let height = cells_per_col(grid_size);
    proof {
        lemma_cell_counts(grid_size);
    }
    match dir {
        Direction::Up => (head.0, wrap_step(head.1, height, false)),
        Direction::Down => (head.0, wrap_step(head.1, height, true)),
        Direction::Left => (wrap_step(head.0, width, false), head.1),
        Direction::Right => (wrap_step(head.0, width, true), head.1),
    }
}

/// A usable grid size gives between one and 512 cells on each axis.
pub proof fn lemma_cell_counts(grid_size: u16)
    requires
        usable_grid_size(grid_size),
    ensures
        1 <= spec_cells_per_row(grid_size) <= CANVAS_WIDTH,
        1 <= spec_cells_per_col(grid_size) <= CANVAS_HEIGHT,
{
    assert(1 <= 512int / (grid_size as int) <= 512) by (nonlinear_arith)
        requires
            0 < grid_size <= 512,
    ;
}

/// A grid size that cuts the canvas into whole cells is usable.
pub proof fn lemma_dividing_size_is_usable(grid_size: u16)
    requires
        divides_canvas(grid_size),
    ensures
        usable_grid_size(grid_size),
{
    if grid_size > 512 {
        assert(512int % (grid_size as int) == 512) by (nonlinear_arith)
            requires
                grid_size > 512,
        ;
    }
}

/// A head on the grid does not leave it when the snake moves one cell in a
/// direction and, a tick later, one cell in the opposite direction: after
/// each of the two steps its column is below the number of cells per row and
/// its row below the number of cells per column. The second step brings the
/// head back to where it started.
pub proof fn lemma_there_and_back(head: (u16, u16), dir: Direction, grid_size: u16)
    requires
        usable_grid_size(grid_size),
        in_grid(head, grid_size),
    ensures
        in_grid(spec_next_head(head, dir, grid_size), grid_size),
        in_grid(
            spec_next_head(spec_next_head(head, dir, grid_size), dir.spec_opposite(), grid_size),
            grid_size,
        ),
        spec_next_head(spec_next_head(head, dir, grid_size), dir.spec_opposite(), grid_size)
            == head,
{
    lemma_cell_counts(grid_size);
    let w = spec_cells_per_row(grid_size);
    let h = spec_cells_per_col(grid_size);
    lemma_wrap_round_trip(head.0 as int, w);
    lemma_wrap_round_trip(head.1 as int, h);
}

/// On an axis of `n` cells, a step forwards and a step backwards undo each
/// other, and neither leaves the axis.
proof fn lemma_wrap_round_trip(v: int, n: int)
    requires
        0 <= v < n,
    ensures
        0 <= (v + 1) % n < n,
        0 <= (n + v - 1) % n < n,
        (n + (v + 1) % n - 1) % n == v,
        ((n + v - 1) % n + 1) % n == v,
{
    if v + 1 < n {
        assert((v + 1) % n == v + 1) by (nonlinear_arith)
            requires
                0 <= v + 1 < n,
        ;
        assert((n + (v + 1) - 1) % n == v) by (nonlinear_arith)
            requires
                0 <= v < n,
        ;
    } else {
        assert((v + 1) % n == 0) by (nonlinear_arith)
            requires
                v + 1 == n,
                n > 0,
        ;
        assert((n + 0 - 1) % n == n - 1) by (nonlinear_arith)
            requires
                n > 0,
        ;
    }
    if v > 0 {
        assert((n + v - 1) % n == v - 1) by (nonlinear_arith)
            requires
                0 < v < n,
        ;
        assert((v - 1 + 1) % n == v) by (nonlinear_arith)
            requires
                0 <= v < n,
        ;
    } else {
        assert((n + v - 1) % n == n - 1) by (nonlinear_arith)
            requires
                v == 0,
                n > 0,
        ;
        assert((n - 1 + 1) % n == 0) by (nonlinear_arith)
            requires
                n > 0,
        ;
    }
}

} // verus!
