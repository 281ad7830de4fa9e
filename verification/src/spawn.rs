//! The apple spawner: puts a new apple on a cell that no snake covers.

use crate::grid::{cells_per_col, cells_per_row, in_grid, lemma_cell_counts, spec_cells_per_col, spec_cells_per_row, usable_grid_size};
use crate::snake::{snakes_view, Snake, SnakeView};
use vstd::prelude::*;

verus! {

/// How many cells the spawner tries before it gives up for this tick.
pub const MAX_SPAWN_ATTEMPTS: u32 = 1024;

/// No snake of the list covers `cell`.
pub open spec fn is_free(snakes: Seq<SnakeView>, cell: (u16, u16)) -> bool {
    forall|i: int| 0 <= i < snakes.len() ==> !(#[trigger] snakes[i]).occupies(cell)
}

/// The cell that a pair of random draws stands for: each draw is reduced
/// modulo the number of cells on its axis.
pub open spec fn candidate_cell(rx: u16, ry: u16, grid_size: u16) -> (u16, u16) {
    (
        (rx as int % spec_cells_per_row(grid_size)) as u16,
        (ry as int % spec_cells_per_col(grid_size)) as u16,
    )
}

/// No snake of the list covers any cell of the grid: whatever is drawn, the
/// cell it stands for is free.
pub open spec fn grid_is_clear(snakes: Seq<SnakeView>, grid_size: u16) -> bool {
    forall|cell: (u16, u16)| in_grid(cell, grid_size) ==> #[trigger] is_free(snakes, cell)
}

/// Tells whether no snake of the list covers `cell`.
pub fn cell_is_free(snakes: &Vec<Snake>, cell: (u16, u16)) -> (b: bool)
    ensures
        b == is_free(snakes_view(snakes@), cell),
{
    let mut i: usize = 0;
    while i < snakes.len()
        invariant
            i <= snakes.len(),
            forall|k: int| 0 <= k < i ==> !(#[trigger] snakes_view(snakes@)[k]).occupies(cell),
        decreases snakes.len() - i,
    {
        if snakes[i].occupies(cell) {
            assert(snakes_view(snakes@)[i as int].occupies(cell));
            return false;
        }
        i += 1;
    }
    true
}

/// Tries the cell that the draws `rx` and `ry` stand for. If no snake covers
/// it, an apple is put there and the cell is returned; otherwise the apples
/// stay as they are.
pub fn place_apple(
    snakes: &Vec<Snake>,
    apples: &mut Vec<(u16, u16)>,
    grid_size: u16,
    rx: u16,
    ry: u16,
) -> (placed: Option<(u16, u16)>)
    requires
        usable_grid_size(grid_size),
    ensures
        placed == (if is_free(snakes_view(snakes@), candidate_cell(rx, ry, grid_size)) {
            Some(candidate_cell(rx, ry, grid_size))
        } else {
            None
        }),
        placed is Some ==> final(apples)@ == old(apples)@.push(candidate_cell(rx, ry, grid_size)),
        placed is None ==> final(apples)@ == old(apples)@,
        in_grid(candidate_cell(rx, ry, grid_size), grid_size),
{
    proof {
        lemma_cell_counts(grid_size);
    }
    let cell = (rx % cells_per_row(grid_size), ry % cells_per_col(grid_size));
    if cell_is_free(snakes, cell) {
        apples.push(cell);
        Some(cell)
    } else {
        None
    }
}

/// Draws one number from the host's random source, through
/// `turbo_genesis_sdk::random::u16`. Nothing is claimed of the number: the
/// source decides it.
#[verifier::external_body]
fn random_u16() -> u16 {
    turbo_genesis_sdk::random::u16()
}

/// Puts one new apple on a randomly drawn cell that no snake covers. Cells
/// are drawn until a free one comes up; after [`MAX_SPAWN_ATTEMPTS`] covered
/// cells the spawner gives up and leaves the apples as they are.
///
/// Returns the cell of the new apple, if one was placed. On a grid that no
/// snake touches the first draw is good, so an apple is always placed; on a
/// grid that the snakes cover wholly none ever is. In between, which cell it
/// is, and whether a free one came up in time, is for the random source to
/// say.
pub fn create_new_apple(snakes: &Vec<Snake>, apples: &mut Vec<(u16, u16)>, grid_size: u16) -> (placed:
    Option<(u16, u16)>)
    requires
        usable_grid_size(grid_size),
    ensures
        match placed {
            Some(cell) => {
                &&& in_grid(cell, grid_size)
                &&& is_free(snakes_view(snakes@), cell)
                &&& final(apples)@ == old(apples)@.push(cell)
            },
            None => final(apples)@ == old(apples)@,
        },
        grid_is_clear(snakes_view(snakes@), grid_size) ==> placed is Some,
{
    let mut attempt: u32 = 0;
    while attempt < MAX_SPAWN_ATTEMPTS
        invariant
            usable_grid_size(grid_size),
            attempt <= MAX_SPAWN_ATTEMPTS,
            apples@ == old(apples)@,
            attempt > 0 ==> !grid_is_clear(snakes_view(snakes@), grid_size),
        decreases MAX_SPAWN_ATTEMPTS - attempt,
    {
        let rx = random_u16();
        let ry = random_u16();
        let placed = place_apple(snakes, apples, grid_size, rx, ry);
        if placed.is_some() {
            return placed;
        }
        assert(!is_free(snakes_view(snakes@), candidate_cell(rx, ry, grid_size)));
        attempt += 1;
    }
    None
}

} // verus!
