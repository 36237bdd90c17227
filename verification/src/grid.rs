//! The model of the board: a grid of sixteen cells, and a move on it.
//!
//! The grid is a sequence of sixteen naturals, row by row from the top, each
//! row from the left. A move in a direction treats the grid as four lines,
//! rows for left and right and columns for up and down, each read from the
//! edge that the tiles move toward, and slides each line on its own.

use vstd::prelude::*;

verus! {

use crate::line::{line_gain, merge_change, merges, pairs_of, settled, slid_line, tiles};
use crate::tile::is_cell;

/// The number of cells of the board.
pub const CELLS: usize = 16;

/// The edge toward which a move slides the tiles.
#[derive(Clone, Copy, Debug, PartialEq, Eq, Structural)]
pub enum Direction {
    Up,
    Down,
    Left,
    Right,
}

/// The index on the grid of cell `k` of line `line`, for a move toward `dir`.
/// Cell 0 of a line lies at the edge that the tiles move toward.
pub open spec fn cell_at(dir: Direction, line: int, k: int) -> int {
    match dir {
        Direction::Left => 4 * line + k,
        Direction::Right => 4 * line + (3 - k),
        Direction::Up => 4 * k + line,
        Direction::Down => 4 * (3 - k) + line,
    }
}

/// The line that the cell at index `i` lies on, for a move toward `dir`.
pub open spec fn line_through(dir: Direction, i: int) -> int {
    match dir {
        Direction::Left | Direction::Right => i / 4,
        Direction::Up | Direction::Down => i % 4,
    }
}

/// The place on its line of the cell at index `i`, for a move toward `dir`.
pub open spec fn place_on_line(dir: Direction, i: int) -> int {
    match dir {
        Direction::Left => i % 4,
        Direction::Right => 3 - i % 4,
        Direction::Up => i / 4,
        Direction::Down => 3 - i / 4,
    }
}

/// Line `line` of `grid` for a move toward `dir`, read from the target edge.
pub open spec fn line_of(grid: Seq<nat>, dir: Direction, line: int) -> Seq<nat> {
    Seq::new(4, |k: int| grid[cell_at(dir, line, k)])
}

/// `grid` with line `line`, for a move toward `dir`, replaced by `cells`.
pub open spec fn with_line(grid: Seq<nat>, dir: Direction, line: int, cells: Seq<nat>) -> Seq<
    nat,
> {
    Seq::new(
        16,
        |i: int|
            if line_through(dir, i) == line {
                cells[place_on_line(dir, i)]
            } else {
                grid[i]
            },
    )
}

/// The grid after a move toward `dir`.
pub open spec fn slid(grid: Seq<nat>, dir: Direction) -> Seq<nat> {
    Seq::new(
        16,
        |i: int| slid_line(line_of(grid, dir, line_through(dir, i)))[place_on_line(dir, i)],
    )
}

/// The score that a move toward `dir` earns: the sum of the tiles that merges make.
pub open spec fn slide_gain(grid: Seq<nat>, dir: Direction) -> nat {
    line_gain(line_of(grid, dir, 0)) + line_gain(line_of(grid, dir, 1)) + line_gain(
        line_of(grid, dir, 2),
    ) + line_gain(line_of(grid, dir, 3))
}

/// The number of merges in a move toward `dir`.
pub open spec fn slide_merges(grid: Seq<nat>, dir: Direction) -> nat {
    merges(tiles(line_of(grid, dir, 0))) + merges(tiles(line_of(grid, dir, 1))) + merges(
        tiles(line_of(grid, dir, 2)),
    ) + merges(tiles(line_of(grid, dir, 3)))
}

/// The number of merges of two tiles of the value `v` in a move toward `dir`.
pub open spec fn slide_pairs(grid: Seq<nat>, dir: Direction, v: nat) -> nat {
    pairs_of(tiles(line_of(grid, dir, 0)), v) + pairs_of(tiles(line_of(grid, dir, 1)), v)
        + pairs_of(tiles(line_of(grid, dir, 2)), v) + pairs_of(tiles(line_of(grid, dir, 3)), v)
}

/// The change of a weight that the merges of a move toward `dir` cause.
pub open spec fn slide_change(grid: Seq<nat>, dir: Direction, f: spec_fn(nat) -> int) -> int {
    merge_change(tiles(line_of(grid, dir, 0)), f) + merge_change(tiles(line_of(grid, dir, 1)), f)
        + merge_change(tiles(line_of(grid, dir, 2)), f) + merge_change(
        tiles(line_of(grid, dir, 3)),
        f,
    )
}

/// Every line of `grid`, for a move toward `dir`, is settled: the tiles are
/// packed against the target edge and no two neighbours on a line are equal.
pub open spec fn settled_toward(grid: Seq<nat>, dir: Direction) -> bool {
    forall|line: int| 0 <= line < 4 ==> settled(#[trigger] line_of(grid, dir, line))
}

/// The grid without any tile.
pub open spec fn empty_grid() -> Seq<nat> {
    Seq::new(16, |i: int| 0nat)
}

/// `grid` has sixteen cells, each empty or holding a tile.
pub open spec fn well_formed(grid: Seq<nat>) -> bool {
    &&& grid.len() == 16
    &&& forall|i: int| 0 <= i < 16 ==> is_cell(#[trigger] grid[i])
}

/// No cell of `grid` is empty.
pub open spec fn full(grid: Seq<nat>) -> bool {
    forall|i: int| 0 <= i < grid.len() ==> grid[i] != 0
}

/// The indices of the empty cells of `grid`, in rising order.
pub open spec fn free_cells(grid: Seq<nat>) -> Seq<int>
    decreases grid.len(),
{
    if grid.len() == 0 {
        Seq::empty()
    } else if grid.last() == 0 {
        free_cells(grid.drop_last()).push(grid.len() - 1)
    } else {
        free_cells(grid.drop_last())
    }
}

/// The tile that appears for the roll of a ten-sided die: a 4 for one face, a 2 for the others.
pub open spec fn tile_for(roll: nat) -> nat {
    if roll == 0 {
        4
    } else {
        2
    }
}

/// The grid after a tile has appeared: the empty cell number `slot`, counted
/// from 0 in the order of the indices, holds the tile for `roll`. Where there
/// is no such empty cell the grid stays as it is.
pub open spec fn with_new_tile(grid: Seq<nat>, slot: nat, roll: nat) -> Seq<nat> {
    let free = free_cells(grid);
    if slot < free.len() {
        grid.update(free[slot as int], tile_for(roll))
    } else {
        grid
    }
}

/// `after` is what a new tile can make of `before`: a 2 or a 4 in the place
/// of one empty cell, or no change if no cell is empty.
pub open spec fn spawned(before: Seq<nat>, after: Seq<nat>) -> bool {
    if full(before) {
        after == before
    } else {
        exists|i: int|
            0 <= i < before.len() && before[i] == 0 && (after == #[trigger] before.update(i, 2)
                || after == before.update(i, 4))
    }
}

/// The game is over on `grid`: it is full, and four moves in a row, up, down,
/// right and left, each made on the outcome of the one before, end on the
/// grid they started from.
pub open spec fn terminal(grid: Seq<nat>) -> bool {
    full(grid) && slid(
        slid(slid(slid(grid, Direction::Up), Direction::Down), Direction::Right),
        Direction::Left,
    ) == grid
}

/// The cell of `grid` in row `row` and column `col`.
pub open spec fn cell(grid: Seq<nat>, row: int, col: int) -> nat {
    grid[4 * row + col]
}

/// No two cells that lie side by side in a row, or one above the other in a
/// column, hold the same value.
pub open spec fn no_equal_neighbours_on(grid: Seq<nat>) -> bool {
    &&& forall|row: int, col: int|
        0 <= row < 4 && 0 <= col < 3 ==> #[trigger] cell(grid, row, col) != cell(
            grid,
            row,
            col + 1,
        )
    &&& forall|row: int, col: int|
        0 <= row < 3 && 0 <= col < 4 ==> #[trigger] cell(grid, row, col) != cell(
            grid,
            row + 1,
            col,
        )
}

/// No move can change `grid`: it is full and no two neighbours are equal.
pub open spec fn stuck(grid: Seq<nat>) -> bool {
    full(grid) && no_equal_neighbours_on(grid)
}

} // verus!
