//! What holds of every move, stated over the model of the grid.

use vstd::prelude::*;

verus! {

use crate::grid::{
    cell, cell_at, full, line_of, line_through, no_equal_neighbours_on, place_on_line,
    settled_toward, slid, slide_change, slide_gain, slide_merges, slide_pairs, spawned, stuck,
    terminal, Direction,
};
use crate::grid_lemmas::{
    lemma_cell_at_inverse, lemma_lines_of_slid, lemma_slide_drops_tiles, lemma_slide_keeps_total,
    lemma_weight_of_slid,
};
use crate::line::{all_nonzero, gain, merge_change, merges, packed, pairs_of, settled, tiles};
use crate::line_lemmas::{
    lemma_gain_zero_iff_no_merges, lemma_merge_accounts,
    lemma_no_merges_means_no_equal_neighbours, lemma_settled_line_stays,
    lemma_slid_line_is_packed, lemma_tiles_nonzero, lemma_tiles_of_tiles,
    lemma_unchanged_line_is_settled,
};
use crate::weight::{
    by_holding, by_presence, holding, lemma_weight_update, occupied, total, weight,
};

/// A move toward an edge at which the grid is settled changes nothing and earns nothing.
pub proof fn law_settled_grid_stays(grid: Seq<nat>, dir: Direction)
    requires
        grid.len() == 16,
        settled_toward(grid, dir),
    ensures
        slid(grid, dir) == grid,
        slide_gain(grid, dir) == 0,
{
    assert forall|i: int| 0 <= i < 16 implies slid(grid, dir)[i] == grid[i] by {
        lemma_cell_at_inverse(dir, i);
        let line = line_of(grid, dir, line_through(dir, i));
        lemma_settled_line_stays(line);
        assert(line[place_on_line(dir, i)] == grid[i]);
    }
    assert(slid(grid, dir) =~= grid);
    lemma_settled_line_stays(line_of(grid, dir, 0));
    lemma_settled_line_stays(line_of(grid, dir, 1));
    lemma_settled_line_stays(line_of(grid, dir, 2));
    lemma_settled_line_stays(line_of(grid, dir, 3));
}

/// A grid that a move leaves as it is was settled at that edge.
pub proof fn law_unchanged_grid_was_settled(grid: Seq<nat>, dir: Direction)
    requires
        grid.len() == 16,
        slid(grid, dir) == grid,
    ensures
        settled_toward(grid, dir),
{
    assert forall|line: int| 0 <= line < 4 implies settled(#[trigger] line_of(grid, dir, line)) by {
        lemma_lines_of_slid(grid, dir, line);
        lemma_unchanged_line_is_settled(line_of(grid, dir, line));
    }
}

/// If the first of two moves toward the same edge settles the grid, the
/// second changes nothing and earns nothing.
pub proof fn law_second_slide_is_idle(grid: Seq<nat>, dir: Direction)
    requires
        grid.len() == 16,
        settled_toward(slid(grid, dir), dir),
    ensures
        slid(slid(grid, dir), dir) == slid(grid, dir),
        slide_gain(slid(grid, dir), dir) == 0,
{
    law_settled_grid_stays(slid(grid, dir), dir);
}

/// After a move the tiles of every line are packed against the target edge.
pub proof fn law_slide_packs_lines(grid: Seq<nat>, dir: Direction)
    requires
        grid.len() == 16,
    ensures
        forall|line: int| 0 <= line < 4 ==> packed(#[trigger] line_of(slid(grid, dir), dir, line)),
{
    assert forall|line: int| 0 <= line < 4 implies packed(
        #[trigger] line_of(slid(grid, dir), dir, line),
    ) by {
        lemma_lines_of_slid(grid, dir, line);
        lemma_slid_line_is_packed(line_of(grid, dir, line));
    }
}

/// A move keeps the sum of the tiles, whatever it earns: a merge puts one
/// tile in the place of two that add up to it.
pub proof fn law_slide_keeps_total(grid: Seq<nat>, dir: Direction)
    requires
        grid.len() == 16,
    ensures
        total(slid(grid, dir)) == total(grid),
{
    lemma_slide_keeps_total(grid, dir);
}

/// Where a move earns nothing, the sum of the tiles after it is the sum
/// before it plus what it earned.
pub proof fn law_total_after_idle_slide(grid: Seq<nat>, dir: Direction)
    requires
        grid.len() == 16,
        slide_gain(grid, dir) == 0,
    ensures
        total(slid(grid, dir)) == total(grid) + slide_gain(grid, dir),
{
    lemma_slide_keeps_total(grid, dir);
}

/// Where a move earns something, the sum of the tiles after it is less than
/// the sum before it plus what it earned: the merged tiles are counted in
/// the score, and they were on the grid before.
pub proof fn law_total_after_earning_slide(grid: Seq<nat>, dir: Direction)
    requires
        grid.len() == 16,
        slide_gain(grid, dir) > 0,
    ensures
        total(slid(grid, dir)) < total(grid) + slide_gain(grid, dir),
{
    lemma_slide_keeps_total(grid, dir);
}

/// A move earns nothing exactly when nothing merges in it.
pub proof fn law_gain_is_zero_iff_nothing_merges(grid: Seq<nat>, dir: Direction)
    requires
        grid.len() == 16,
    ensures
        slide_gain(grid, dir) == 0 <==> slide_merges(grid, dir) == 0,
{
    assert forall|line: int| 0 <= line < 4 implies (gain(#[trigger] tiles(line_of(grid, dir, line)))
        == 0 <==> merges(tiles(line_of(grid, dir, line))) == 0) by {
        lemma_tiles_nonzero(line_of(grid, dir, line));
        lemma_gain_zero_iff_no_merges(tiles(line_of(grid, dir, line)));
    }
    assert(gain(tiles(line_of(grid, dir, 0))) == 0 <==> merges(tiles(line_of(grid, dir, 0))) == 0);
    assert(gain(tiles(line_of(grid, dir, 1))) == 0 <==> merges(tiles(line_of(grid, dir, 1))) == 0);
    assert(gain(tiles(line_of(grid, dir, 2))) == 0 <==> merges(tiles(line_of(grid, dir, 2))) == 0);
    assert(gain(tiles(line_of(grid, dir, 3))) == 0 <==> merges(tiles(line_of(grid, dir, 3))) == 0);
}

/// No tile appears or disappears in a move but by a merge: any sum over the
/// tiles changes by what the merges change, each of which puts a tile of
/// twice the value in the place of two equal tiles.
pub proof fn law_slide_changes_only_by_merges(
    grid: Seq<nat>,
    dir: Direction,
    f: spec_fn(nat) -> int,
)
    requires
        grid.len() == 16,
        f(0) == 0,
    ensures
        weight(slid(grid, dir), f) == weight(grid, f) + slide_change(grid, dir, f),
{
    lemma_weight_of_slid(grid, dir, f);
}

/// A move changes how many tiles of a value there are by its merges alone:
/// each merge of two tiles of the value takes two away, and each merge of two
/// tiles of half the value adds one.
pub proof fn law_slide_accounts_for_every_tile(grid: Seq<nat>, dir: Direction, value: nat)
    requires
        grid.len() == 16,
        value > 0,
    ensures
        holding(slid(grid, dir), value) == holding(grid, value) - 2 * slide_pairs(
            grid,
            dir,
            value,
        ) + (if value % 2 == 0 {
            slide_pairs(grid, dir, value / 2) as int
        } else {
            0
        }),
{
    lemma_weight_of_slid(grid, dir, by_holding(value));
    assert forall|line: int| 0 <= line < 4 implies merge_change(
        #[trigger] tiles(line_of(grid, dir, line)),
        by_holding(value),
    ) == (if value % 2 == 0 {
        pairs_of(tiles(line_of(grid, dir, line)), value / 2) as int
    } else {
        0
    }) - 2 * pairs_of(tiles(line_of(grid, dir, line)), value) by {
        lemma_tiles_nonzero(line_of(grid, dir, line));
        lemma_merge_accounts(tiles(line_of(grid, dir, line)), value);
    }
    let t0 = tiles(line_of(grid, dir, 0));
    let t1 = tiles(line_of(grid, dir, 1));
    let t2 = tiles(line_of(grid, dir, 2));
    let t3 = tiles(line_of(grid, dir, 3));
    assert(merge_change(t0, by_holding(value)) + merge_change(t1, by_holding(value))
        + merge_change(t2, by_holding(value)) + merge_change(t3, by_holding(value))
        == slide_change(grid, dir, by_holding(value)));
}

/// A move never leaves more tiles than it found: each merge takes one away.
pub proof fn law_slide_never_adds_tiles(grid: Seq<nat>, dir: Direction)
    requires
        grid.len() == 16,
    ensures
        occupied(slid(grid, dir)) == occupied(grid) - slide_merges(grid, dir),
        occupied(slid(grid, dir)) <= occupied(grid),
{
    lemma_slide_drops_tiles(grid, dir);
}

/// A new tile leaves a full grid as it is.
pub proof fn law_spawn_on_full_grid(before: Seq<nat>, after: Seq<nat>)
    requires
        spawned(before, after),
        full(before),
    ensures
        after == before,
{
}

/// On a grid that is not full, a new tile is one tile more: one empty cell
/// gets a 2 or a 4, and every other cell stays as it is.
pub proof fn law_spawn_adds_one_tile(before: Seq<nat>, after: Seq<nat>)
    requires
        spawned(before, after),
        !full(before),
    ensures
        occupied(after) == occupied(before) + 1,
        after.len() == before.len(),
        exists|i: int|
            {
                &&& 0 <= i < before.len()
                &&& before[i] == 0
                &&& #[trigger] after[i] == 2 || after[i] == 4
                &&& forall|j: int| 0 <= j < before.len() && j != i ==> after[j] == before[j]
            },
{
    let i = choose|i: int|
        0 <= i < before.len() && before[i] == 0 && (after == #[trigger] before.update(i, 2)
            || after == before.update(i, 4));
    lemma_weight_update(before, by_presence(), i, after[i]);
    assert(after == before.update(i, after[i]));
    assert(after[i] == 2 || after[i] == 4);
}

/// The lines of a full grid consist of tiles only.
proof fn lemma_lines_of_full(grid: Seq<nat>, dir: Direction, line: int)
    requires
        grid.len() == 16,
        full(grid),
        0 <= line < 4,
    ensures
        all_nonzero(line_of(grid, dir, line)),
        tiles(line_of(grid, dir, line)) == line_of(grid, dir, line),
        packed(line_of(grid, dir, line)),
{
    let cells = line_of(grid, dir, line);
    assert forall|k: int| 0 <= k < cells.len() implies cells[k] != 0 by {
        assert(0 <= cell_at(dir, line, k) < 16);
    }
    lemma_tiles_of_tiles(cells);
}

/// On a grid where no move can change anything, every line is settled.
pub proof fn law_stuck_grid_is_settled(grid: Seq<nat>, dir: Direction)
    requires
        grid.len() == 16,
        stuck(grid),
    ensures
        settled_toward(grid, dir),
{
    assert forall|line: int| 0 <= line < 4 implies settled(#[trigger] line_of(grid, dir, line)) by {
        let cells = line_of(grid, dir, line);
        lemma_lines_of_full(grid, dir, line);
        assert forall|k: int| 0 <= k < cells.len() - 1 implies cells[k] != #[trigger] cells[k
            + 1] by {
            match dir {
                Direction::Left => {
                    assert(cell(grid, line, k) != cell(grid, line, k + 1));
                },
                Direction::Right => {
                    assert(cell(grid, line, 2 - k) != cell(grid, line, (2 - k) + 1));
                },
                Direction::Up => {
                    assert(cell(grid, k, line) != cell(grid, k + 1, line));
                },
                Direction::Down => {
                    assert(cell(grid, 2 - k, line) != cell(grid, (2 - k) + 1, line));
                },
            }
        }
    }
}

/// A move on a full grid that is not settled at the target edge merges
/// something, and so leaves fewer tiles.
proof fn lemma_unsettled_full_grid_loses_tiles(grid: Seq<nat>, dir: Direction)
    requires
        grid.len() == 16,
        full(grid),
        !settled_toward(grid, dir),
    ensures
        occupied(slid(grid, dir)) < occupied(grid),
{
    let line = choose|line: int| 0 <= line < 4 && !settled(#[trigger] line_of(grid, dir, line));
    lemma_lines_of_full(grid, dir, line);
    if merges(tiles(line_of(grid, dir, line))) == 0 {
        lemma_no_merges_means_no_equal_neighbours(tiles(line_of(grid, dir, line)));
    }
    lemma_slide_drops_tiles(grid, dir);
}

/// A full grid that is settled toward the top and toward the left has no two
/// equal neighbours.
proof fn lemma_settled_has_no_equal_neighbours(grid: Seq<nat>)
    requires
        grid.len() == 16,
        full(grid),
        settled_toward(grid, Direction::Up),
        settled_toward(grid, Direction::Left),
    ensures
        no_equal_neighbours_on(grid),
{
    assert forall|row: int, col: int| 0 <= row < 4 && 0 <= col < 3 implies #[trigger] cell(
        grid,
        row,
        col,
    ) != cell(grid, row, col + 1) by {
        let cells = line_of(grid, Direction::Left, row);
        lemma_lines_of_full(grid, Direction::Left, row);
        assert(settled(cells));
        assert(cells[col] != cells[col + 1]);
    }
    assert forall|row: int, col: int| 0 <= row < 3 && 0 <= col < 4 implies #[trigger] cell(
        grid,
        row,
        col,
    ) != cell(grid, row + 1, col) by {
        let cells = line_of(grid, Direction::Up, col);
        lemma_lines_of_full(grid, Direction::Up, col);
        assert(settled(cells));
        assert(cells[row] != cells[row + 1]);
    }
}

/// The game is over exactly on the grids that no move can change: the full
/// grids without two equal neighbours. The four moves of the test are made
/// one after the other, and still none of them hides a change made by
/// another, since a move on a full grid changes it only by taking tiles away
/// and no move brings a tile back.
pub proof fn law_terminal_means_stuck(grid: Seq<nat>)
    requires
        grid.len() == 16,
    ensures
        terminal(grid) <==> stuck(grid),
{
    let up = slid(grid, Direction::Up);
    let down = slid(up, Direction::Down);
    let right = slid(down, Direction::Right);
    let left = slid(right, Direction::Left);
    if stuck(grid) {
        law_stuck_grid_is_settled(grid, Direction::Up);
        law_stuck_grid_is_settled(grid, Direction::Down);
        law_stuck_grid_is_settled(grid, Direction::Right);
        law_stuck_grid_is_settled(grid, Direction::Left);
        law_settled_grid_stays(grid, Direction::Up);
        law_settled_grid_stays(grid, Direction::Down);
        law_settled_grid_stays(grid, Direction::Right);
        law_settled_grid_stays(grid, Direction::Left);
    }
    if terminal(grid) {
        lemma_slide_drops_tiles(grid, Direction::Up);
        lemma_slide_drops_tiles(up, Direction::Down);
        lemma_slide_drops_tiles(down, Direction::Right);
        lemma_slide_drops_tiles(right, Direction::Left);
        if !settled_toward(grid, Direction::Up) {
            lemma_unsettled_full_grid_loses_tiles(grid, Direction::Up);
        }
        law_settled_grid_stays(grid, Direction::Up);
        assert(up == grid);
        if !settled_toward(grid, Direction::Down) {
            lemma_unsettled_full_grid_loses_tiles(grid, Direction::Down);
        }
        law_settled_grid_stays(grid, Direction::Down);
        assert(down == grid);
        if !settled_toward(grid, Direction::Right) {
            lemma_unsettled_full_grid_loses_tiles(grid, Direction::Right);
        }
        law_settled_grid_stays(grid, Direction::Right);
        assert(right == grid);
        law_unchanged_grid_was_settled(grid, Direction::Left);
        lemma_settled_has_no_equal_neighbours(grid);
    }
}

/// A grid with an empty cell is never one on which the game is over.
pub proof fn law_free_cell_means_not_terminal(grid: Seq<nat>, i: int)
    requires
        0 <= i < grid.len(),
        grid[i] == 0,
    ensures
        !terminal(grid),
{
}

/// The game is over on a full grid without two equal neighbours.
pub proof fn law_stuck_is_terminal(grid: Seq<nat>)
    requires
        grid.len() == 16,
        stuck(grid),
    ensures
        terminal(grid),
{
    law_terminal_means_stuck(grid);
}

} // verus!
