//! What holds of the model of the grid.

use vstd::prelude::*;

verus! {

use crate::grid::{
    cell_at, free_cells, full, line_of, line_through, place_on_line, slid, slide_change,
    slide_merges, spawned, well_formed, with_new_tile, Direction,
};
use crate::line::{line_gain, slid_line, tiles};
use crate::line_lemmas::{
    lemma_gain_at_most_total, lemma_merge_drops_tiles, lemma_merge_keeps_total,
    lemma_slid_line_cells, lemma_tiles_nonzero, lemma_weight_of_slid_line, lemma_weight_of_tiles,
};
use crate::tile::is_cell;
use crate::weight::{
    by_presence, by_value, lemma_weight_concat, lemma_weight_four, lemma_weight_nonnegative,
    occupied, total, weight,
};

/// The score that the first `lines` lines earn in a move toward `dir`.
pub open spec fn gain_of_lines(grid: Seq<nat>, dir: Direction, lines: nat) -> nat
    decreases lines,
{
    if lines == 0 {
        0
    } else {
        gain_of_lines(grid, dir, (lines - 1) as nat) + line_gain(
            line_of(grid, dir, lines - 1),
        )
    }
}

/// The weight of the first `lines` lines of `grid` for a move toward `dir`.
pub open spec fn weight_of_lines(
    grid: Seq<nat>,
    dir: Direction,
    f: spec_fn(nat) -> int,
    lines: nat,
) -> int
    decreases lines,
{
    if lines == 0 {
        0
    } else {
        weight_of_lines(grid, dir, f, (lines - 1) as nat) + weight(
            line_of(grid, dir, lines - 1),
            f,
        )
    }
}

/// Every cell lies at the place of its line that the two index functions give.
pub proof fn lemma_cell_at_inverse(dir: Direction, i: int)
    requires
        0 <= i < 16,
    ensures
        0 <= line_through(dir, i) < 4,
        0 <= place_on_line(dir, i) < 4,
        cell_at(dir, line_through(dir, i), place_on_line(dir, i)) == i,
{
}

/// A move slides each line on its own.
pub proof fn lemma_lines_of_slid(grid: Seq<nat>, dir: Direction, line: int)
    requires
        0 <= line < 4,
    ensures
        line_of(slid(grid, dir), dir, line) == slid_line(line_of(grid, dir, line)),
{
    let after = line_of(slid(grid, dir), dir, line);
    let expected = slid_line(line_of(grid, dir, line));
    assert forall|k: int| 0 <= k < 4 implies after[k] == expected[k] by {
        let i = cell_at(dir, line, k);
        assert(line_through(dir, i) == line);
        assert(place_on_line(dir, i) == k);
    }
    assert(after =~= expected);
}

/// The weight of a grid, written out cell by cell.
pub proof fn lemma_weight_sixteen(grid: Seq<nat>, f: spec_fn(nat) -> int)
    requires
        grid.len() == 16,
    ensures
        weight(grid, f) == f(grid[0]) + f(grid[1]) + f(grid[2]) + f(grid[3]) + f(grid[4]) + f(
            grid[5],
        ) + f(grid[6]) + f(grid[7]) + f(grid[8]) + f(grid[9]) + f(grid[10]) + f(grid[11]) + f(
            grid[12],
        ) + f(grid[13]) + f(grid[14]) + f(grid[15]),
{
    let a = grid.subrange(0, 4);
    let b = grid.subrange(4, 8);
    let c = grid.subrange(8, 12);
    let d = grid.subrange(12, 16);
    assert(grid == ((a + b) + c) + d);
    lemma_weight_concat((a + b) + c, d, f);
    lemma_weight_concat(a + b, c, f);
    lemma_weight_concat(a, b, f);
    lemma_weight_four(a, f);
    lemma_weight_four(b, f);
    lemma_weight_four(c, f);
    lemma_weight_four(d, f);
}

/// A grid weighs what its four lines weigh together, whichever way it is cut into lines.
pub proof fn lemma_weight_by_lines(grid: Seq<nat>, dir: Direction, f: spec_fn(nat) -> int)
    requires
        grid.len() == 16,
    ensures
        weight(grid, f) == weight_of_lines(grid, dir, f, 4),
        weight_of_lines(grid, dir, f, 4) == weight(line_of(grid, dir, 0), f) + weight(
            line_of(grid, dir, 1),
            f,
        ) + weight(line_of(grid, dir, 2), f) + weight(line_of(grid, dir, 3), f),
{
    lemma_weight_sixteen(grid, f);
    lemma_weight_four(line_of(grid, dir, 0), f);
    lemma_weight_four(line_of(grid, dir, 1), f);
    lemma_weight_four(line_of(grid, dir, 2), f);
    lemma_weight_four(line_of(grid, dir, 3), f);
    reveal_with_fuel(weight_of_lines, 5);
}

/// The weight of the grid after a move, from the weight before it.
pub proof fn lemma_weight_of_slid(grid: Seq<nat>, dir: Direction, f: spec_fn(nat) -> int)
    requires
        grid.len() == 16,
        f(0) == 0,
    ensures
        weight(slid(grid, dir), f) == weight(grid, f) + slide_change(grid, dir, f),
{
    lemma_weight_by_lines(grid, dir, f);
    lemma_weight_by_lines(slid(grid, dir), dir, f);
    lemma_lines_of_slid(grid, dir, 0);
    lemma_lines_of_slid(grid, dir, 1);
    lemma_lines_of_slid(grid, dir, 2);
    lemma_lines_of_slid(grid, dir, 3);
    lemma_weight_of_slid_line(line_of(grid, dir, 0), f);
    lemma_weight_of_slid_line(line_of(grid, dir, 1), f);
    lemma_weight_of_slid_line(line_of(grid, dir, 2), f);
    lemma_weight_of_slid_line(line_of(grid, dir, 3), f);
}

/// A move keeps the sum of the tiles: merging two tiles makes one of their sum.
pub proof fn lemma_slide_keeps_total(grid: Seq<nat>, dir: Direction)
    requires
        grid.len() == 16,
    ensures
        total(slid(grid, dir)) == total(grid),
{
    lemma_weight_of_slid(grid, dir, by_value());
    lemma_merge_keeps_total(tiles(line_of(grid, dir, 0)));
    lemma_merge_keeps_total(tiles(line_of(grid, dir, 1)));
    lemma_merge_keeps_total(tiles(line_of(grid, dir, 2)));
    lemma_merge_keeps_total(tiles(line_of(grid, dir, 3)));
}

/// A move leaves one tile less for each merge, and no tile more.
pub proof fn lemma_slide_drops_tiles(grid: Seq<nat>, dir: Direction)
    requires
        grid.len() == 16,
    ensures
        occupied(slid(grid, dir)) == occupied(grid) - slide_merges(grid, dir),
{
    lemma_weight_of_slid(grid, dir, by_presence());
    lemma_tiles_nonzero(line_of(grid, dir, 0));
    lemma_tiles_nonzero(line_of(grid, dir, 1));
    lemma_tiles_nonzero(line_of(grid, dir, 2));
    lemma_tiles_nonzero(line_of(grid, dir, 3));
    lemma_merge_drops_tiles(tiles(line_of(grid, dir, 0)));
    lemma_merge_drops_tiles(tiles(line_of(grid, dir, 1)));
    lemma_merge_drops_tiles(tiles(line_of(grid, dir, 2)));
    lemma_merge_drops_tiles(tiles(line_of(grid, dir, 3)));
}

/// What the first lines of a move earn is at most what those lines hold.
proof fn lemma_gain_within_lines(grid: Seq<nat>, dir: Direction, lines: nat)
    ensures
        gain_of_lines(grid, dir, lines) <= weight_of_lines(grid, dir, by_value(), lines),
    decreases lines,
{
    if lines > 0 {
        let line = line_of(grid, dir, lines - 1);
        lemma_gain_within_lines(grid, dir, (lines - 1) as nat);
        lemma_gain_at_most_total(tiles(line));
        lemma_weight_of_tiles(line, by_value());
    }
}

/// What the first lines of a move earn is at most what those lines hold, and
/// that is at most what the grid holds.
pub proof fn lemma_gain_of_lines_bound(grid: Seq<nat>, dir: Direction, lines: nat)
    requires
        grid.len() == 16,
        lines <= 4,
    ensures
        gain_of_lines(grid, dir, lines) <= weight_of_lines(grid, dir, by_value(), lines),
        weight_of_lines(grid, dir, by_value(), lines) <= total(grid),
    decreases 4 - lines,
{
    lemma_gain_within_lines(grid, dir, lines);
    if lines < 4 {
        lemma_gain_of_lines_bound(grid, dir, lines + 1);
        lemma_weight_nonnegative(line_of(grid, dir, lines as int), by_value());
    } else {
        lemma_weight_by_lines(grid, dir, by_value());
    }
}

/// A move takes a well-formed grid to a well-formed grid.
pub proof fn lemma_slide_keeps_well_formed(grid: Seq<nat>, dir: Direction)
    requires
        well_formed(grid),
    ensures
        well_formed(slid(grid, dir)),
{
    assert forall|i: int| 0 <= i < 16 implies is_cell(#[trigger] slid(grid, dir)[i]) by {
        let line = line_of(grid, dir, line_through(dir, i));
        lemma_cell_at_inverse(dir, i);
        assert forall|k: int| 0 <= k < line.len() implies is_cell(#[trigger] line[k]) by {
            assert(0 <= cell_at(dir, line_through(dir, i), k) < 16);
        }
        lemma_slid_line_cells(line);
        assert(slid(grid, dir)[i] == slid_line(line)[place_on_line(dir, i)]);
    }
}

/// The free cells are the empty cells, each listed once.
pub proof fn lemma_free_cells(grid: Seq<nat>)
    ensures
        free_cells(grid).len() == grid.len() - occupied(grid),
        forall|k: int|
            0 <= k < free_cells(grid).len() ==> 0 <= #[trigger] free_cells(grid)[k] < grid.len()
                && grid[free_cells(grid)[k]] == 0,
        forall|i: int|
            0 <= i < grid.len() && grid[i] == 0 ==> exists|k: int|
                0 <= k < free_cells(grid).len() && free_cells(grid)[k] == i,
        forall|j: int, k: int|
            0 <= j < k < free_cells(grid).len() ==> free_cells(grid)[j] < free_cells(grid)[k],
    decreases grid.len(),
{
    if grid.len() > 0 {
        let front = grid.drop_last();
        let free = free_cells(grid);
        lemma_free_cells(front);
        assert forall|k: int| 0 <= k < free.len() implies 0 <= #[trigger] free[k] < grid.len()
            && grid[free[k]] == 0 by {
            if k < free_cells(front).len() {
                assert(free[k] == free_cells(front)[k]);
                assert(front[free[k]] == grid[free[k]]);
            }
        }
        assert forall|i: int| 0 <= i < grid.len() && grid[i] == 0 implies exists|k: int|
            0 <= k < free.len() && free[k] == i by {
            if i < front.len() {
                assert(front[i] == grid[i]);
                let found = free_cells(front);
                let k = choose|k: int| 0 <= k < found.len() && found[k] == i;
                assert(free[k] == i);
            } else {
                assert(free[free.len() - 1] == i);
            }
        }
        assert forall|j: int, k: int| 0 <= j < k < free.len() implies free[j] < free[k] by {
            assert(free[j] == free_cells(front)[j]);
            if k < free_cells(front).len() {
                assert(free[k] == free_cells(front)[k]);
            }
        }
    }
}

/// A grid is full exactly when it has no free cell and when all its cells are occupied.
pub proof fn lemma_full_means_no_free_cell(grid: Seq<nat>)
    ensures
        full(grid) <==> free_cells(grid).len() == 0,
        full(grid) <==> occupied(grid) == grid.len(),
{
    lemma_free_cells(grid);
    if free_cells(grid).len() > 0 {
        let i = free_cells(grid)[0];
        assert(grid[i] == 0);
    }
}

/// A new tile chosen by a slot and a roll is one of the new tiles that can appear.
pub proof fn lemma_new_tile_is_spawned(grid: Seq<nat>, slot: nat, roll: nat)
    requires
        slot < free_cells(grid).len(),
    ensures
        spawned(grid, with_new_tile(grid, slot, roll)),
        !full(grid),
{
    lemma_free_cells(grid);
    let i = free_cells(grid)[slot as int];
    assert(grid[i] == 0);
    let after = with_new_tile(grid, slot, roll);
    assert(after == grid.update(i, 2) || after == grid.update(i, 4));
}

} // verus!
