//! A limit that every grid of a game keeps, and that keeps every number of a
//! game within its type.
//!
//! A tile of 2^(e+1) is made of two tiles of 2^e that are on the board at the
//! same time. So while a tile of 2^e waits for its partner, the partner has
//! to be built on the cells that are left. On sixteen cells this limits how
//! many large tiles there can be at once: at most 18 - e cells hold 2^e or
//! more. The limit holds of the empty grid, and each move and each new tile
//! keeps it. It bounds every tile by 2^17 and with it the sum of the tiles.

use vstd::prelude::*;

verus! {

use crate::grid::{
    cell_at, empty_grid, free_cells, line_of, slid, slide_change, tile_for, well_formed,
    with_new_tile, Direction,
};
use crate::grid_lemmas::{
    lemma_free_cells, lemma_slide_keeps_well_formed, lemma_weight_by_lines, lemma_weight_of_slid,
};
use crate::line::{merge_change, pairs_of, tiles};
use crate::line_lemmas::{lemma_tiles_are_tiles, lemma_weight_of_tiles};
use crate::tile::{
    is_cell, is_tile, lemma_double_is_tile, lemma_power_of_two_is_tile, lemma_tiles_lie_apart,
};
use crate::weight::{
    by_reaching, by_value, lemma_weight_at_most, lemma_weight_concat, lemma_weight_covers_term,
    lemma_weight_monotone, lemma_weight_pair, lemma_weight_single, lemma_weight_update, reaching,
    total, weight,
};
use vstd::arithmetic::power2::{
    lemma2_to64, lemma_pow2_pos, lemma_pow2_strictly_increases, lemma_pow2_unfold, pow2,
};

/// `grid` is well formed and, for each exponent `e` from 3 to 18, at most
/// `18 - e` of its cells hold 2^e or more.
pub open spec fn playable(grid: Seq<nat>) -> bool {
    &&& well_formed(grid)
    &&& forall|e: nat| 3 <= e <= 18 ==> reaching(grid, #[trigger] pow2(e)) <= 18 - e
}

/// Merging raises the number of tiles that reach `2 * half` by at most the
/// number of merged pairs of `half`, and each such pair is two tiles that
/// reach `half` and not `2 * half`.
proof fn lemma_merges_reaching(t: Seq<nat>, half: nat)
    requires
        forall|i: int| 0 <= i < t.len() ==> is_tile(#[trigger] t[i]),
        is_tile(half),
    ensures
        merge_change(t, by_reaching(2 * half)) <= pairs_of(t, half),
        2 * pairs_of(t, half) <= reaching(t, half) - reaching(t, 2 * half),
    decreases t.len(),
{
    let low = by_reaching(half);
    let high = by_reaching(2 * half);
    lemma_double_is_tile(half);
    if t.len() < 2 {
        lemma_weight_monotone(t, high, low);
    } else if t[0] == t[1] {
        let v = t[0];
        let rest = t.skip(2);
        assert forall|i: int| 0 <= i < rest.len() implies is_tile(#[trigger] rest[i]) by {
            assert(rest[i] == t[i + 2]);
        }
        lemma_merges_reaching(rest, half);
        assert(t == seq![v, v] + rest);
        lemma_weight_concat(seq![v, v], rest, low);
        lemma_weight_concat(seq![v, v], rest, high);
        lemma_weight_pair(v, v, low);
        lemma_weight_pair(v, v, high);
        assert(is_tile(t[0]));
        if v < 2 * half {
            lemma_tiles_lie_apart(v, 2 * half);
        }
    } else {
        let rest = t.skip(1);
        assert forall|i: int| 0 <= i < rest.len() implies is_tile(#[trigger] rest[i]) by {
            assert(rest[i] == t[i + 1]);
        }
        lemma_merges_reaching(rest, half);
        assert(t == seq![t[0]] + rest);
        lemma_weight_concat(seq![t[0]], rest, low);
        lemma_weight_concat(seq![t[0]], rest, high);
        lemma_weight_single(t[0], low);
        lemma_weight_single(t[0], high);
    }
}

/// The tiles of a line of a well-formed grid are tiles.
proof fn lemma_tiles_of_line(grid: Seq<nat>, dir: Direction, line: int)
    requires
        well_formed(grid),
        0 <= line < 4,
    ensures
        forall|i: int|
            0 <= i < tiles(line_of(grid, dir, line)).len() ==> is_tile(
                #[trigger] tiles(line_of(grid, dir, line))[i],
            ),
{
    let cells = line_of(grid, dir, line);
    assert forall|k: int| 0 <= k < cells.len() implies is_cell(#[trigger] cells[k]) by {
        assert(0 <= cell_at(dir, line, k) < 16);
    }
    lemma_tiles_are_tiles(cells);
}

/// After a move, the cells that reach `2 * half` are no more than before, or
/// fewer than those that reached `half` before.
pub proof fn lemma_slide_reaching(grid: Seq<nat>, dir: Direction, half: nat)
    requires
        well_formed(grid),
        is_tile(half),
    ensures
        reaching(slid(grid, dir), 2 * half) <= reaching(grid, 2 * half) || reaching(
            slid(grid, dir),
            2 * half,
        ) < reaching(grid, half),
{
    let low = by_reaching(half);
    let high = by_reaching(2 * half);
    lemma_weight_of_slid(grid, dir, high);
    lemma_weight_by_lines(grid, dir, low);
    lemma_weight_by_lines(grid, dir, high);
    assert forall|line: int| 0 <= line < 4 implies {
        let t = #[trigger] tiles(line_of(grid, dir, line));
        &&& merge_change(t, high) <= pairs_of(t, half)
        &&& 2 * pairs_of(t, half) <= weight(line_of(grid, dir, line), low) - weight(
            line_of(grid, dir, line),
            high,
        )
    } by {
        lemma_tiles_of_line(grid, dir, line);
        lemma_merges_reaching(tiles(line_of(grid, dir, line)), half);
        lemma_weight_of_tiles(line_of(grid, dir, line), low);
        lemma_weight_of_tiles(line_of(grid, dir, line), high);
    }
    let t0 = tiles(line_of(grid, dir, 0));
    let t1 = tiles(line_of(grid, dir, 1));
    let t2 = tiles(line_of(grid, dir, 2));
    let t3 = tiles(line_of(grid, dir, 3));
    let pairs = pairs_of(t0, half) + pairs_of(t1, half) + pairs_of(t2, half) + pairs_of(t3, half);
    assert(slide_change(grid, dir, high) <= pairs);
    assert(2 * pairs <= reaching(grid, half) - reaching(grid, 2 * half));
}

/// The empty grid is playable.
pub proof fn lemma_empty_is_playable()
    ensures
        playable(empty_grid()),
{
    let grid = empty_grid();
    assert forall|e: nat| 3 <= e <= 18 implies reaching(grid, #[trigger] pow2(e)) <= 18 - e by {
        lemma_pow2_pos(e);
        lemma_weight_at_most(grid, by_reaching(pow2(e)), 0);
    }
}

/// Each power of two from the third on is at least 8.
proof fn lemma_rungs(e: nat)
    requires
        3 <= e,
    ensures
        pow2(e) >= 8,
        pow2(e) == 2 * pow2((e - 1) as nat),
        is_tile(pow2((e - 1) as nat)),
{
    lemma2_to64();
    if e > 3 {
        lemma_pow2_strictly_increases(3, e);
    }
    lemma_pow2_unfold(e);
    lemma_power_of_two_is_tile((e - 1) as nat);
}

/// A new tile keeps a playable grid playable.
pub proof fn lemma_new_tile_keeps_playable(grid: Seq<nat>, slot: nat, roll: nat)
    requires
        playable(grid),
    ensures
        playable(with_new_tile(grid, slot, roll)),
{
    let after = with_new_tile(grid, slot, roll);
    lemma_free_cells(grid);
    if slot < free_cells(grid).len() {
        let i = free_cells(grid)[slot as int];
        assert(is_tile(2));
        assert(is_tile(4)) by {
            assert(4nat / 2 == 2);
        }
        assert forall|e: nat| 3 <= e <= 18 implies reaching(after, #[trigger] pow2(e)) <= 18
            - e by {
            lemma_rungs(e);
            lemma_weight_update(grid, by_reaching(pow2(e)), i, tile_for(roll));
        }
    }
}

/// A move keeps a playable grid playable.
pub proof fn lemma_slide_keeps_playable(grid: Seq<nat>, dir: Direction)
    requires
        playable(grid),
    ensures
        playable(slid(grid, dir)),
{
    lemma_slide_keeps_well_formed(grid, dir);
    assert forall|e: nat| 3 <= e <= 18 implies reaching(slid(grid, dir), #[trigger] pow2(e)) <= 18
        - e by {
        let half = pow2((e - 1) as nat);
        lemma_rungs(e);
        lemma_slide_reaching(grid, dir, half);
        if e == 3 {
            lemma2_to64();
            lemma_weight_at_most(grid, by_reaching(half), 1);
        } else {
            assert(reaching(grid, pow2((e - 1) as nat)) <= 18 - (e - 1));
        }
    }
}

/// The largest tile of a playable grid is 2^17, and the sum of its tiles is at most 2^21.
pub proof fn lemma_playable_is_bounded(grid: Seq<nat>)
    requires
        playable(grid),
    ensures
        forall|i: int| 0 <= i < 16 ==> #[trigger] grid[i] <= 131072,
        total(grid) <= 2097152,
{
    lemma2_to64();
    assert(pow2(18) == 262144) by {
        lemma_pow2_unfold(18);
        lemma_pow2_unfold(17);
    }
    assert(pow2(17) == 131072) by {
        lemma_pow2_unfold(17);
    }
    lemma_power_of_two_is_tile(17);
    assert(reaching(grid, pow2(18)) <= 0);
    assert forall|i: int| 0 <= i < 16 implies #[trigger] grid[i] <= 131072 by {
        lemma_weight_covers_term(grid, by_reaching(262144), i);
        assert(is_cell(grid[i]));
        if grid[i] > 131072 {
            lemma_tiles_lie_apart(131072, grid[i]);
        }
    }
    lemma_weight_at_most(grid, by_value(), 131072);
}

} // verus!
