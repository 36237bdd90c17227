//! What the tiles on the board are worth, which bounds the score.
//!
//! A tile of 2^e that was built from 2s took merges that earned (e - 1) * 2^e
//! together. A tile that appeared as a 4 saved the first of them. So the
//! score of a game never exceeds the worth of the tiles on its board.

use vstd::prelude::*;

verus! {

use crate::grid::{
    empty_grid, free_cells, line_of, slid, slide_gain, tile_for, with_new_tile, Direction,
};
use crate::grid_lemmas::{lemma_free_cells, lemma_weight_of_slid};
use crate::line::{all_nonzero, gain, merge_change, tiles};
use crate::line_lemmas::lemma_tiles_nonzero;
use crate::playable::{lemma_playable_is_bounded, playable};
use crate::weight::{
    lemma_weight_at_most, lemma_weight_of_empty_cells, lemma_weight_update, weight,
};

/// The exponent of the largest power of two that is at most `v`; 0 for 0.
pub open spec fn exponent(v: nat) -> nat
    decreases v,
{
    if v < 2 {
        0
    } else {
        1 + exponent(v / 2)
    }
}

/// What the merges earn that build the tile `v` from tiles of 2.
pub open spec fn worth_of(v: nat) -> int {
    if v == 0 {
        0
    } else {
        (exponent(v) - 1) * v
    }
}

/// Weighs a cell by what its tile is worth.
pub open spec fn by_worth() -> spec_fn(nat) -> int {
    |v: nat| worth_of(v)
}

/// What the tiles in `cells` are worth together.
pub open spec fn worth(cells: Seq<nat>) -> int {
    weight(cells, by_worth())
}

/// The empty grid is worth nothing.
pub proof fn lemma_empty_is_worthless()
    ensures
        worth(empty_grid()) == 0,
{
    lemma_weight_of_empty_cells(empty_grid(), by_worth());
}

/// A larger value has no smaller exponent.
pub proof fn lemma_exponent_monotone(v: nat, w: nat)
    requires
        v <= w,
    ensures
        exponent(v) <= exponent(w),
    decreases w,
{
    if v >= 2 {
        lemma_exponent_monotone(v / 2, w / 2);
    }
}

/// The tile made by a merge is worth what the two merged tiles were worth,
/// and what the merge earns.
pub proof fn lemma_worth_of_double(v: nat)
    requires
        v > 0,
    ensures
        worth_of(2 * v) == 2 * worth_of(v) + 2 * v,
{
    assert((2 * v) / 2 == v);
    let e = exponent(v) as int;
    assert(exponent(2 * v) == e + 1);
    assert(((e + 1) - 1) * (2 * v) == 2 * ((e - 1) * v) + 2 * v) by (nonlinear_arith);
}

/// Merging adds to the worth of the tiles what it earns.
pub proof fn lemma_merge_earns_worth(t: Seq<nat>)
    requires
        all_nonzero(t),
    ensures
        merge_change(t, by_worth()) == gain(t),
    decreases t.len(),
{
    if t.len() >= 2 {
        if t[0] == t[1] {
            assert(t[0] != 0);
            lemma_worth_of_double(t[0]);
            lemma_merge_earns_worth(t.skip(2));
        } else {
            lemma_merge_earns_worth(t.skip(1));
        }
    }
}

/// A move adds to the worth of the tiles what it earns.
pub proof fn lemma_slide_earns_worth(grid: Seq<nat>, dir: Direction)
    requires
        grid.len() == 16,
    ensures
        worth(slid(grid, dir)) == worth(grid) + slide_gain(grid, dir),
{
    lemma_weight_of_slid(grid, dir, by_worth());
    assert forall|line: int| 0 <= line < 4 implies merge_change(
        #[trigger] tiles(line_of(grid, dir, line)),
        by_worth(),
    ) == gain(tiles(line_of(grid, dir, line))) by {
        lemma_tiles_nonzero(line_of(grid, dir, line));
        lemma_merge_earns_worth(tiles(line_of(grid, dir, line)));
    }
    assert(merge_change(tiles(line_of(grid, dir, 0)), by_worth()) == gain(
        tiles(line_of(grid, dir, 0)),
    ));
    assert(merge_change(tiles(line_of(grid, dir, 1)), by_worth()) == gain(
        tiles(line_of(grid, dir, 1)),
    ));
    assert(merge_change(tiles(line_of(grid, dir, 2)), by_worth()) == gain(
        tiles(line_of(grid, dir, 2)),
    ));
    assert(merge_change(tiles(line_of(grid, dir, 3)), by_worth()) == gain(
        tiles(line_of(grid, dir, 3)),
    ));
}

/// A new tile takes nothing from the worth of the tiles.
pub proof fn lemma_new_tile_keeps_worth(grid: Seq<nat>, slot: nat, roll: nat)
    ensures
        worth(with_new_tile(grid, slot, roll)) >= worth(grid),
{
    lemma_free_cells(grid);
    if slot < free_cells(grid).len() {
        let i = free_cells(grid)[slot as int];
        lemma_weight_update(grid, by_worth(), i, tile_for(roll));
        reveal_with_fuel(exponent, 4);
        assert(worth_of(2) == 0);
        assert(worth_of(4) == 4);
    }
}

/// The tiles of a playable grid are worth at most 2^25 together.
pub proof fn lemma_playable_worth_is_bounded(grid: Seq<nat>)
    requires
        playable(grid),
    ensures
        worth(grid) <= 33554432,
{
    lemma_playable_is_bounded(grid);
    assert(exponent(131072) == 17) by {
        reveal_with_fuel(exponent, 19);
    }
    assert forall|i: int| 0 <= i < grid.len() implies by_worth()(#[trigger] grid[i])
        <= 2097152 by {
        let v = grid[i];
        lemma_exponent_monotone(v, 131072);
        if v > 0 {
            let e = exponent(v) as int;
            assert((e - 1) * v <= 16 * 131072) by (nonlinear_arith)
                requires
                    e <= 17,
                    0 < v <= 131072,
            ;
        }
    }
    lemma_weight_at_most(grid, by_worth(), 2097152);
}

/// The exponent of the largest power of two that is at most `v`.
pub fn exponent_of(v: u32) -> (e: u32)
    ensures
        e == exponent(v as nat),
        e <= 31,
{
    let mut rest: u32 = v;
    let mut e: u32 = 0;
    proof {
        lemma_exponent_monotone(v as nat, 4294967295);
        assert(exponent(4294967295) == 31) by {
            reveal_with_fuel(exponent, 33);
        }
    }
    while rest >= 2
        invariant
            e + exponent(rest as nat) == exponent(v as nat),
            exponent(v as nat) <= 31,
        decreases rest,
    {
        rest = rest / 2;
        e = e + 1;
    }
    e
}

/// What the tile `v` is worth.
pub fn worth_of_tile(v: u32) -> (w: i64)
    ensures
        w == worth_of(v as nat),
        -1 <= w <= 128849018850,
{
    if v == 0 {
        0
    } else {
        let e = exponent_of(v) as i64;
        assert(-1 <= (e - 1) * v <= 128849018850) by (nonlinear_arith)
            requires
                0 <= e <= 31,
                0 < v <= 4294967295,
                e == 0 ==> v == 1,
        ;
        (e - 1) * (v as i64)
    }
}

} // verus!
