//! Worked examples: what the model of a line says of a few lines.

use vstd::prelude::*;

verus! {

use crate::line::{gain, line_gain, merged, slid_line, tiles};
use crate::line_lemmas::{lemma_tiles_front, lemma_tiles_of_empty_cells, lemma_tiles_of_tiles};

/// Two equal tiles at the target edge merge: 2 2 0 0 becomes 4 0 0 0 and earns 4.
pub proof fn example_pair_at_the_edge()
    ensures
        slid_line(seq![2nat, 2nat, 0nat, 0nat]) == seq![4nat, 0nat, 0nat, 0nat],
        line_gain(seq![2nat, 2nat, 0nat, 0nat]) == 4,
{
    let line = seq![2nat, 2nat, 0nat, 0nat];
    let pair = seq![2nat, 2nat];
    lemma_tiles_front(line);
    lemma_tiles_front(line.skip(1));
    lemma_tiles_of_empty_cells(line.skip(1).skip(1));
    assert(tiles(line) =~= pair);
    lemma_pair_merges(2);
    assert(slid_line(line) =~= seq![4nat, 0nat, 0nat, 0nat]);
}

/// Two equal tiles meet across a gap and merge: 2 0 2 0 becomes 4 0 0 0 and earns 4.
pub proof fn example_pair_across_a_gap()
    ensures
        slid_line(seq![2nat, 0nat, 2nat, 0nat]) == seq![4nat, 0nat, 0nat, 0nat],
        line_gain(seq![2nat, 0nat, 2nat, 0nat]) == 4,
{
    let line = seq![2nat, 0nat, 2nat, 0nat];
    let pair = seq![2nat, 2nat];
    lemma_tiles_front(line);
    lemma_tiles_front(line.skip(1));
    lemma_tiles_front(line.skip(1).skip(1));
    lemma_tiles_of_empty_cells(line.skip(1).skip(1).skip(1));
    assert(tiles(line) =~= pair);
    lemma_pair_merges(2);
    assert(slid_line(line) =~= seq![4nat, 0nat, 0nat, 0nat]);
}

/// Four equal tiles merge in two pairs, and the two new tiles do not merge
/// again: 2 2 2 2 becomes 4 4 0 0 and earns 8.
pub proof fn example_two_pairs()
    ensures
        slid_line(seq![2nat, 2nat, 2nat, 2nat]) == seq![4nat, 4nat, 0nat, 0nat],
        line_gain(seq![2nat, 2nat, 2nat, 2nat]) == 8,
{
    let line = seq![2nat, 2nat, 2nat, 2nat];
    lemma_tiles_of_tiles(line);
    assert(line.skip(2) =~= seq![2nat, 2nat]);
    lemma_pair_merges(2);
    assert(merged(line) =~= seq![4nat] + merged(line.skip(2)));
    assert(merged(line) =~= seq![4nat, 4nat]);
    assert(slid_line(line) =~= seq![4nat, 4nat, 0nat, 0nat]);
}

/// Three equal tiles: the two nearest the target edge merge, and the third
/// moves up behind them. 2 2 2 0 becomes 4 2 0 0 and earns 4.
pub proof fn example_three_of_a_kind()
    ensures
        slid_line(seq![2nat, 2nat, 2nat, 0nat]) == seq![4nat, 2nat, 0nat, 0nat],
        line_gain(seq![2nat, 2nat, 2nat, 0nat]) == 4,
{
    let line = seq![2nat, 2nat, 2nat, 0nat];
    let three = seq![2nat, 2nat, 2nat];
    assert(line.drop_last() =~= three);
    lemma_tiles_of_tiles(three);
    assert(tiles(line) == three);
    reveal_with_fuel(merged, 2);
    reveal_with_fuel(gain, 2);
    assert(three.skip(2) =~= seq![2nat]);
    assert(merged(three) =~= seq![4nat, 2nat]);
    assert(slid_line(line) =~= seq![4nat, 2nat, 0nat, 0nat]);
}

/// Two tiles `v` and nothing else merge into one tile `2 * v`, which is what they earn.
proof fn lemma_pair_merges(v: nat)
    ensures
        merged(seq![v, v]) == seq![2 * v],
        gain(seq![v, v]) == 2 * v,
{
    let pair = seq![v, v];
    reveal_with_fuel(merged, 2);
    reveal_with_fuel(gain, 2);
    assert(pair.skip(2) =~= Seq::<nat>::empty());
    assert(merged(pair) =~= seq![2 * v]);
}

} // verus!
