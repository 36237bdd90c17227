//! What holds of the model of a line.

use vstd::prelude::*;

verus! {

use crate::line::{
    all_nonzero, gain, line_gain, merge_change, merged, merges, no_equal_neighbours, packed,
    padded, pair_gain, paired, pairs_of, settled, slid_line, tiles,
};
use crate::tile::{is_cell, is_tile, lemma_double_is_tile};
use crate::weight::{
    by_holding, by_presence, by_value, lemma_weight_concat, lemma_weight_nonnegative,
    lemma_weight_pair, lemma_weight_single, total, weight,
};

/// The tiles of two lines put end to end are the tiles of the one followed by those of the other.
pub proof fn lemma_tiles_concat(a: Seq<nat>, b: Seq<nat>)
    ensures
        tiles(a + b) == tiles(a) + tiles(b),
    decreases b.len(),
{
    if b.len() == 0 {
        assert(a + b == a);
        assert(tiles(a) + tiles(b) == tiles(a));
    } else {
        assert((a + b).drop_last() == a + b.drop_last());
        assert((a + b).last() == b.last());
        lemma_tiles_concat(a, b.drop_last());
        if b.last() != 0 {
            assert((tiles(a) + tiles(b.drop_last())).push(b.last()) == tiles(a) + tiles(
                b.drop_last(),
            ).push(b.last()));
        }
    }
}

/// None of the tiles of a line is zero, and they are no more than the line has cells.
pub proof fn lemma_tiles_nonzero(line: Seq<nat>)
    ensures
        all_nonzero(tiles(line)),
        tiles(line).len() <= line.len(),
    decreases line.len(),
{
    if line.len() > 0 {
        lemma_tiles_nonzero(line.drop_last());
    }
}

/// Read from the front, `tiles` drops a leading empty cell and keeps a leading tile.
pub proof fn lemma_tiles_front(line: Seq<nat>)
    requires
        line.len() > 0,
    ensures
        tiles(line) == if line[0] == 0 {
            tiles(line.skip(1))
        } else {
            seq![line[0]] + tiles(line.skip(1))
        },
{
    let head = seq![line[0]];
    assert(line == head + line.skip(1));
    lemma_tiles_concat(head, line.skip(1));
    assert(head.drop_last() == Seq::<nat>::empty());
    assert(tiles(head.drop_last()) == Seq::<nat>::empty());
    if line[0] == 0 {
        assert(tiles(head) + tiles(line.skip(1)) == tiles(line.skip(1)));
    } else {
        assert(tiles(head) == head);
    }
}

/// A line of empty cells has no tiles.
pub proof fn lemma_tiles_of_empty_cells(line: Seq<nat>)
    requires
        forall|i: int| 0 <= i < line.len() ==> line[i] == 0,
    ensures
        tiles(line) == Seq::<nat>::empty(),
    decreases line.len(),
{
    if line.len() > 0 {
        lemma_tiles_of_empty_cells(line.drop_last());
    }
}

/// A sequence of tiles is its own sequence of tiles.
pub proof fn lemma_tiles_of_tiles(t: Seq<nat>)
    requires
        all_nonzero(t),
    ensures
        tiles(t) == t,
    decreases t.len(),
{
    if t.len() > 0 {
        lemma_tiles_of_tiles(t.drop_last());
        assert(t.drop_last().push(t.last()) == t);
    } else {
        assert(t == Seq::<nat>::empty());
    }
}

/// Padding adds no tile and packs the line.
pub proof fn lemma_tiles_of_padded(t: Seq<nat>, n: nat)
    requires
        all_nonzero(t),
        t.len() <= n,
    ensures
        tiles(padded(t, n)) == t,
        packed(padded(t, n)),
{
    let line = padded(t, n);
    let rest = line.skip(t.len() as int);
    assert(line == t + rest);
    lemma_tiles_concat(t, rest);
    lemma_tiles_of_tiles(t);
    lemma_tiles_of_empty_cells(rest);
    assert(t + Seq::<nat>::empty() == t);
}

/// A packed line is its tiles followed by empty cells.
pub proof fn lemma_packed_is_padded(line: Seq<nat>)
    requires
        packed(line),
    ensures
        line == padded(tiles(line), line.len()),
    decreases line.len(),
{
    lemma_tiles_nonzero(line);
    if line.len() > 0 {
        let front = line.drop_last();
        lemma_packed_is_padded(front);
        lemma_tiles_nonzero(front);
        assert forall|i: int| 0 <= i < front.len() implies front[i] == line[i] by {}
        if line.last() != 0 {
            assert(all_nonzero(front));
            lemma_tiles_of_tiles(front);
            assert(front.push(line.last()) == line);
        } else {
            assert(tiles(line) == tiles(front));
        }
        assert(line =~= padded(tiles(line), line.len()));
    } else {
        assert(line =~= padded(tiles(line), line.len()));
    }
}

/// Each merge takes one tile away, and what is left are tiles.
pub proof fn lemma_merged_len(t: Seq<nat>)
    ensures
        merged(t).len() + merges(t) == t.len(),
        all_nonzero(t) ==> all_nonzero(merged(t)),
    decreases t.len(),
{
    if t.len() >= 2 {
        if t[0] == t[1] {
            lemma_merged_len(t.skip(2));
        } else {
            lemma_merged_len(t.skip(1));
        }
    }
}

/// Tiles without equal neighbours stay as they are and earn nothing.
pub proof fn lemma_merged_without_equal_neighbours(t: Seq<nat>)
    requires
        no_equal_neighbours(t),
    ensures
        merged(t) == t,
        gain(t) == 0,
        merges(t) == 0,
    decreases t.len(),
{
    if t.len() >= 2 {
        assert(t[0] != t[0int + 1]);
        let rest = t.skip(1);
        assert forall|i: int| 0 <= i < rest.len() - 1 implies rest[i] != #[trigger] rest[i + 1] by {
            assert(t[i + 1] != t[(i + 1) + 1]);
        }
        lemma_merged_without_equal_neighbours(rest);
        assert(seq![t[0]] + rest == t);
    }
}

/// Where no merge happens among tiles, no two neighbours are equal.
pub proof fn lemma_no_merges_means_no_equal_neighbours(t: Seq<nat>)
    requires
        merges(t) == 0,
    ensures
        no_equal_neighbours(t),
    decreases t.len(),
{
    if t.len() >= 2 {
        let rest = t.skip(1);
        lemma_no_merges_means_no_equal_neighbours(rest);
        assert forall|i: int| 0 <= i < t.len() - 1 implies t[i] != #[trigger] t[i + 1] by {
            if i > 0 {
                assert(rest[i - 1] != rest[(i - 1) + 1]);
            }
        }
    }
}

/// Among tiles, a move earns something exactly when something merges.
pub proof fn lemma_gain_zero_iff_no_merges(t: Seq<nat>)
    requires
        all_nonzero(t),
    ensures
        gain(t) == 0 <==> merges(t) == 0,
    decreases t.len(),
{
    if t.len() >= 2 {
        if t[0] == t[1] {
            assert(t[0] != 0);
        } else {
            lemma_gain_zero_iff_no_merges(t.skip(1));
        }
    }
}

/// After the move a line is packed, and its tiles are the merged tiles of before.
pub proof fn lemma_slid_line_is_packed(line: Seq<nat>)
    ensures
        packed(slid_line(line)),
        tiles(slid_line(line)) == merged(tiles(line)),
{
    lemma_tiles_nonzero(line);
    lemma_merged_len(tiles(line));
    lemma_tiles_of_padded(merged(tiles(line)), line.len());
}

/// A move leaves a settled line as it is and earns nothing on it.
pub proof fn lemma_settled_line_stays(line: Seq<nat>)
    requires
        settled(line),
    ensures
        slid_line(line) == line,
        line_gain(line) == 0,
{
    lemma_packed_is_padded(line);
    lemma_merged_without_equal_neighbours(tiles(line));
}

/// A line that a move leaves as it is was settled.
pub proof fn lemma_unchanged_line_is_settled(line: Seq<nat>)
    requires
        slid_line(line) == line,
    ensures
        settled(line),
{
    lemma_slid_line_is_packed(line);
    lemma_merged_len(tiles(line));
    lemma_no_merges_means_no_equal_neighbours(tiles(line));
}

/// The merging pass leaves a line without tiles as it is.
proof fn lemma_paired_of_empty_cells(line: Seq<nat>)
    requires
        forall|i: int| 0 <= i < line.len() ==> line[i] == 0,
    ensures
        paired(line) == line,
        pair_gain(line) == 0,
    decreases line.len(),
{
    if line.len() >= 2 {
        lemma_paired_of_empty_cells(line.skip(1));
        assert(seq![line[0]] + line.skip(1) == line);
    }
}

/// On a packed line the merging pass merges the tiles as `merged` says, and
/// earns what `gain` says.
pub proof fn lemma_paired_of_packed(line: Seq<nat>)
    requires
        packed(line),
    ensures
        tiles(paired(line)) == merged(tiles(line)),
        pair_gain(line) == gain(tiles(line)),
    decreases line.len(),
{
    if line.len() < 2 {
        lemma_tiles_nonzero(line);
    } else if line[0] == 0 {
        assert forall|i: int| 0 <= i < line.len() implies line[i] == 0 by {}
        lemma_paired_of_empty_cells(line);
        lemma_tiles_of_empty_cells(line);
    } else {
        let a = line[0];
        lemma_tiles_front(line);
        lemma_tiles_front(paired(line));
        if a == line[1] {
            let rest = line.skip(2);
            assert forall|i: int, j: int| 0 <= i < j < rest.len() && rest[i] == 0 implies rest[j]
                == 0 by {
                assert(line[i + 2] == 0 ==> line[j + 2] == 0);
            }
            lemma_paired_of_packed(rest);
            assert(line.skip(1).skip(1) == rest);
            lemma_tiles_front(line.skip(1));
            assert(tiles(line).skip(2) == tiles(rest));
            assert(paired(line).skip(1) == seq![0nat] + paired(rest));
            lemma_tiles_front(paired(line).skip(1));
            assert(paired(line).skip(1).skip(1) == paired(rest));
        } else {
            let rest = line.skip(1);
            assert forall|i: int, j: int| 0 <= i < j < rest.len() && rest[i] == 0 implies rest[j]
                == 0 by {
                assert(line[i + 1] == 0 ==> line[j + 1] == 0);
            }
            lemma_paired_of_packed(rest);
            assert(paired(line).skip(1) == paired(rest));
            assert(tiles(line).skip(1) == tiles(rest));
            lemma_tiles_front(rest);
            if line[1] == 0 {
                assert forall|i: int| 0 <= i < rest.len() implies rest[i] == 0 by {
                    assert(line[i + 1] == 0);
                }
                lemma_tiles_of_empty_cells(rest);
            }
        }
    }
}

/// What the merging pass earns is at most the sum of the line.
pub proof fn lemma_pair_gain_at_most_total(line: Seq<nat>)
    ensures
        pair_gain(line) <= total(line),
    decreases line.len(),
{
    if line.len() < 2 {
        lemma_weight_nonnegative(line, by_value());
    } else if line[0] != 0 && line[0] == line[1] {
        let pair = seq![line[0], line[1]];
        lemma_pair_gain_at_most_total(line.skip(2));
        assert(line == pair + line.skip(2));
        lemma_weight_concat(pair, line.skip(2), by_value());
        lemma_weight_pair(line[0], line[1], by_value());
    } else {
        lemma_pair_gain_at_most_total(line.skip(1));
        assert(line == seq![line[0]] + line.skip(1));
        lemma_weight_concat(seq![line[0]], line.skip(1), by_value());
        lemma_weight_single(line[0], by_value());
    }
}

/// Empty cells do not count: a line weighs what its tiles weigh.
pub proof fn lemma_weight_of_tiles(line: Seq<nat>, f: spec_fn(nat) -> int)
    requires
        f(0) == 0,
    ensures
        weight(tiles(line), f) == weight(line, f),
    decreases line.len(),
{
    if line.len() > 0 {
        lemma_weight_of_tiles(line.drop_last(), f);
        if line.last() != 0 {
            assert(tiles(line).drop_last() == tiles(line.drop_last()));
        }
    }
}

/// The weight after merging is the weight before plus the change by the merges.
pub proof fn lemma_weight_of_merged(t: Seq<nat>, f: spec_fn(nat) -> int)
    ensures
        weight(merged(t), f) == weight(t, f) + merge_change(t, f),
    decreases t.len(),
{
    if t.len() >= 2 {
        if t[0] == t[1] {
            let pair = seq![t[0], t[1]];
            let rest = t.skip(2);
            lemma_weight_of_merged(rest, f);
            assert(t == pair + rest);
            lemma_weight_concat(pair, rest, f);
            lemma_weight_concat(seq![2 * t[0]], merged(rest), f);
            lemma_weight_pair(t[0], t[1], f);
            lemma_weight_single(2 * t[0], f);
        } else {
            let rest = t.skip(1);
            lemma_weight_of_merged(rest, f);
            assert(t == seq![t[0]] + rest);
            lemma_weight_concat(seq![t[0]], rest, f);
            lemma_weight_concat(seq![t[0]], merged(rest), f);
        }
    }
}

/// The weight of a line after the move, from the weight before it.
pub proof fn lemma_weight_of_slid_line(line: Seq<nat>, f: spec_fn(nat) -> int)
    requires
        f(0) == 0,
    ensures
        weight(slid_line(line), f) == weight(line, f) + merge_change(tiles(line), f),
{
    let t = tiles(line);
    lemma_tiles_nonzero(line);
    lemma_merged_len(t);
    lemma_tiles_of_padded(merged(t), line.len());
    lemma_weight_of_tiles(slid_line(line), f);
    lemma_weight_of_merged(t, f);
    lemma_weight_of_tiles(line, f);
}

/// Merging keeps the sum of the values.
pub proof fn lemma_merge_keeps_total(t: Seq<nat>)
    ensures
        merge_change(t, by_value()) == 0,
    decreases t.len(),
{
    if t.len() >= 2 {
        if t[0] == t[1] {
            lemma_merge_keeps_total(t.skip(2));
        } else {
            lemma_merge_keeps_total(t.skip(1));
        }
    }
}

/// Each merge of two tiles leaves one tile less.
pub proof fn lemma_merge_drops_tiles(t: Seq<nat>)
    requires
        all_nonzero(t),
    ensures
        merge_change(t, by_presence()) == -merges(t),
    decreases t.len(),
{
    if t.len() >= 2 {
        if t[0] == t[1] {
            assert(t[0] != 0);
            lemma_merge_drops_tiles(t.skip(2));
        } else {
            lemma_merge_drops_tiles(t.skip(1));
        }
    }
}

/// Each merge of two tiles takes two tiles of their value away and adds one of twice the value.
pub proof fn lemma_merge_accounts(t: Seq<nat>, value: nat)
    requires
        all_nonzero(t),
        value > 0,
    ensures
        merge_change(t, by_holding(value)) == (if value % 2 == 0 {
            pairs_of(t, value / 2) as int
        } else {
            0
        }) - 2 * pairs_of(t, value),
    decreases t.len(),
{
    if t.len() >= 2 {
        if t[0] == t[1] {
            assert(t[0] != 0);
            lemma_merge_accounts(t.skip(2), value);
        } else {
            lemma_merge_accounts(t.skip(1), value);
        }
    }
}

/// What a move earns is at most the sum of the tiles.
pub proof fn lemma_gain_at_most_total(t: Seq<nat>)
    ensures
        gain(t) <= total(t),
    decreases t.len(),
{
    if t.len() >= 2 {
        if t[0] == t[1] {
            let pair = seq![t[0], t[1]];
            let rest = t.skip(2);
            lemma_gain_at_most_total(rest);
            assert(t == pair + rest);
            lemma_weight_concat(pair, rest, by_value());
            lemma_weight_pair(t[0], t[1], by_value());
        } else {
            let rest = t.skip(1);
            lemma_gain_at_most_total(rest);
            assert(t == seq![t[0]] + rest);
            lemma_weight_concat(seq![t[0]], rest, by_value());
            lemma_weight_single(t[0], by_value());
        }
    } else {
        lemma_weight_nonnegative(t, by_value());
    }
}

/// The tiles of a line of cells are cells.
pub proof fn lemma_tiles_are_cells(line: Seq<nat>)
    requires
        forall|k: int| 0 <= k < line.len() ==> is_cell(#[trigger] line[k]),
    ensures
        forall|k: int| 0 <= k < tiles(line).len() ==> is_cell(#[trigger] tiles(line)[k]),
    decreases line.len(),
{
    if line.len() > 0 {
        let front = line.drop_last();
        assert forall|k: int| 0 <= k < front.len() implies is_cell(#[trigger] front[k]) by {
            assert(front[k] == line[k]);
        }
        lemma_tiles_are_cells(front);
        assert(is_cell(line[line.len() - 1]));
        assert forall|k: int| 0 <= k < tiles(line).len() implies is_cell(
            #[trigger] tiles(line)[k],
        ) by {
            if k < tiles(front).len() {
                assert(tiles(line)[k] == tiles(front)[k]);
            }
        }
    }
}

/// What is left of cells after merging are cells.
pub proof fn lemma_merged_are_cells(t: Seq<nat>)
    requires
        forall|k: int| 0 <= k < t.len() ==> is_cell(#[trigger] t[k]),
    ensures
        forall|k: int| 0 <= k < merged(t).len() ==> is_cell(#[trigger] merged(t)[k]),
    decreases t.len(),
{
    if t.len() >= 2 {
        let rest = if t[0] == t[1] {
            t.skip(2)
        } else {
            t.skip(1)
        };
        assert forall|k: int| 0 <= k < rest.len() implies is_cell(#[trigger] rest[k]) by {
            assert(rest[k] == t[k + (t.len() - rest.len())]);
        }
        lemma_merged_are_cells(rest);
        assert(is_cell(t[0]));
        if t[0] == t[1] && t[0] != 0 {
            lemma_double_is_tile(t[0]);
        }
        assert forall|k: int| 0 <= k < merged(t).len() implies is_cell(
            #[trigger] merged(t)[k],
        ) by {
            if k > 0 {
                assert(merged(t)[k] == merged(rest)[k - 1]);
            }
        }
    }
}

/// Every cell of a line after the move is empty or a tile, if that held before.
pub proof fn lemma_slid_line_cells(line: Seq<nat>)
    requires
        forall|k: int| 0 <= k < line.len() ==> is_cell(#[trigger] line[k]),
    ensures
        forall|k: int| 0 <= k < line.len() ==> is_cell(#[trigger] slid_line(line)[k]),
{
    lemma_tiles_are_cells(line);
    lemma_merged_are_cells(tiles(line));
}

/// The tiles of a line of cells are tiles.
pub proof fn lemma_tiles_are_tiles(line: Seq<nat>)
    requires
        forall|k: int| 0 <= k < line.len() ==> is_cell(#[trigger] line[k]),
    ensures
        forall|i: int| 0 <= i < tiles(line).len() ==> is_tile(#[trigger] tiles(line)[i]),
    decreases line.len(),
{
    if line.len() > 0 {
        let front = line.drop_last();
        assert forall|k: int| 0 <= k < front.len() implies is_cell(#[trigger] front[k]) by {
            assert(front[k] == line[k]);
        }
        lemma_tiles_are_tiles(front);
        assert(is_cell(line[line.len() - 1]));
        assert forall|i: int| 0 <= i < tiles(line).len() implies is_tile(
            #[trigger] tiles(line)[i],
        ) by {
            if i < tiles(front).len() {
                assert(tiles(line)[i] == tiles(front)[i]);
            }
        }
    }
}

} // verus!
