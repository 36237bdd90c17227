//! One line of the board: the model of a move along it, and the code for it.
//!
//! A line is read from the edge that the tiles move toward, so index 0 is the
//! cell at that edge. Sliding a line is described on the sequence of its
//! tiles (its non-zero cells, in order): equal neighbours are paired greedily
//! from the edge, each pair becomes one tile of twice the value, and the line
//! is filled up with empty cells again.

use vstd::prelude::*;

verus! {

use crate::line_lemmas::{
    lemma_gain_at_most_total, lemma_pair_gain_at_most_total, lemma_paired_of_packed,
    lemma_tiles_nonzero, lemma_tiles_of_padded, lemma_weight_of_tiles,
};
use crate::weight::{by_value, lemma_weight_four};

/// The width of the board, which is the length of each of its lines.
pub const WIDTH: usize = 4;

/// The cells of a line as naturals.
pub open spec fn as_nats(cells: Seq<u32>) -> Seq<nat> {
    Seq::new(cells.len(), |i: int| cells[i] as nat)
}

/// The non-zero cells of `line`, in order.
pub open spec fn tiles(line: Seq<nat>) -> Seq<nat>
    decreases line.len(),
{
    if line.len() == 0 {
        Seq::empty()
    } else if line.last() == 0 {
        tiles(line.drop_last())
    } else {
        tiles(line.drop_last()).push(line.last())
    }
}

/// The tiles that are left when equal neighbours in `t` are merged, pairing
/// from the front: a tile that came out of a merge is not merged again.
pub open spec fn merged(t: Seq<nat>) -> Seq<nat>
    decreases t.len(),
{
    if t.len() < 2 {
        t
    } else if t[0] == t[1] {
        seq![2 * t[0]] + merged(t.skip(2))
    } else {
        seq![t[0]] + merged(t.skip(1))
    }
}

/// The sum of the tiles that the merges in `t` produce.
pub open spec fn gain(t: Seq<nat>) -> nat
    decreases t.len(),
{
    if t.len() < 2 {
        0
    } else if t[0] == t[1] {
        2 * t[0] + gain(t.skip(2))
    } else {
        gain(t.skip(1))
    }
}

/// The number of merges that happen in `t`.
pub open spec fn merges(t: Seq<nat>) -> nat
    decreases t.len(),
{
    if t.len() < 2 {
        0
    } else if t[0] == t[1] {
        1 + merges(t.skip(2))
    } else {
        merges(t.skip(1))
    }
}

/// The number of merges in `t` of two tiles of the value `v`.
pub open spec fn pairs_of(t: Seq<nat>, v: nat) -> nat
    decreases t.len(),
{
    if t.len() < 2 {
        0
    } else if t[0] == t[1] {
        (if t[0] == v {
            1nat
        } else {
            0nat
        }) + pairs_of(t.skip(2), v)
    } else {
        pairs_of(t.skip(1), v)
    }
}

/// The line of `n` cells that starts with `t` and is empty after it.
pub open spec fn padded(t: Seq<nat>, n: nat) -> Seq<nat> {
    Seq::new(n, |i: int| if i < t.len() { t[i] } else { 0 })
}

/// The line after its tiles have slid toward index 0 and merged.
pub open spec fn slid_line(line: Seq<nat>) -> Seq<nat> {
    padded(merged(tiles(line)), line.len())
}

/// The score that sliding `line` earns.
pub open spec fn line_gain(line: Seq<nat>) -> nat {
    gain(tiles(line))
}

/// The line after the merging pass, which goes over the cells from the front:
/// where two equal tiles lie side by side, the first cell gets a tile of
/// twice the value and the second is emptied, and the pass goes on behind
/// the pair.
pub open spec fn paired(line: Seq<nat>) -> Seq<nat>
    decreases line.len(),
{
    if line.len() < 2 {
        line
    } else if line[0] != 0 && line[0] == line[1] {
        seq![2 * line[0], 0] + paired(line.skip(2))
    } else {
        seq![line[0]] + paired(line.skip(1))
    }
}

/// The sum of the tiles that the merging pass makes on `line`.
pub open spec fn pair_gain(line: Seq<nat>) -> nat
    decreases line.len(),
{
    if line.len() < 2 {
        0
    } else if line[0] != 0 && line[0] == line[1] {
        2 * line[0] + pair_gain(line.skip(2))
    } else {
        pair_gain(line.skip(1))
    }
}

/// Every cell of `t` holds a tile.
pub open spec fn all_nonzero(t: Seq<nat>) -> bool {
    forall|i: int| 0 <= i < t.len() ==> t[i] != 0
}

/// The tiles of `line` are packed against index 0: no empty cell lies before a tile.
pub open spec fn packed(line: Seq<nat>) -> bool {
    forall|i: int, j: int| 0 <= i < j < line.len() && line[i] == 0 ==> line[j] == 0
}

/// No two neighbours in `t` are equal.
pub open spec fn no_equal_neighbours(t: Seq<nat>) -> bool {
    forall|i: int| 0 <= i < t.len() - 1 ==> t[i] != #[trigger] t[i + 1]
}

/// Sliding cannot change `line`: its tiles are packed and none can merge.
pub open spec fn settled(line: Seq<nat>) -> bool {
    packed(line) && no_equal_neighbours(tiles(line))
}

/// The change of a weight that the merges in `t` cause: each merge of two
/// tiles `v` puts one term for `2 * v` in the place of two terms for `v`.
pub open spec fn merge_change(t: Seq<nat>, f: spec_fn(nat) -> int) -> int
    decreases t.len(),
{
    if t.len() < 2 {
        0
    } else if t[0] == t[1] {
        f(2 * t[0]) - 2 * f(t[0]) + merge_change(t.skip(2), f)
    } else {
        merge_change(t.skip(1), f)
    }
}

/// Moves the tiles of `line` to its front, keeping their order.
pub fn compact(line: [u32; WIDTH]) -> (out: [u32; WIDTH])
    ensures
        as_nats(out@) == padded(tiles(as_nats(line@)), WIDTH as nat),
{
    let ghost src = as_nats(line@);
    let mut out = [0u32; WIDTH];
    let mut filled: usize = 0;
    for next in 0..WIDTH
        invariant
            src == as_nats(line@),
            filled <= next,
            filled == tiles(src.take(next as int)).len(),
            forall|j: int| 0 <= j < filled ==> out[j] as nat == tiles(src.take(next as int))[j],
            forall|j: int| filled <= j < WIDTH ==> out[j] == 0,
    {
        proof {
            assert(src.take(next + 1).drop_last() == src.take(next as int));
        }
        if line[next] != 0 {
            out[filled] = line[next];
            filled = filled + 1;
        }
    }
    proof {
        assert(src.take(WIDTH as int) == src);
        assert(as_nats(out@) =~= padded(tiles(src), WIDTH as nat));
    }
    out
}

/// Makes the merging pass over `line`: going from the front, where two equal
/// tiles lie side by side the first cell gets twice the value and the second
/// is emptied. Returns the line, which may now have gaps, and the sum of the
/// tiles made. That sum must fit its type, as it does where the sum of the
/// four cells fits.
pub fn merge_neighbours(line: [u32; WIDTH]) -> (res: ([u32; WIDTH], u32))
    requires
        line[0] + line[1] + line[2] + line[3] <= u32::MAX || pair_gain(as_nats(line@))
            <= u32::MAX,
    ensures
        as_nats(res.0@) == paired(as_nats(line@)),
        res.1 == pair_gain(as_nats(line@)),
{
    let ghost src = as_nats(line@);
    let mut cur = line;
    let mut earned: u32 = 0;
    // Whether the merge before it has emptied the cell that the pass has come to.
    let ghost mut emptied = false;
    proof {
        assert(as_nats(cur@).take(0) + paired(src.skip(0)) == paired(src)) by {
            assert(src.skip(0) == src);
            assert(as_nats(cur@).take(0) + paired(src) == paired(src));
        }
        assert(src.skip(0) == src);
        lemma_weight_four(src, by_value());
        lemma_pair_gain_at_most_total(src);
    }
    for i in 0..(WIDTH - 1)
        invariant
            src == as_nats(line@),
            pair_gain(src) <= u32::MAX,
            forall|j: int| i < j < WIDTH ==> cur[j] == line[j],
            emptied ==> cur[i as int] == 0,
            !emptied ==> cur[i as int] == line[i as int],
            as_nats(cur@).take(i as int) + (if emptied {
                seq![0nat] + paired(src.skip(i + 1))
            } else {
                paired(src.skip(i as int))
            }) == paired(src),
            earned + (if emptied {
                pair_gain(src.skip(i + 1))
            } else {
                pair_gain(src.skip(i as int))
            }) == pair_gain(src),
    {
        let ghost before = as_nats(cur@);
        let ghost was_emptied = emptied;
        proof {
            assert(src.skip(i as int).skip(1) == src.skip(i + 1));
            assert(src.skip(i as int).skip(2) == src.skip(i + 2));
            assert(before[i as int] == cur[i as int] as nat);
            assert(before[i + 1] == src[i + 1]);
        }
        if cur[i] == cur[i + 1] {
            let doubled: u32 = 2 * cur[i];
            cur[i] = doubled;
            cur[i + 1] = 0;
            earned = earned + doubled;
        }
        proof {
            let after = as_nats(cur@);
            let head = before.take(i as int);
            emptied = !was_emptied && src[i as int] != 0 && src[i as int] == src[i + 1];
            assert(after.take(i + 1) == head.push(after[i as int]));
            if emptied {
                let tail = paired(src.skip(i + 2));
                assert(head.push(2 * src[i as int]) + (seq![0nat] + tail) == head + (seq![
                    2 * src[i as int],
                    0nat,
                ] + tail));
            } else if was_emptied {
                let tail = paired(src.skip(i + 1));
                assert(head.push(0nat) + tail == head + (seq![0nat] + tail));
            } else {
                let tail = paired(src.skip(i + 1));
                assert(head.push(src[i as int]) + tail == head + (seq![src[i as int]] + tail));
            }
        }
    }
    proof {
        let last = as_nats(cur@);
        let head = last.take(WIDTH - 1);
        assert(src.skip(WIDTH as int).len() == 0);
        assert(src.skip(WIDTH - 1).len() == 1);
        assert(last =~= head.push(last[WIDTH - 1]));
        if emptied {
            assert(head + (seq![0nat] + paired(src.skip(WIDTH as int))) =~= head.push(0nat));
        } else {
            assert(head + paired(src.skip(WIDTH - 1)) =~= head.push(src[WIDTH - 1]));
        }
    }
    (cur, earned)
}

/// Slides the tiles of `line` toward index 0 and merges equal neighbours once.
/// Returns the new line and the score earned: the sum of the tiles made by
/// merging. That sum must fit its type, as it does where the sum of the four
/// cells fits.
pub fn slide_line(line: [u32; WIDTH]) -> (res: ([u32; WIDTH], u32))
    requires
        line[0] + line[1] + line[2] + line[3] <= u32::MAX || line_gain(as_nats(line@))
            <= u32::MAX,
    ensures
        as_nats(res.0@) == slid_line(as_nats(line@)),
        res.1 == line_gain(as_nats(line@)),
{
    let packed_line = compact(line);
    proof {
        let src = as_nats(line@);
        lemma_tiles_nonzero(src);
        lemma_tiles_of_padded(tiles(src), WIDTH as nat);
        lemma_weight_of_tiles(src, by_value());
        lemma_weight_four(src, by_value());
        lemma_gain_at_most_total(tiles(src));
        lemma_paired_of_packed(as_nats(packed_line@));
    }
    let (merged_line, earned) = merge_neighbours(packed_line);
    let out = compact(merged_line);
    (out, earned)
}

} // verus!
