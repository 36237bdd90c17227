//! Sums over the cells of a line or of the whole grid.
//!
//! Most of what is proved about a move is a statement about such a sum: of the
//! values of the tiles, of the number of tiles, of the number of tiles above a
//! bound. What is weighed is chosen by a function from the value of a cell to
//! the term that it adds to the sum.

use vstd::prelude::*;

verus! {

/// The sum of `f` over the cells of `cells`.
pub open spec fn weight(cells: Seq<nat>, f: spec_fn(nat) -> int) -> int
    decreases cells.len(),
{
    if cells.len() == 0 {
        0
    } else {
        weight(cells.drop_last(), f) + f(cells.last())
    }
}

/// Weighs a cell by the value it holds.
pub open spec fn by_value() -> spec_fn(nat) -> int {
    |v: nat| v as int
}

/// Weighs a cell by whether it holds a tile.
pub open spec fn by_presence() -> spec_fn(nat) -> int {
    |v: nat| if v != 0 { 1int } else { 0int }
}

/// Weighs a cell by whether it holds the tile `value`.
pub open spec fn by_holding(value: nat) -> spec_fn(nat) -> int {
    |v: nat|
        if v == value {
            1int
        } else {
            0int
        }
}

/// Weighs a cell by whether it holds at least `bound`.
pub open spec fn by_reaching(bound: nat) -> spec_fn(nat) -> int {
    |v: nat|
        if v >= bound {
            1int
        } else {
            0int
        }
}

/// The sum of the values in `cells`.
pub open spec fn total(cells: Seq<nat>) -> int {
    weight(cells, by_value())
}

/// The number of tiles in `cells`.
pub open spec fn occupied(cells: Seq<nat>) -> int {
    weight(cells, by_presence())
}

/// The number of cells in `cells` that hold the tile `value`.
pub open spec fn holding(cells: Seq<nat>, value: nat) -> int {
    weight(cells, by_holding(value))
}

/// The number of cells that hold at least `bound`.
pub open spec fn reaching(cells: Seq<nat>, bound: nat) -> int {
    weight(cells, by_reaching(bound))
}

/// The weight of a concatenation is the sum of the weights of its parts.
pub proof fn lemma_weight_concat(a: Seq<nat>, b: Seq<nat>, f: spec_fn(nat) -> int)
    ensures
        weight(a + b, f) == weight(a, f) + weight(b, f),
    decreases b.len(),
{
    if b.len() == 0 {
        assert(a + b == a);
    } else {
        assert((a + b).drop_last() == a + b.drop_last());
        lemma_weight_concat(a, b.drop_last(), f);
    }
}

/// The weight of a line of four cells, written out.
pub proof fn lemma_weight_four(s: Seq<nat>, f: spec_fn(nat) -> int)
    requires
        s.len() == 4,
    ensures
        weight(s, f) == f(s[0]) + f(s[1]) + f(s[2]) + f(s[3]),
{
    let s3 = s.drop_last();
    let s2 = s3.drop_last();
    let s1 = s2.drop_last();
    let s0 = s1.drop_last();
    assert(s0.len() == 0);
    assert(weight(s0, f) == 0);
    assert(weight(s1, f) == f(s[0]));
    assert(weight(s2, f) == f(s[0]) + f(s[1]));
    assert(weight(s3, f) == f(s[0]) + f(s[1]) + f(s[2]));
}

/// A weight whose terms are never negative is not negative.
pub proof fn lemma_weight_nonnegative(cells: Seq<nat>, f: spec_fn(nat) -> int)
    requires
        forall|v: nat| 0 <= #[trigger] f(v),
    ensures
        0 <= weight(cells, f),
    decreases cells.len(),
{
    if cells.len() > 0 {
        lemma_weight_nonnegative(cells.drop_last(), f);
    }
}

/// Replacing one cell changes the weight by the difference of the two terms.
pub proof fn lemma_weight_update(cells: Seq<nat>, f: spec_fn(nat) -> int, i: int, v: nat)
    requires
        0 <= i < cells.len(),
    ensures
        weight(cells.update(i, v), f) == weight(cells, f) - f(cells[i]) + f(v),
    decreases cells.len(),
{
    let after = cells.update(i, v);
    if i == cells.len() - 1 {
        assert(after.drop_last() == cells.drop_last());
    } else {
        assert(after.drop_last() == cells.drop_last().update(i, v));
        lemma_weight_update(cells.drop_last(), f, i, v);
    }
}

/// Cells without tiles weigh nothing, if an empty cell weighs nothing.
pub proof fn lemma_weight_of_empty_cells(cells: Seq<nat>, f: spec_fn(nat) -> int)
    requires
        forall|i: int| 0 <= i < cells.len() ==> cells[i] == 0,
        f(0) == 0,
    ensures
        weight(cells, f) == 0,
    decreases cells.len(),
{
    if cells.len() > 0 {
        lemma_weight_of_empty_cells(cells.drop_last(), f);
    }
}

/// A weight is at least each of its terms, if none is negative.
pub proof fn lemma_weight_covers_term(cells: Seq<nat>, f: spec_fn(nat) -> int, i: int)
    requires
        forall|v: nat| 0 <= #[trigger] f(v),
        0 <= i < cells.len(),
    ensures
        f(cells[i]) <= weight(cells, f),
    decreases cells.len(),
{
    if i == cells.len() - 1 {
        lemma_weight_nonnegative(cells.drop_last(), f);
    } else {
        lemma_weight_covers_term(cells.drop_last(), f, i);
    }
}

/// A weight whose terms are at most `bound` is at most `bound` times the number of cells.
pub proof fn lemma_weight_at_most(cells: Seq<nat>, f: spec_fn(nat) -> int, bound: int)
    requires
        forall|i: int| 0 <= i < cells.len() ==> f(#[trigger] cells[i]) <= bound,
    ensures
        weight(cells, f) <= bound * cells.len(),
    decreases cells.len(),
{
    if cells.len() > 0 {
        let front = cells.drop_last();
        assert forall|i: int| 0 <= i < front.len() implies f(#[trigger] front[i]) <= bound by {
            assert(front[i] == cells[i]);
        }
        lemma_weight_at_most(front, f, bound);
        assert(f(cells[cells.len() - 1]) <= bound);
        assert(bound * cells.len() == bound * (cells.len() - 1) + bound) by (nonlinear_arith);
    }
}

/// Of two weights, the one with the smaller terms is the smaller.
pub proof fn lemma_weight_monotone(cells: Seq<nat>, f: spec_fn(nat) -> int, g: spec_fn(nat) -> int)
    requires
        forall|v: nat| #[trigger] f(v) <= g(v),
    ensures
        weight(cells, f) <= weight(cells, g),
    decreases cells.len(),
{
    if cells.len() > 0 {
        lemma_weight_monotone(cells.drop_last(), f, g);
        assert(f(cells.last()) <= g(cells.last()));
    }
}

/// The weight of a line of one cell.
pub proof fn lemma_weight_single(v: nat, f: spec_fn(nat) -> int)
    ensures
        weight(seq![v], f) == f(v),
{
    let s = seq![v];
    assert(s.drop_last().len() == 0);
    assert(weight(s.drop_last(), f) == 0);
}

/// The weight of a line of two cells.
pub proof fn lemma_weight_pair(a: nat, b: nat, f: spec_fn(nat) -> int)
    ensures
        weight(seq![a, b], f) == f(a) + f(b),
{
    let s = seq![a, b];
    assert(s.drop_last() == seq![a]);
    lemma_weight_single(a, f);
}

} // verus!
