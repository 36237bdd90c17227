//! The values that a cell can hold.

use vstd::prelude::*;

verus! {

use vstd::arithmetic::power2::{lemma2_to64, lemma_pow2_unfold, pow2};

/// The tile whose first appearance on the board is announced to the player.
pub const THRESHOLD: u32 = 2048;

/// `v` is the value of a tile: a power of two that is at least 2.
pub open spec fn is_tile(v: nat) -> bool
    decreases v,
{
    v == 2 || (v > 2 && v % 2 == 0 && is_tile(v / 2))
}

/// `v` is what a cell may hold: nothing, or a tile.
pub open spec fn is_cell(v: nat) -> bool {
    v == 0 || is_tile(v)
}

/// Two equal tiles merge into a tile.
pub proof fn lemma_double_is_tile(v: nat)
    requires
        is_tile(v),
    ensures
        is_tile(2 * v),
{
    assert((2 * v) / 2 == v);
}

/// Of two different tiles the larger is at least twice the smaller.
pub proof fn lemma_tiles_lie_apart(v: nat, w: nat)
    requires
        is_tile(v),
        is_tile(w),
        v < w,
    ensures
        2 * v <= w,
    decreases w,
{
    if v > 2 {
        lemma_tiles_lie_apart(v / 2, w / 2);
    }
}

/// The tiles are the powers of two with an exponent of at least 1.
pub proof fn law_tiles_are_powers_of_two(v: nat)
    ensures
        is_tile(v) <==> exists|e: nat| e >= 1 && v == #[trigger] pow2(e),
    decreases v,
{
    lemma2_to64();
    if is_tile(v) {
        if v == 2 {
            assert(v == pow2(1));
        } else {
            law_tiles_are_powers_of_two(v / 2);
            let e = choose|e: nat| e >= 1 && v / 2 == #[trigger] pow2(e);
            lemma_pow2_unfold(e + 1);
            assert(v == pow2(e + 1));
        }
    }
    if exists|e: nat| e >= 1 && v == #[trigger] pow2(e) {
        let e = choose|e: nat| e >= 1 && v == #[trigger] pow2(e);
        lemma_power_of_two_is_tile(e);
    }
}

/// Each power of two with an exponent of at least 1 is a tile.
pub proof fn lemma_power_of_two_is_tile(e: nat)
    requires
        e >= 1,
    ensures
        is_tile(pow2(e)),
    decreases e,
{
    lemma2_to64();
    if e > 1 {
        lemma_power_of_two_is_tile((e - 1) as nat);
        lemma_pow2_unfold(e);
        lemma_double_is_tile(pow2((e - 1) as nat));
    }
}

/// Tells whether `v` is the value of a tile.
pub fn is_tile_value(v: u32) -> (res: bool)
    ensures
        res == is_tile(v as nat),
{
    let mut rest: u32 = v;
    while rest > 2 && rest % 2 == 0
        invariant
            is_tile(rest as nat) == is_tile(v as nat),
        decreases rest,
    {
        rest = rest / 2;
    }
    rest == 2
}

} // verus!
