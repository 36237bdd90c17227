//! The board: sixteen cells, and the moves of the game on them.

use vstd::prelude::*;

verus! {

use crate::chance::random_below;
use crate::grid::{
    cell_at, empty_grid, free_cells, full, line_of, line_through, place_on_line, slid, slide_gain,
    slide_merges, spawned, stuck, terminal, tile_for, well_formed, with_line, with_new_tile,
    Direction, CELLS,
};
use crate::grid_lemmas::{
    gain_of_lines, lemma_cell_at_inverse, lemma_free_cells, lemma_full_means_no_free_cell,
    lemma_gain_of_lines_bound, lemma_new_tile_is_spawned, lemma_slide_drops_tiles,
    lemma_slide_keeps_total, lemma_slide_keeps_well_formed,
};
use crate::laws::law_terminal_means_stuck;
use crate::line::{as_nats, slide_line, WIDTH};
use crate::playable::{
    lemma_empty_is_playable, lemma_new_tile_keeps_playable, lemma_playable_is_bounded,
    lemma_slide_keeps_playable, playable,
};
use crate::tile::{is_cell, is_tile, is_tile_value, THRESHOLD};
use crate::weight::{
    by_presence, by_value, lemma_weight_at_most, lemma_weight_nonnegative, lemma_weight_update,
    occupied, reaching, total,
};
use crate::worth::{lemma_new_tile_keeps_worth, lemma_slide_earns_worth, worth, worth_of_tile};
use vstd::arithmetic::power2::{
    lemma2_to64, lemma_pow2_strictly_increases, lemma_pow2_unfold, pow2,
};

/// The board of 4 by 4 cells. The cells are numbered row by row from the top,
/// each row from the left; a cell holds 0 when it is empty and the value of
/// its tile otherwise. Every board is well formed: see [`Board::wf`].
#[derive(Clone, Copy, Debug)]
pub struct Board {
    cells: [u32; CELLS],
}

impl View for Board {
    type V = Seq<nat>;

    /// The grid that the board holds.
    closed spec fn view(&self) -> Seq<nat> {
        as_nats(self.cells@)
    }
}

/// The index of cell `k` of line `line` for a move toward `dir`.
fn index_of(dir: Direction, line: usize, k: usize) -> (i: usize)
    requires
        line < WIDTH,
        k < WIDTH,
    ensures
        i == cell_at(dir, line as int, k as int),
        i < CELLS,
{
    match dir {
        Direction::Left => 4 * line + k,
        Direction::Right => 4 * line + (3 - k),
        Direction::Up => 4 * k + line,
        Direction::Down => 4 * (3 - k) + line,
    }
}

/// Line `line` of `cells` for a move toward `dir`, read from the target edge.
fn read_line(cells: &[u32; CELLS], dir: Direction, line: usize) -> (row: [u32; WIDTH])
    requires
        line < WIDTH,
    ensures
        as_nats(row@) == line_of(as_nats(cells@), dir, line as int),
{
    let row = [
        cells[index_of(dir, line, 0)],
        cells[index_of(dir, line, 1)],
        cells[index_of(dir, line, 2)],
        cells[index_of(dir, line, 3)],
    ];
    proof {
        assert(as_nats(row@) =~= line_of(as_nats(cells@), dir, line as int));
    }
    row
}

/// Replaces line `line` of `cells`, for a move toward `dir`, by `row`.
fn write_line(cells: &mut [u32; CELLS], dir: Direction, line: usize, row: [u32; WIDTH])
    requires
        line < WIDTH,
    ensures
        as_nats(final(cells)@) == with_line(as_nats(old(cells)@), dir, line as int, as_nats(row@)),
{
    let ghost before = as_nats(cells@);
    let i0 = index_of(dir, line, 0);
    let i1 = index_of(dir, line, 1);
    let i2 = index_of(dir, line, 2);
    let i3 = index_of(dir, line, 3);
    cells[i0] = row[0];
    cells[i1] = row[1];
    cells[i2] = row[2];
    cells[i3] = row[3];
    proof {
        let now = as_nats(cells@);
        let target = with_line(before, dir, line as int, as_nats(row@));
        assert forall|i: int| 0 <= i < 16 implies now[i] == target[i] by {
            lemma_cell_at_inverse(dir, i);
            if line_through(dir, i) == line {
                let k = place_on_line(dir, i);
                assert(k == 0 || k == 1 || k == 2 || k == 3);
                assert(now[i] == as_nats(row@)[k]);
            } else {
                assert(i != i0 && i != i1 && i != i2 && i != i3);
                assert(now[i] == before[i]);
            }
        }
        assert(now =~= target);
    }
}

impl Board {
    /// The invariant of the type, which every board meets at all times: every
    /// cell is empty or holds a tile, a power of two from 2 on.
    #[verifier::type_invariant]
    pub open spec fn wf(&self) -> bool {
        well_formed(self@)
    }

    /// The sum of the tiles fits the type of a cell. On such a board every
    /// move can be made: the tiles it makes and the score it returns are sums
    /// of tiles of the board.
    pub open spec fn in_range(&self) -> bool {
        total(self@) <= u32::MAX
    }

    /// The board is well formed, and at most `18 - e` cells hold 2^e or more,
    /// for each `e` from 3 to 18. The empty board is playable, new tiles and
    /// moves keep a board playable, and a playable board is in range: so
    /// every board of a game is.
    pub open spec fn playable(&self) -> bool {
        playable(self@)
    }

    /// A playable board is in range: no tile on it is larger than 2^17.
    pub proof fn law_playable_is_in_range(&self)
        requires
            self.playable(),
        ensures
            self.wf(),
            self.in_range(),
    {
        lemma_playable_is_bounded(self@);
    }

    /// The board without any tile.
    pub fn new() -> (board: Board)
        ensures
            board@ == empty_grid(),
            board.wf(),
            board.playable(),
            board.in_range(),
    {
        let board = Board { cells: [0u32; CELLS] };
        proof {
            assert(board@ =~= empty_grid());
            lemma_empty_is_playable();
            lemma_playable_is_bounded(board@);
        }
        board
    }

    /// The board that holds `cells`, if each of them is empty or a tile. A
    /// board without a tile above 2^27 is in range.
    pub fn from_cells(cells: [u32; CELLS]) -> (board: Option<Board>)
        ensures
            board is Some <==> well_formed(as_nats(cells@)),
            board is Some ==> board.unwrap()@ == as_nats(cells@) && board.unwrap().wf(),
            board is Some && (forall|i: int| 0 <= i < CELLS ==> cells[i] <= 0x800_0000)
                ==> board.unwrap().in_range(),
    {
        proof {
            if forall|i: int| 0 <= i < CELLS ==> cells[i] <= 0x800_0000 {
                lemma_weight_at_most(as_nats(cells@), by_value(), 0x800_0000);
            }
        }
        for i in 0..CELLS
            invariant
                forall|j: int| 0 <= j < i ==> is_cell(#[trigger] as_nats(cells@)[j]),
        {
            if cells[i] != 0 && !is_tile_value(cells[i]) {
                proof {
                    assert(!is_cell(as_nats(cells@)[i as int]));
                }
                return None;
            }
        }
        Some(Board { cells })
    }

    /// The sixteen cells, row by row.
    pub fn cells(&self) -> (cells: [u32; CELLS])
        ensures
            as_nats(cells@) == self@,
    {
        self.cells
    }

    /// The cell in row `row` and column `col`, both counted from 0 at the top left.
    pub fn cell(&self, row: usize, col: usize) -> (value: u32)
        requires
            row < WIDTH,
            col < WIDTH,
        ensures
            value == self@[4 * row + col],
    {
        self.cells[4 * row + col]
    }

    /// Slides all tiles toward `dir`: in each row or column the tiles move to
    /// that edge, equal neighbours merge once, pairing from the edge, and the
    /// gaps close. Returns the score earned, the sum of the merged tiles.
    /// That sum must fit its type, as it does on a board that is in range.
    pub fn slide(&mut self, dir: Direction) -> (earned: u32)
        requires
            old(self).in_range() || slide_gain(old(self)@, dir) <= u32::MAX,
        ensures
            final(self)@ == slid(old(self)@, dir),
            earned == slide_gain(old(self)@, dir),
            final(self).wf(),
            total(final(self)@) == total(old(self)@),
            occupied(final(self)@) == occupied(old(self)@) - slide_merges(old(self)@, dir),
            occupied(final(self)@) <= occupied(old(self)@),
            worth(final(self)@) == worth(old(self)@) + earned,
            old(self).in_range() ==> final(self).in_range(),
            old(self).playable() ==> final(self).playable(),
    {
        let ghost before = self@;
        let mut cells = self.cells;
        let mut earned: u32 = 0;
        proof {
            reveal_with_fuel(gain_of_lines, 5);
            lemma_gain_of_lines_bound(before, dir, 4);
        }
        for line in 0..WIDTH
            invariant
                before.len() == 16,
                gain_of_lines(before, dir, 4) <= u32::MAX,
                forall|i: int|
                    0 <= i < 16 ==> as_nats(cells@)[i] == if line_through(dir, i) < line {
                        slid(before, dir)[i]
                    } else {
                        before[i]
                    },
                earned == gain_of_lines(before, dir, line as nat),
        {
            let ghost held = as_nats(cells@);
            let row = read_line(&cells, dir, line);
            proof {
                let model = line_of(before, dir, line as int);
                assert forall|k: int| 0 <= k < 4 implies as_nats(row@)[k] == model[k] by {
                    let i = cell_at(dir, line as int, k);
                    assert(line_through(dir, i) == line);
                    assert(held[i] == before[i]);
                }
                assert(as_nats(row@) =~= model);
                reveal_with_fuel(gain_of_lines, 5);
            }
            let (out, gained) = slide_line(row);
            write_line(&mut cells, dir, line, out);
            earned = earned + gained;
        }
        proof {
            use_type_invariant(&*self);
            assert(as_nats(cells@) =~= slid(before, dir));
            reveal_with_fuel(gain_of_lines, 5);
            lemma_slide_keeps_well_formed(before, dir);
            lemma_slide_keeps_total(before, dir);
            lemma_slide_drops_tiles(before, dir);
            lemma_slide_earns_worth(before, dir);
            if playable(before) {
                lemma_slide_keeps_playable(before, dir);
            }
        }
        self.cells = cells;
        earned
    }
}

impl Board {
    /// Tells whether no cell is empty.
    pub fn is_full(&self) -> (res: bool)
        ensures
            res == full(self@),
    {
        for i in 0..CELLS
            invariant
                forall|j: int| 0 <= j < i ==> self@[j] != 0,
        {
            if self.cells[i] == 0 {
                proof {
                    assert(self@[i as int] == 0);
                }
                return false;
            }
        }
        true
    }

    /// Tells whether some cell holds the threshold tile, 2048.
    pub fn has_reached_threshold(&self) -> (res: bool)
        ensures
            res == self@.contains(THRESHOLD as nat),
    {
        for i in 0..CELLS
            invariant
                forall|j: int| 0 <= j < i ==> self@[j] != THRESHOLD as nat,
        {
            if self.cells[i] == THRESHOLD {
                proof {
                    assert(self@[i as int] == THRESHOLD as nat);
                }
                return true;
            }
        }
        false
    }

    /// The sum of the tiles on the board.
    pub fn tile_sum(&self) -> (sum: u64)
        ensures
            sum == total(self@),
    {
        let mut sum: u64 = 0;
        for i in 0..CELLS
            invariant
                sum == total(self@.take(i as int)),
                sum <= i * u32::MAX,
        {
            proof {
                assert(self@.take(i + 1).drop_last() == self@.take(i as int));
            }
            sum = sum + self.cells[i] as u64;
        }
        proof {
            assert(self@.take(CELLS as int) == self@);
        }
        sum
    }

    /// Tells whether the board is in range: whether the sum of the tiles fits
    /// the type of a cell.
    pub fn is_in_range(&self) -> (res: bool)
        ensures
            res == self.in_range(),
    {
        self.tile_sum() <= u32::MAX as u64
    }

    /// The number of cells that hold at least `bound`.
    pub fn count_reaching(&self, bound: u32) -> (count: usize)
        ensures
            count == reaching(self@, bound as nat),
            count <= CELLS,
    {
        let mut count: usize = 0;
        for i in 0..CELLS
            invariant
                count == reaching(self@.take(i as int), bound as nat),
                count <= i,
        {
            proof {
                assert(self@.take(i + 1).drop_last() == self@.take(i as int));
            }
            if self.cells[i] >= bound {
                count = count + 1;
            }
        }
        proof {
            assert(self@.take(CELLS as int) == self@);
        }
        count
    }

    /// Tells whether the board is playable.
    pub fn is_playable(&self) -> (res: bool)
        ensures
            res == self.playable(),
            res ==> self.in_range(),
    {
        proof {
            use_type_invariant(self);
            if self.playable() {
                lemma_playable_is_bounded(self@);
            }
        }
        let mut bound: u32 = 8;
        let mut e: usize = 3;
        proof {
            lemma2_to64();
        }
        while e <= 18
            invariant
                3 <= e <= 19,
                bound == pow2(e as nat),
                forall|k: nat| 3 <= k < e ==> reaching(self@, #[trigger] pow2(k)) <= 18 - k,
            decreases 19 - e,
        {
            if self.count_reaching(bound) > 18 - e {
                return false;
            }
            proof {
                lemma_pow2_unfold((e + 1) as nat);
                lemma_pow2_strictly_increases(e as nat, 19);
                lemma2_to64();
            }
            bound = 2 * bound;
            e = e + 1;
        }
        true
    }

    /// What the tiles on the board are worth together.
    pub fn tile_worth(&self) -> (sum: i64)
        ensures
            sum == worth(self@),
    {
        let mut sum: i64 = 0;
        for i in 0..CELLS
            invariant
                sum == worth(self@.take(i as int)),
                0 <= sum + i,
                sum <= 128849018850 * i,
        {
            proof {
                assert(self@.take(i + 1).drop_last() == self@.take(i as int));
            }
            sum = sum + worth_of_tile(self.cells[i]);
        }
        proof {
            assert(self@.take(CELLS as int) == self@);
        }
        sum
    }

    /// Tells whether `other` holds the same grid.
    pub fn same_cells(&self, other: &Board) -> (res: bool)
        ensures
            res == (self@ == other@),
    {
        for i in 0..CELLS
            invariant
                forall|j: int| 0 <= j < i ==> self@[j] == other@[j],
        {
            if self.cells[i] != other.cells[i] {
                proof {
                    assert(self@[i as int] != other@[i as int]);
                }
                return false;
            }
        }
        proof {
            assert(self@ =~= other@);
        }
        true
    }

    /// The indices of the empty cells, in rising order.
    pub fn free_cells(&self) -> (free: Vec<usize>)
        ensures
            free@.len() == free_cells(self@).len(),
            forall|k: int| 0 <= k < free@.len() ==> free@[k] as int == free_cells(self@)[k],
    {
        let mut free: Vec<usize> = Vec::new();
        for i in 0..CELLS
            invariant
                free@.len() == free_cells(self@.take(i as int)).len(),
                forall|k: int|
                    0 <= k < free@.len() ==> free@[k] as int == free_cells(
                        self@.take(i as int),
                    )[k],
        {
            proof {
                assert(self@.take(i + 1).drop_last() == self@.take(i as int));
            }
            if self.cells[i] == 0 {
                free.push(i);
            }
        }
        proof {
            assert(self@.take(CELLS as int) == self@);
        }
        free
    }

    /// Puts a new tile on the board, chosen by `slot` and `roll`: the empty
    /// cell number `slot`, counted from 0 in the order of the indices, gets a
    /// 4 if `roll` is 0 and a 2 otherwise. Does nothing if fewer than
    /// `slot + 1` cells are empty.
    pub fn spawn_at(&mut self, slot: usize, roll: u8)
        ensures
            final(self)@ == with_new_tile(old(self)@, slot as nat, roll as nat),
            final(self).wf(),
            worth(final(self)@) >= worth(old(self)@),
            old(self).playable() ==> final(self).playable() && final(self).in_range(),
    {
        proof {
            use_type_invariant(&*self);
            lemma_new_tile_keeps_worth(self@, slot as nat, roll as nat);
            if playable(self@) {
                lemma_new_tile_keeps_playable(self@, slot as nat, roll as nat);
                lemma_playable_is_bounded(with_new_tile(self@, slot as nat, roll as nat));
            }
        }
        let free = self.free_cells();
        if slot < free.len() {
            let tile: u32 = if roll == 0 {
                4
            } else {
                2
            };
            let ghost before = self@;
            proof {
                lemma_free_cells(before);
            }
            let index = free[slot];
            let mut cells = self.cells;
            cells[index] = tile;
            proof {
                assert(as_nats(cells@) =~= before.update(index as int, tile as nat));
                assert(is_tile(4)) by {
                    assert(is_tile(2));
                    assert(4nat / 2 == 2);
                }
            }
            self.cells = cells;
        }
    }

    /// Puts a new tile into an empty cell chosen at random, each with the same
    /// chance: a 4 in one case of ten and a 2 otherwise. Does nothing if the
    /// board is full.
    pub fn spawn(&mut self)
        ensures
            spawned(old(self)@, final(self)@),
            final(self).wf(),
            full(old(self)@) ==> final(self)@ == old(self)@,
            !full(old(self)@) ==> occupied(final(self)@) == occupied(old(self)@) + 1,
            !full(old(self)@) ==> total(final(self)@) == total(old(self)@) + 2 || total(
                final(self)@,
            ) == total(old(self)@) + 4,
            worth(final(self)@) >= worth(old(self)@),
            old(self).playable() ==> final(self).playable() && final(self).in_range(),
    {
        let free = self.free_cells();
        let ghost before = self@;
        proof {
            use_type_invariant(&*self);
            lemma_free_cells(before);
            lemma_full_means_no_free_cell(before);
            lemma_weight_nonnegative(before, by_presence());
            if playable(before) {
                lemma_playable_is_bounded(before);
            }
        }
        if free.len() > 0 {
            let slot = random_below(free.len() as u8);
            let roll = random_below(10);
            self.spawn_at(slot as usize, roll);
            proof {
                let index = free_cells(before)[slot as int];
                lemma_weight_update(before, by_presence(), index, tile_for(roll as nat));
                lemma_weight_update(before, by_value(), index, tile_for(roll as nat));
                lemma_new_tile_is_spawned(before, slot as nat, roll as nat);
            }
        }
    }

    /// Tells whether the game is over: the board is full, and four moves made
    /// one after the other on a copy of it, up, down, right and left, leave
    /// the copy equal to the board. The board itself is not changed.
    pub fn is_terminal(&self) -> (res: bool)
        requires
            self.in_range(),
        ensures
            res == terminal(self@),
            res == stuck(self@),
            !full(self@) ==> !res,
    {
        proof {
            use_type_invariant(self);
            law_terminal_means_stuck(self@);
        }
        if !self.is_full() {
            return false;
        }
        let mut copy = *self;
        copy.slide(Direction::Up);
        copy.slide(Direction::Down);
        copy.slide(Direction::Right);
        copy.slide(Direction::Left);
        copy.same_cells(self)
    }
}

} // verus!
