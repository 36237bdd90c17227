use game2048::board::Board;
use game2048::grid::Direction;
use game2048::line::{compact, merge_neighbours, slide_line};

fn board(cells: [u32; 16]) -> Board {
    Board::from_cells(cells).expect("every cell is empty or a tile")
}

fn tiles_on(board: &Board) -> usize {
    board.cells().iter().filter(|v| **v != 0).count()
}

fn sum_of(board: &Board) -> u64 {
    board.cells().iter().map(|v| *v as u64).sum()
}

#[test]
fn two_equal_tiles_at_the_edge_merge() {
    let mut b = board([2, 2, 0, 0, 0, 0, 0, 0, 0, 0, 0, 0, 0, 0, 0, 0]);
    let earned = b.slide(Direction::Left);
    assert_eq!(b.cells(), [4, 0, 0, 0, 0, 0, 0, 0, 0, 0, 0, 0, 0, 0, 0, 0]);
    assert_eq!(earned, 4);
}

#[test]
fn tiles_meet_across_a_gap_before_they_merge() {
    let mut b = board([2, 0, 2, 0, 0, 0, 0, 0, 0, 0, 0, 0, 0, 0, 0, 0]);
    let earned = b.slide(Direction::Left);
    assert_eq!(b.cells(), [4, 0, 0, 0, 0, 0, 0, 0, 0, 0, 0, 0, 0, 0, 0, 0]);
    assert_eq!(earned, 4);
}

#[test]
fn four_equal_tiles_merge_in_pairs() {
    let mut b = board([2, 2, 2, 2, 0, 0, 0, 0, 0, 0, 0, 0, 0, 0, 0, 0]);
    let earned = b.slide(Direction::Left);
    assert_eq!(b.cells(), [4, 4, 0, 0, 0, 0, 0, 0, 0, 0, 0, 0, 0, 0, 0, 0]);
    assert_eq!(earned, 8);
}

#[test]
fn three_equal_tiles_pair_from_the_target_edge() {
    assert_eq!(slide_line([2, 2, 2, 0]), ([4, 2, 0, 0], 4));
    assert_eq!(slide_line([0, 2, 2, 2]), ([4, 2, 0, 0], 4));

    let mut b = board([0, 2, 2, 2, 0, 0, 0, 0, 0, 0, 0, 0, 0, 0, 0, 0]);
    let earned = b.slide(Direction::Right);
    assert_eq!(b.cells(), [0, 0, 2, 4, 0, 0, 0, 0, 0, 0, 0, 0, 0, 0, 0, 0]);
    assert_eq!(earned, 4);
}

#[test]
fn a_merged_tile_does_not_merge_again() {
    assert_eq!(slide_line([2, 2, 4, 0]), ([4, 4, 0, 0], 4));
    assert_eq!(slide_line([4, 2, 2, 0]), ([4, 4, 0, 0], 4));
    assert_eq!(slide_line([4, 4, 8, 16]), ([8, 8, 16, 0], 8));
    assert_eq!(slide_line([2, 2, 4, 4]), ([4, 8, 0, 0], 12));
}

#[test]
fn a_line_without_tiles_stays_empty() {
    assert_eq!(slide_line([0, 0, 0, 0]), ([0, 0, 0, 0], 0));
}

#[test]
fn a_single_tile_moves_to_the_edge() {
    assert_eq!(slide_line([0, 0, 0, 8]), ([8, 0, 0, 0], 0));
    assert_eq!(slide_line([0, 8, 0, 0]), ([8, 0, 0, 0], 0));
    assert_eq!(slide_line([8, 0, 0, 0]), ([8, 0, 0, 0], 0));
}

#[test]
fn compaction_keeps_the_order_of_the_tiles() {
    assert_eq!(compact([0, 2, 0, 4]), [2, 4, 0, 0]);
    assert_eq!(compact([8, 0, 4, 2]), [8, 4, 2, 0]);
    assert_eq!(compact([0, 0, 0, 0]), [0, 0, 0, 0]);
    assert_eq!(compact([2, 4, 8, 16]), [2, 4, 8, 16]);
}

#[test]
fn the_merging_pass_leaves_gaps_behind_merged_pairs() {
    assert_eq!(merge_neighbours([2, 2, 2, 2]), ([4, 0, 4, 0], 8));
    assert_eq!(merge_neighbours([2, 4, 4, 0]), ([2, 8, 0, 0], 8));
    assert_eq!(merge_neighbours([2, 4, 8, 0]), ([2, 4, 8, 0], 0));
    assert_eq!(merge_neighbours([0, 0, 0, 0]), ([0, 0, 0, 0], 0));
}

#[test]
fn the_merging_pass_looks_only_at_cells_side_by_side() {
    assert_eq!(merge_neighbours([2, 0, 2, 0]), ([2, 0, 2, 0], 0));
    assert_eq!(merge_neighbours([2, 0, 2, 2]), ([2, 0, 4, 0], 4));
    assert_eq!(merge_neighbours([0, 0, 4, 4]), ([0, 0, 8, 0], 8));
    assert_eq!(merge_neighbours([0, 8, 8, 8]), ([0, 16, 0, 8], 16));
}

#[test]
fn each_direction_slides_toward_its_own_edge() {
    let start = [
        2, 0, 0, 2, //
        0, 4, 0, 0, //
        0, 4, 8, 0, //
        2, 0, 8, 2,
    ];

    let mut left = board(start);
    assert_eq!(left.slide(Direction::Left), 4);
    assert_eq!(
        left.cells(),
        [
            4, 0, 0, 0, //
            4, 0, 0, 0, //
            4, 8, 0, 0, //
            2, 8, 2, 0,
        ]
    );

    let mut right = board(start);
    assert_eq!(right.slide(Direction::Right), 4);
    assert_eq!(
        right.cells(),
        [
            0, 0, 0, 4, //
            0, 0, 0, 4, //
            0, 0, 4, 8, //
            0, 2, 8, 2,
        ]
    );

    let mut up = board(start);
    assert_eq!(up.slide(Direction::Up), 4 + 8 + 16 + 4);
    assert_eq!(
        up.cells(),
        [
            4, 8, 16, 4, //
            0, 0, 0, 0, //
            0, 0, 0, 0, //
            0, 0, 0, 0,
        ]
    );

    let mut down = board(start);
    assert_eq!(down.slide(Direction::Down), 4 + 8 + 16 + 4);
    assert_eq!(
        down.cells(),
        [
            0, 0, 0, 0, //
            0, 0, 0, 0, //
            0, 0, 0, 0, //
            4, 8, 16, 4,
        ]
    );
}

#[test]
fn columns_pair_from_the_edge_they_move_to() {
    let start = [
        2, 0, 0, 0, //
        2, 0, 0, 0, //
        2, 0, 0, 0, //
        0, 0, 0, 0,
    ];
    let mut up = board(start);
    assert_eq!(up.slide(Direction::Up), 4);
    assert_eq!(up.cells(), [4, 0, 0, 0, 2, 0, 0, 0, 0, 0, 0, 0, 0, 0, 0, 0]);

    let mut down = board(start);
    assert_eq!(down.slide(Direction::Down), 4);
    assert_eq!(down.cells(), [0, 0, 0, 0, 0, 0, 0, 0, 2, 0, 0, 0, 4, 0, 0, 0]);
}

#[test]
fn a_settled_board_is_left_alone() {
    let start = [
        2, 4, 0, 0, //
        8, 0, 0, 0, //
        0, 0, 0, 0, //
        16, 32, 64, 128,
    ];
    let mut b = board(start);
    assert_eq!(b.slide(Direction::Left), 0);
    assert_eq!(b.cells(), start);
}

#[test]
fn the_second_of_two_equal_moves_earns_nothing_once_settled() {
    let mut b = board([2, 2, 8, 0, 0, 4, 0, 4, 0, 0, 0, 0, 16, 0, 0, 2]);
    assert_eq!(b.slide(Direction::Left), 4 + 8);
    let settled = b.cells();
    assert_eq!(settled, [4, 8, 0, 0, 8, 0, 0, 0, 0, 0, 0, 0, 16, 2, 0, 0]);
    assert_eq!(b.slide(Direction::Left), 0);
    assert_eq!(b.cells(), settled);
}

#[test]
fn a_second_move_may_still_merge_what_the_first_made() {
    let mut b = board([2, 2, 4, 0, 0, 0, 0, 0, 0, 0, 0, 0, 0, 0, 0, 0]);
    assert_eq!(b.slide(Direction::Left), 4);
    assert_eq!(b.cells()[..4], [4, 4, 0, 0]);
    assert_eq!(b.slide(Direction::Left), 8);
    assert_eq!(b.cells()[..4], [8, 0, 0, 0]);
}

#[test]
fn a_move_keeps_the_sum_of_the_tiles() {
    let start = [2, 2, 4, 4, 8, 8, 8, 8, 0, 2, 0, 2, 16, 0, 16, 32];
    for dir in [Direction::Up, Direction::Down, Direction::Left, Direction::Right] {
        let mut b = board(start);
        let before = sum_of(&b);
        b.slide(dir);
        assert_eq!(sum_of(&b), before);
        assert_eq!(b.tile_sum(), before);
    }
}

#[test]
fn a_move_that_earns_nothing_adds_nothing_to_the_sum() {
    let mut b = board([0, 2, 0, 4, 0, 0, 8, 0, 16, 0, 0, 0, 0, 0, 0, 32]);
    let before = sum_of(&b);
    let earned = b.slide(Direction::Right);
    assert_eq!(earned, 0);
    assert_eq!(sum_of(&b), before + earned as u64);
}

#[test]
fn a_move_never_adds_tiles() {
    let start = [2, 2, 4, 4, 8, 8, 8, 8, 0, 2, 0, 2, 16, 0, 16, 32];
    let mut left = board(start);
    left.slide(Direction::Left);
    // One tile less for each of the six merges.
    assert_eq!(tiles_on(&left), 13 - 6);

    // No two equal tiles meet in a column.
    let mut up = board(start);
    up.slide(Direction::Up);
    assert_eq!(tiles_on(&up), 13);
}

#[test]
fn the_score_is_the_sum_of_the_merged_tiles() {
    let mut b = board([1024, 1024, 0, 0, 2, 2, 2, 2, 64, 0, 0, 64, 4, 8, 4, 8]);
    assert_eq!(b.slide(Direction::Left), 2048 + 4 + 4 + 128);
    assert_eq!(b.cells(), [2048, 0, 0, 0, 4, 4, 0, 0, 128, 0, 0, 0, 4, 8, 4, 8]);
}

#[test]
fn a_move_without_merges_needs_no_room_for_sums() {
    // The tiles add up to more than a cell can hold, but nothing merges.
    let big = 1u32 << 31;
    let mut b = board([big, 0, 0, big >> 1, 0, 0, 0, 0, 0, 0, 0, 0, 0, 0, 0, big]);
    assert!(!b.is_in_range());
    assert_eq!(b.slide(Direction::Left), 0);
    assert_eq!(b.cells(), [big, big >> 1, 0, 0, 0, 0, 0, 0, 0, 0, 0, 0, big, 0, 0, 0]);
    assert_eq!(slide_line([big, 0, big >> 1, big >> 2]), ([big, big >> 1, big >> 2, 0], 0));
    assert_eq!(slide_line([big, 0, big >> 2, big >> 2]), ([big, big >> 1, 0, 0], big >> 1));
}
