use game2048::board::Board;
use game2048::grid::Direction;
use game2048::tile::{is_tile_value, THRESHOLD};

fn board(cells: [u32; 16]) -> Board {
    Board::from_cells(cells).expect("every cell is empty or a tile")
}

fn tiles_on(board: &Board) -> usize {
    board.cells().iter().filter(|v| **v != 0).count()
}

const NO_MOVE_LEFT: [u32; 16] = [
    2, 4, 8, 16, //
    32, 64, 128, 256, //
    512, 1024, 2048, 4096, //
    8192, 16384, 32768, 65536,
];

const CHEQUERED: [u32; 16] = [
    2, 4, 2, 4, //
    4, 2, 4, 2, //
    2, 4, 2, 4, //
    4, 2, 4, 2,
];

#[test]
fn a_new_board_is_empty() {
    let b = Board::new();
    assert_eq!(b.cells(), [0; 16]);
    assert!(!b.is_full());
    assert_eq!(b.free_cells(), (0..16).collect::<Vec<usize>>());
    assert_eq!(b.tile_sum(), 0);
}

#[test]
fn tiles_are_the_powers_of_two_from_two_on() {
    assert!(!is_tile_value(0));
    assert!(!is_tile_value(1));
    assert!(is_tile_value(2));
    assert!(!is_tile_value(3));
    assert!(is_tile_value(4));
    assert!(!is_tile_value(6));
    assert!(!is_tile_value(12));
    assert!(is_tile_value(2048));
    assert!(is_tile_value(1 << 31));
    assert!(!is_tile_value(u32::MAX));
    assert_eq!(THRESHOLD, 2048);
}

#[test]
fn a_board_takes_only_empty_cells_and_tiles() {
    assert!(Board::from_cells([0; 16]).is_some());
    assert!(Board::from_cells(NO_MOVE_LEFT).is_some());
    let mut cells = [0u32; 16];
    cells[7] = 3;
    assert!(Board::from_cells(cells).is_none());
    cells[7] = 1;
    assert!(Board::from_cells(cells).is_none());
    cells[7] = 2;
    assert!(Board::from_cells(cells).is_some());
}

#[test]
fn cells_are_read_by_row_and_column() {
    let b = board(NO_MOVE_LEFT);
    assert_eq!(b.cells(), NO_MOVE_LEFT);
    assert_eq!(b.cell(0, 0), 2);
    assert_eq!(b.cell(0, 3), 16);
    assert_eq!(b.cell(1, 0), 32);
    assert_eq!(b.cell(3, 3), 65536);
    assert_eq!(b.cell(2, 1), 1024);
}

#[test]
fn the_sum_of_the_tiles_is_checked_against_the_cell_type() {
    let b = board(NO_MOVE_LEFT);
    assert_eq!(b.tile_sum(), 131070);
    assert!(b.is_in_range());
    let huge = board([1 << 31; 16]);
    assert_eq!(huge.tile_sum(), 16 * (1u64 << 31));
    assert!(!huge.is_in_range());
}

#[test]
fn spawn_on_a_full_board_changes_nothing() {
    let mut b = board(CHEQUERED);
    b.spawn();
    assert_eq!(b.cells(), CHEQUERED);
    b.spawn_at(0, 0);
    assert_eq!(b.cells(), CHEQUERED);
}

#[test]
fn spawn_adds_one_tile_of_two_or_four() {
    for _ in 0..200 {
        let start = [2, 0, 4, 0, 0, 8, 0, 0, 16, 0, 0, 0, 0, 0, 0, 2];
        let mut b = board(start);
        b.spawn();
        let after = b.cells();
        assert_eq!(tiles_on(&b), 6);
        let changed: Vec<usize> = (0..16).filter(|i| after[*i] != start[*i]).collect();
        assert_eq!(changed.len(), 1);
        assert_eq!(start[changed[0]], 0);
        assert!(after[changed[0]] == 2 || after[changed[0]] == 4);
    }
}

#[test]
fn spawn_fills_the_last_empty_cell() {
    let mut cells = CHEQUERED;
    cells[9] = 0;
    for _ in 0..50 {
        let mut b = board(cells);
        b.spawn();
        assert!(b.is_full());
        assert!(b.cell(2, 1) == 2 || b.cell(2, 1) == 4);
    }
}

#[test]
fn spawn_reaches_every_empty_cell_and_both_tiles() {
    let mut seen_at = [false; 16];
    let mut seen_two = false;
    let mut seen_four = false;
    for _ in 0..4000 {
        let mut b = board([0, 0, 0, 0, 0, 2, 2, 0, 0, 2, 2, 0, 0, 0, 0, 0]);
        b.spawn();
        let after = b.cells();
        for i in [0, 1, 2, 3, 4, 7, 8, 11, 12, 13, 14, 15] {
            if after[i] != 0 {
                seen_at[i] = true;
                seen_two |= after[i] == 2;
                seen_four |= after[i] == 4;
            }
        }
    }
    for i in [0, 1, 2, 3, 4, 7, 8, 11, 12, 13, 14, 15] {
        assert!(seen_at[i]);
    }
    assert!(seen_two && seen_four);
}

#[test]
fn spawn_at_counts_the_empty_cells_in_order() {
    let start = [2, 0, 4, 0, 0, 8, 0, 0, 16, 0, 0, 0, 0, 0, 0, 2];
    assert_eq!(board(start).free_cells(), vec![1, 3, 4, 6, 7, 9, 10, 11, 12, 13, 14]);

    let mut first = board(start);
    first.spawn_at(0, 3);
    assert_eq!(first.cells(), [2, 2, 4, 0, 0, 8, 0, 0, 16, 0, 0, 0, 0, 0, 0, 2]);

    let mut third = board(start);
    third.spawn_at(2, 0);
    assert_eq!(third.cells(), [2, 0, 4, 0, 4, 8, 0, 0, 16, 0, 0, 0, 0, 0, 0, 2]);

    let mut last = board(start);
    last.spawn_at(10, 9);
    assert_eq!(last.cells(), [2, 0, 4, 0, 0, 8, 0, 0, 16, 0, 0, 0, 0, 0, 2, 2]);

    let mut beyond = board(start);
    beyond.spawn_at(11, 0);
    assert_eq!(beyond.cells(), start);
}

#[test]
fn only_one_roll_in_ten_gives_a_four() {
    for roll in 0..10u8 {
        let mut b = Board::new();
        b.spawn_at(5, roll);
        assert_eq!(b.cell(1, 1), if roll == 0 { 4 } else { 2 });
    }
}

#[test]
fn a_board_with_an_empty_cell_is_not_terminal() {
    assert!(!Board::new().is_terminal());
    for gap in 0..16 {
        let mut cells = NO_MOVE_LEFT;
        cells[gap] = 0;
        assert!(!board(cells).is_terminal());
    }
}

#[test]
fn a_full_board_without_equal_neighbours_is_terminal() {
    assert!(board(NO_MOVE_LEFT).is_terminal());
    assert!(board(CHEQUERED).is_terminal());
}

#[test]
fn a_full_board_with_equal_neighbours_is_not_terminal() {
    // One pair in a row.
    let mut in_row = CHEQUERED;
    in_row[14] = 2;
    assert!(!board(in_row).is_terminal());

    // One pair in a column.
    let mut in_column = NO_MOVE_LEFT;
    in_column[4] = 2;
    assert!(!board(in_column).is_terminal());

    assert!(!board([2; 16]).is_terminal());
}

#[test]
fn the_terminal_test_leaves_the_board_alone() {
    let mut cells = CHEQUERED;
    cells[14] = 2;
    let b = board(cells);
    assert!(!b.is_terminal());
    assert_eq!(b.cells(), cells);
}

#[test]
fn the_threshold_is_reached_with_a_2048_tile() {
    assert!(!Board::new().has_reached_threshold());
    assert!(!board(CHEQUERED).has_reached_threshold());
    assert!(board(NO_MOVE_LEFT).has_reached_threshold());
    let mut cells = [0u32; 16];
    cells[15] = 1024;
    assert!(!board(cells).has_reached_threshold());
    cells[15] = 4096;
    assert!(!board(cells).has_reached_threshold());
    cells[15] = 2048;
    assert!(board(cells).has_reached_threshold());
}

#[test]
fn two_1024_tiles_merge_into_the_threshold_tile() {
    let mut cells = [0u32; 16];
    cells[3] = 1024;
    cells[15] = 1024;
    let mut b = board(cells);
    assert!(!b.has_reached_threshold());
    assert_eq!(b.slide(Direction::Down), 2048);
    assert!(b.has_reached_threshold());
    assert_eq!(b.cell(3, 3), 2048);
}

#[test]
fn boards_are_compared_by_their_cells() {
    let a = board(CHEQUERED);
    let b = board(CHEQUERED);
    let c = board(NO_MOVE_LEFT);
    assert!(a.same_cells(&b));
    assert!(!a.same_cells(&c));
}

/// A full board drawn from `seed`, with tiles from 2 to 16.
fn full_board(seed: u64) -> Board {
    let mut state = seed;
    let mut cells = [0u32; 16];
    for cell in cells.iter_mut() {
        state = state.wrapping_mul(6364136223846793005).wrapping_add(1442695040888963407);
        *cell = 2 << ((state >> 33) % 4);
    }
    board(cells)
}

#[test]
fn moves_tried_in_a_row_tell_the_same_as_moves_tried_alone() {
    let mut seen_terminal = false;
    let mut seen_playing = false;
    for seed in 0..3000 {
        let b = full_board(seed);
        let mut stuck = true;
        for dir in [Direction::Up, Direction::Down, Direction::Right, Direction::Left] {
            let mut copy = b;
            copy.slide(dir);
            stuck &= copy.same_cells(&b);
        }
        assert_eq!(b.is_terminal(), stuck);
        seen_terminal |= stuck;
        seen_playing |= !stuck;
    }
    assert!(seen_terminal && seen_playing);
}

#[test]
fn the_free_cells_are_the_empty_ones() {
    assert_eq!(board(CHEQUERED).free_cells(), Vec::<usize>::new());
    let mut cells = CHEQUERED;
    cells[0] = 0;
    cells[15] = 0;
    assert_eq!(board(cells).free_cells(), vec![0, 15]);
}
