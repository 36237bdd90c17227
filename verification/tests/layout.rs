use game2048::layout::{cell_origin, tile_colour, COLUMN_PITCH, ROW_PITCH};

#[test]
fn boxes_start_one_pitch_apart() {
    assert_eq!(ROW_PITCH, 6);
    assert_eq!(COLUMN_PITCH, 11);
    assert_eq!(cell_origin(0), (1, 1));
    assert_eq!(cell_origin(1), (1, 12));
    assert_eq!(cell_origin(3), (1, 34));
    assert_eq!(cell_origin(4), (7, 1));
    assert_eq!(cell_origin(10), (13, 23));
    assert_eq!(cell_origin(15), (19, 34));
}

#[test]
fn tiles_up_to_4096_have_a_colour() {
    assert_eq!(tile_colour(2), Some((134, 222, 132)));
    assert_eq!(tile_colour(4), Some((103, 204, 252)));
    assert_eq!(tile_colour(8), Some((153, 51, 255)));
    assert_eq!(tile_colour(16), Some((255, 154, 154)));
    assert_eq!(tile_colour(32), Some((255, 227, 153)));
    assert_eq!(tile_colour(64), Some((163, 205, 73)));
    assert_eq!(tile_colour(128), Some((13, 169, 175)));
    assert_eq!(tile_colour(256), Some((108, 56, 153)));
    assert_eq!(tile_colour(512), Some((238, 197, 221)));
    assert_eq!(tile_colour(1024), Some((148, 24, 24)));
    assert_eq!(tile_colour(2048), Some((0, 0, 0)));
    assert_eq!(tile_colour(4096), Some((200, 200, 200)));
}

#[test]
fn empty_cells_and_larger_tiles_have_no_colour() {
    assert_eq!(tile_colour(0), None);
    assert_eq!(tile_colour(8192), None);
    assert_eq!(tile_colour(3), None);
}
