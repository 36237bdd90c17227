//! Where a cell lies on the screen, and in which colour its tile is shown.
//!
//! The board is drawn as four rows of four boxes. Each box is five lines
//! high and ten columns wide, and a frame of one line and one column lies
//! between neighbours. Lines and columns of the screen are counted from 1.

use vstd::prelude::*;

verus! {

/// A colour, as its parts of red, green and blue.
pub type Colour = (u8, u8, u8);

/// The lines from the top of one box to the top of the next.
pub const ROW_PITCH: usize = 6;

/// The columns from the left of one box to the left of the next.
pub const COLUMN_PITCH: usize = 11;

/// The line and the column of the screen at which the box of the cell with
/// the index `index` starts.
pub open spec fn origin_of(index: nat) -> (nat, nat) {
    ((index / 4) * 6 + 1, (index % 4) * 11 + 1)
}

/// The background colour of the tile `value`. The tiles from 2 to 4096 have
/// one each; an empty cell and a larger tile have none.
pub open spec fn colour_of(value: nat) -> Option<Colour> {
    if value == 2 {
        Some((134u8, 222u8, 132u8))
    } else if value == 4 {
        Some((103u8, 204u8, 252u8))
    } else if value == 8 {
        Some((153u8, 51u8, 255u8))
    } else if value == 16 {
        Some((255u8, 154u8, 154u8))
    } else if value == 32 {
        Some((255u8, 227u8, 153u8))
    } else if value == 64 {
        Some((163u8, 205u8, 73u8))
    } else if value == 128 {
        Some((13u8, 169u8, 175u8))
    } else if value == 256 {
        Some((108u8, 56u8, 153u8))
    } else if value == 512 {
        Some((238u8, 197u8, 221u8))
    } else if value == 1024 {
        Some((148u8, 24u8, 24u8))
    } else if value == 2048 {
        Some((0u8, 0u8, 0u8))
    } else if value == 4096 {
        Some((200u8, 200u8, 200u8))
    } else {
        None
    }
}

/// The line and the column of the screen at which the box of a cell starts.
pub fn cell_origin(index: usize) -> (origin: (usize, usize))
    requires
        index < 16,
    ensures
        origin.0 == origin_of(index as nat).0,
        origin.1 == origin_of(index as nat).1,
        1 <= origin.0 <= 19,
        1 <= origin.1 <= 34,
{
    ((index / 4) * ROW_PITCH + 1, (index % 4) * COLUMN_PITCH + 1)
}

/// The background colour in which a tile is shown, if it has one.
pub fn tile_colour(value: u32) -> (colour: Option<Colour>)
    ensures
        colour == colour_of(value as nat),
{
    match value {
        2 => Some((134, 222, 132)),
        4 => Some((103, 204, 252)),
        8 => Some((153, 51, 255)),
        16 => Some((255, 154, 154)),
        32 => Some((255, 227, 153)),
        64 => Some((163, 205, 73)),
        128 => Some((13, 169, 175)),
        256 => Some((108, 56, 153)),
        512 => Some((238, 197, 221)),
        1024 => Some((148, 24, 24)),
        2048 => Some((0, 0, 0)),
        4096 => Some((200, 200, 200)),
        _ => None,
    }
}

} // verus!
