//! Where an item's icon lies in the sheet of icons, and how brightly a moving
//! thing is lit.

use crate::chunk::LightValue;
use crate::geometry::{split_block_pos, IVec3};
use crate::item::ItemId;
use crate::view::ChunkStore;
use vstd::prelude::*;

verus! {

/// Edge length of an icon, in pixels.
pub const CELL_SIZE: u16 = 32;

/// Columns of the sheet.
pub const COLUMNS: u16 = 8;

/// Rows of the sheet.
pub const ROWS: u16 = 4;

/// A rectangle of pixels, from its least corner on.
#[derive(Clone, Copy, Debug, PartialEq, Eq, Structural)]
pub struct PixelRect {
    pub x: u16,
    pub y: u16,
    pub width: u16,
    pub height: u16,
}

/// Where an icon lies: row by row by id. An id past the sheet gets the first,
/// transparent cell.
pub open spec fn icon_of(item: ItemId) -> PixelRect {
    let index = if item.0 < 32 {
        item.0 as int
    } else {
        0
    };
    PixelRect { x: ((index % 8) * 32) as u16, y: ((index / 8) * 32) as u16, width: 32, height: 32 }
}

/// Where an icon lies.
pub fn rect(item: ItemId) -> (r: PixelRect)
    ensures
        r == icon_of(item),
{
    let index: u16 = if item.0 < COLUMNS * ROWS { item.0 } else { 0 };
    PixelRect {
        x: (index % COLUMNS) * CELL_SIZE,
        y: (index / COLUMNS) * CELL_SIZE,
        width: CELL_SIZE,
        height: CELL_SIZE,
    }
}

/// Every icon lies inside the sheet of 256 by 128 pixels, and different items
/// of the sheet have different icons.
pub proof fn law_icons_are_distinct(a: ItemId, b: ItemId)
    ensures
        icon_of(a).x + icon_of(a).width <= 256,
        icon_of(a).y + icon_of(a).height <= 128,
        a.0 < 32 && b.0 < 32 && icon_of(a) == icon_of(b) ==> a == b,
        a.0 >= 32 ==> icon_of(a) == icon_of(ItemId(0)),
{
}

/// The light at a position of the world; dark where none was received.
pub fn light_at(store: &ChunkStore, pos: IVec3) -> (light: LightValue)
    ensures
        light == if store.light@.contains_key(pos.chunk_of()) {
            store.light@[pos.chunk_of()].light(pos.local_of())
        } else {
            crate::chunk::darkness()
        },
{
    let (chunk, local) = split_block_pos(pos);
    match store.light.get(chunk) {
        Some(light) => light.get(local),
        None => LightValue::dark(),
    }
}

/// The sheet is filled row by row, eight icons of 32 by 32 pixels to a row.
pub proof fn law_icons_go_row_by_row(row: u16, col: u16)
    requires
        row < 4,
        col < 8,
    ensures
        ({
            let r = icon_of(ItemId((8 * row + col) as u16));
            r.x == 32 * col && r.y == 32 * row && r.width == 32 && r.height == 32
        }),
{
}

} // verus!
