use vstd::prelude::*;
use crate::cell::{spec_is_liquid, Cell};
use crate::grid::map_1d_to_2d;
use crate::world::Simulation;

verus! {

/// The pixel of a 16 by 16 cell texture that shows cell number `local_index`
/// of a chunk in frame `frame_number`: textures repeat every 16 cells, and
/// liquids scroll sideways by one pixel every four frames, even rows one way
/// and odd rows the other.
pub open spec fn texture_coord_spec(local_index: int, liquid: bool, frame_number: usize) -> (u32, u32) {
    let tx = (local_index % 32) % 16;
    let ty = (local_index / 32) % 16;
    let scroll = ((frame_number as u32) / 4) % 16;
    if liquid {
        if ty % 2 == 0 {
            (((tx + scroll) % 16) as u32, ty as u32)
        } else {
            (((tx + 16 - scroll) % 16) as u32, ty as u32)
        }
    } else {
        (tx as u32, ty as u32)
    }
}

/// The pixel of its kind's texture that cell number `local_index` of a chunk
/// shows in frame `frame_number`.
pub fn texture_coord(local_index: usize, cell: Cell, frame_number: usize) -> (r: (u32, u32))
    requires
        local_index < 1024,
    ensures
        r == texture_coord_spec(local_index as int, spec_is_liquid(cell), frame_number),
{
    let local_coord = map_1d_to_2d(local_index, Simulation::chunk_size_xy());
    let mut tx = local_coord.x as u32 % 16;
    let ty = local_coord.y as u32 % 16;
    if cell.is_liquid() {
        let scroll_offset_x = (frame_number as u32 / 4) % 16;
        if ty % 2 == 0 {
            tx = (tx + scroll_offset_x) % 16;
        } else {
            let shifted = tx.wrapping_sub(scroll_offset_x);
            assert(shifted % 16 == (tx + 16 - scroll_offset_x) % 16) by {
                if tx < scroll_offset_x {
                    assert(shifted == tx - scroll_offset_x + 0x1_0000_0000);
                    assert((tx - scroll_offset_x + 0x1_0000_0000) % 16 == (tx + 16 - scroll_offset_x) % 16);
                }
            }
            tx = shifted % 16;
        }
    }
    (tx, ty)
}

} // verus!
