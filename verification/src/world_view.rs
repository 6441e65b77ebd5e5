use vstd::prelude::*;
use crate::grid::{global_coords_to_index, global_index, global_index_defined, in_world};
use crate::vec2::IVec2;

verus! {

/// What a view of `cells` as a world of size `size` shows at `p`: the cell
/// stored for `p` when `p` lies inside the world, `border` elsewhere.
pub open spec fn world_cell<T>(cells: Seq<T>, size: IVec2, border: T, p: IVec2) -> T {
    if in_world(p, size) {
        cells[global_index(p, size)]
    } else {
        border
    }
}

/// Reading or writing `p` in a view of `cells` as a world of size `size`
/// indexes inside the buffer.
pub open spec fn readable_at<T>(cells: Seq<T>, size: IVec2, p: IVec2) -> bool {
    in_world(p, size) ==> global_index_defined(p, size) && global_index(p, size) < cells.len()
}

fn is_in_bounds(global_coord: IVec2, world_size: IVec2) -> (r: bool)
    ensures
        r == in_world(global_coord, world_size),
{
    return (global_coord.x >= 0) && (global_coord.y >= 0) && (global_coord.x < world_size.x) && (
    global_coord.y < world_size.y);
}

/// A read-only view of a buffer of cells as a world in chunked layout, with a
/// border value outside of it.
pub struct WorldView<'a, T: Copy> {
    cells: &'a [T],
    world_size: IVec2,
    border: T,
}

impl<'a, T: Copy> WorldView<'a, T> {
    pub closed spec fn cells(&self) -> Seq<T> {
        self.cells@
    }

    pub closed spec fn world_size(&self) -> IVec2 {
        self.world_size
    }

    pub closed spec fn border(&self) -> T {
        self.border
    }

    pub fn new(cells: &'a [T], world_size: IVec2, border: T) -> (r: Self)
        ensures
            r.cells() == cells@,
            r.world_size() == world_size,
            r.border() == border,
    {
        Self { cells, world_size, border }
    }

    /// The cell at `global_coord`, or the border outside the world.
    pub fn get_cell(&self, global_coord: IVec2) -> (r: T)
        requires
            readable_at(self.cells(), self.world_size(), global_coord),
        ensures
            r == world_cell(self.cells(), self.world_size(), self.border(), global_coord),
    {
        if is_in_bounds(global_coord, self.size()) {
            let global_index = global_coords_to_index(global_coord, self.size());
            return self.cells[global_index];
        } else {
            return self.border;
        }
    }

    pub fn size(&self) -> (r: IVec2)
        ensures
            r == self.world_size(),
    {
        self.world_size
    }
}

/// A writable view of a buffer of cells as a world in chunked layout, with a
/// border value outside of it.
pub struct WorldViewMut<'a, T: Copy> {
    pub cells: &'a mut [T],
    pub world_size: IVec2,
    pub border: T,
}

impl<'a, T: Copy> WorldViewMut<'a, T> {
    pub open spec fn cells(&self) -> Seq<T> {
        self.cells@
    }

    pub open spec fn world_size(&self) -> IVec2 {
        self.world_size
    }

    pub open spec fn border(&self) -> T {
        self.border
    }

    pub fn new(cells: &'a mut [T], world_size: IVec2, border: T) -> (r: Self)
        ensures
            r.cells() == old(cells)@,
            final(r.cells)@ == final(cells)@,
            r.world_size() == world_size,
            r.border() == border,
    {
        Self { cells, world_size, border }
    }

    /// The cell at `global_coord`, or the border outside the world.
    pub fn get_cell(&self, global_coord: IVec2) -> (r: T)
        requires
            readable_at(self.cells(), self.world_size(), global_coord),
        ensures
            r == world_cell(self.cells(), self.world_size(), self.border(), global_coord),
    {
        if is_in_bounds(global_coord, self.size()) {
            let global_index = global_coords_to_index(global_coord, self.size());
            return self.cells[global_index];
        } else {
            return self.border;
        }
    }

    pub fn size(&self) -> (r: IVec2)
        ensures
            r == self.world_size(),
    {
        self.world_size
    }

    /// Stores `cell` at `global_coord`; outside the world nothing changes.
    pub fn set_cell(&mut self, global_coord: IVec2, cell: T)
        requires
            readable_at(old(self).cells(), old(self).world_size(), global_coord),
        ensures
            final(self).world_size() == old(self).world_size(),
            final(final(self).cells)@ == final(old(self).cells)@,
            final(self).border() == old(self).border(),
            final(self).cells() == if in_world(global_coord, old(self).world_size()) {
                old(self).cells().update(global_index(global_coord, old(self).world_size()), cell)
            } else {
                old(self).cells()
            },
    {
        if is_in_bounds(global_coord, self.world_size) {
            let global_index = global_coords_to_index(global_coord, self.size());
            self.cells[global_index] = cell;
        }
    }
}

} // verus!
