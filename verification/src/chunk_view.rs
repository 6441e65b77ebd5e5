use vstd::prelude::*;
use crate::grid::{map_1d_to_2d, map_2d_to_1d, tdiv, trem};
use crate::vec2::IVec2;
use crate::world::Simulation;

verus! {

/// The index inside a chunk of the local coordinate `local`, as
/// `map_2d_to_1d` computes it on a grid one chunk wide.
pub open spec fn chunk_local_index(local: IVec2) -> int {
    (local.y * 32 + local.x) as usize as int
}

/// The local coordinate `local` can be looked up in a chunk of `len` cells.
pub open spec fn chunk_local_ok(local: IVec2, len: int) -> bool {
    &&& i32::MIN <= local.y * 32 <= i32::MAX
    &&& i32::MIN <= local.y * 32 + local.x <= i32::MAX
    &&& chunk_local_index(local) < len
}

/// The coordinate of chunk `chunk_index` on the grid of chunks of a world of
/// size `world_size`.
pub open spec fn chunk_coord_of(chunk_index: usize, world_size: IVec2) -> IVec2 {
    IVec2 {
        x: trem((chunk_index as i32) as int, tdiv(world_size.x as int, 32)) as i32,
        y: tdiv((chunk_index as i32) as int, tdiv(world_size.x as int, 32)) as i32,
    }
}

/// A writable view of the cells of one chunk, addressed by local coordinates.
pub struct ChunkViewMut<'a, T: Copy> {
    pub cells: &'a mut [T],
    pub chunk_index: usize,
    pub world_size: IVec2,
}

impl<'a, T: Copy> ChunkViewMut<'a, T> {
    /// The cells that the view currently shows.
    pub open spec fn cells(&self) -> Seq<T> {
        self.cells@
    }

    pub fn new(chunk_index: usize, cells: &'a mut [T], world_size: IVec2) -> (r: Self)
        ensures
            r.cells() == old(cells)@,
            final(r.cells)@ == final(cells)@,
            r.chunk_index == chunk_index,
            r.world_size == world_size,
    {
        return Self { chunk_index, cells, world_size };
    }

    /// The cell at `local_coord` inside the chunk.
    pub fn get_cell(&self, local_coord: IVec2) -> (r: T)
        requires
            chunk_local_ok(local_coord, self.cells().len() as int),
        ensures
            r == self.cells()[chunk_local_index(local_coord)],
    {
        let local_index = map_2d_to_1d(local_coord, Simulation::chunk_size_xy());
        return self.cells[local_index];
    }

    /// Stores `cell` at `local_coord` inside the chunk.
    pub fn set_cell(&mut self, cell: T, local_coord: IVec2)
        requires
            chunk_local_ok(local_coord, old(self).cells().len() as int),
        ensures
            final(self).cells() == old(self).cells().update(chunk_local_index(local_coord), cell),
            final(final(self).cells)@ == final(old(self).cells)@,
            final(self).chunk_index == old(self).chunk_index,
            final(self).world_size == old(self).world_size,
    {
        let local_index = map_2d_to_1d(local_coord, Simulation::chunk_size_xy());
        self.cells[local_index] = cell;
    }

    pub fn get_chunk_index(&self) -> (r: usize)
        ensures
            r == self.chunk_index,
    {
        self.chunk_index
    }

    /// The coordinate of this chunk on the grid of chunks.
    pub fn get_chunk_coord(&self) -> (r: IVec2)
        requires
            tdiv(self.world_size.x as int, 32) > 0,
        ensures
            r == chunk_coord_of(self.chunk_index, self.world_size),
    {
        let side = Simulation::CHUNK_SIZE as i32;
        return map_1d_to_2d(
            self.chunk_index,
            IVec2 { x: self.world_size.x / side, y: self.world_size.y / side },
        );
    }
}

/// A read-only view of the cells of one chunk, addressed by local coordinates.
pub struct ChunkView<'a, T: Copy> {
    cells: &'a [T],
    chunk_index: usize,
    world_size: IVec2,
}

impl<'a, T: Copy> ChunkView<'a, T> {
    pub closed spec fn cells(&self) -> Seq<T> {
        self.cells@
    }

    pub closed spec fn chunk_index(&self) -> usize {
        self.chunk_index
    }

    pub closed spec fn world_size(&self) -> IVec2 {
        self.world_size
    }

    pub fn new(chunk_index: usize, cells: &'a [T], world_size: IVec2) -> (r: Self)
        ensures
            r.cells() == cells@,
            r.chunk_index() == chunk_index,
            r.world_size() == world_size,
    {
        return Self { chunk_index, cells, world_size };
    }

    /// The cell at `local_coord` inside the chunk.
    pub fn get_cell(&self, local_coord: IVec2) -> (r: T)
        requires
            chunk_local_ok(local_coord, self.cells().len() as int),
        ensures
            r == self.cells()[chunk_local_index(local_coord)],
    {
        let local_index = map_2d_to_1d(local_coord, Simulation::chunk_size_xy());
        return self.cells[local_index];
    }

    /// All cells of the chunk, row by row.
    pub fn get_cells(&'a self) -> (r: &'a [T])
        ensures
            r@ == self.cells(),
    {
        self.cells
    }

    pub fn get_chunk_index(&self) -> (r: usize)
        ensures
            r == self.chunk_index(),
    {
        self.chunk_index
    }

    /// The coordinate of this chunk on the grid of chunks.
    pub fn get_chunk_coord(&self) -> (r: IVec2)
        requires
            tdiv(self.world_size().x as int, 32) > 0,
        ensures
            r == chunk_coord_of(self.chunk_index(), self.world_size()),
    {
        let side = Simulation::CHUNK_SIZE as i32;
        return map_1d_to_2d(
            self.chunk_index,
            IVec2 { x: self.world_size.x / side, y: self.world_size.y / side },
        );
    }
}

} // verus!
