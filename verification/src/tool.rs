use vstd::prelude::*;
use crate::cell::Cell;
use crate::grid::{cell_index, in_world, lemma_index_of_position, world_cells};
use crate::vec2::IVec2;
use crate::world::Simulation;

verus! {

/// Something the user applies to the world at a position.
pub trait Tool {
    fn apply(&self, simulation: &mut Simulation, global_coord: IVec2);
}

/// Drops a square of one material into the world.
pub struct Dropper {
    cell: Cell,
    size: i32,
}

/// `p` lies in the square of side `size` whose top-left corner is `corner`.
pub open spec fn in_square(p: IVec2, corner: IVec2, size: int) -> bool {
    0 <= p.x - corner.x < size && 0 <= p.y - corner.y < size
}

impl Dropper {
    /// The material that is dropped.
    pub closed spec fn material(&self) -> Cell {
        self.cell
    }

    /// The side of the square that is dropped.
    pub closed spec fn side(&self) -> i32 {
        self.size
    }

    pub fn new(cell: Cell, size: i32) -> (r: Dropper)
        ensures
            r.material() == cell,
            r.side() == size,
    {
        Dropper { cell, size }
    }

    pub fn get_size(&self) -> (r: i32)
        ensures
            r == self.side(),
    {
        self.size
    }

    pub fn set_size(&mut self, size: i32)
        ensures
            final(self).side() == size,
            final(self).material() == old(self).material(),
    {
        self.size = size;
    }

    pub fn set_material(&mut self, cell: Cell)
        ensures
            final(self).material() == cell,
            final(self).side() == old(self).side(),
    {
        self.cell = cell;
    }

    /// Writes the material into every cell of the square of side `size` whose
    /// top-left corner is `global_coord`, in the buffer that is written; the
    /// part of the square outside the world is left out.
    pub fn apply(&self, simulation: &mut Simulation, global_coord: IVec2)
        requires
            old(simulation).wf(),
            self.side() > 0 ==> global_coord.x + self.side() - 1 <= i32::MAX && global_coord.y
                + self.side() - 1 <= i32::MAX,
        ensures
            final(simulation).wf(),
            final(simulation).world_dims() == old(simulation).world_dims(),
            final(simulation).read_cells() == old(simulation).read_cells(),
            forall|p: IVec2|
                in_world(p, old(simulation).world_dims()) ==> #[trigger] final(simulation).write_cells()[cell_index(
                    p,
                    old(simulation).world_dims(),
                )] == if in_square(p, global_coord, self.side() as int) {
                    self.material()
                } else {
                    old(simulation).write_cells()[cell_index(p, old(simulation).world_dims())]
                },
            final(simulation).write_cells().len() == old(simulation).write_cells().len(),
            forall|i: int|
                world_cells(old(simulation).world_dims()) <= i < old(simulation).write_cells().len()
                    ==> #[trigger] final(simulation).write_cells()[i] == old(simulation).write_cells()[i],
    {
        let ghost size = simulation.world_dims();
        let ghost before = simulation.write_cells();
        let mut dx: i32 = 0;
        while dx < self.size
            invariant
                0 <= dx,
                self.size > 0 ==> dx <= self.size,
                self.side() > 0 ==> global_coord.x + self.side() - 1 <= i32::MAX && global_coord.y
                    + self.side() - 1 <= i32::MAX,
                simulation.wf(),
                simulation.world_dims() == size,
                simulation.read_cells() == old(simulation).read_cells(),
                before == old(simulation).write_cells(),
                simulation.write_cells().len() == before.len(),
                forall|i: int|
                    world_cells(size) <= i < before.len() ==> #[trigger] simulation.write_cells()[i]
                        == before[i],
                forall|p: IVec2|
                    in_world(p, size) ==> #[trigger] simulation.write_cells()[cell_index(p, size)] == if 0
                        <= p.x - global_coord.x < dx && 0 <= p.y - global_coord.y < self.size {
                        self.cell
                    } else {
                        before[cell_index(p, size)]
                    },
            decreases self.size - dx,
        {
            let mut dy: i32 = 0;
            while dy < self.size
                invariant
                    0 <= dx < self.size,
                    0 <= dy <= self.size,
                    self.side() > 0 ==> global_coord.x + self.side() - 1 <= i32::MAX && global_coord.y
                        + self.side() - 1 <= i32::MAX,
                    simulation.wf(),
                    simulation.world_dims() == size,
                    simulation.read_cells() == old(simulation).read_cells(),
                    before == old(simulation).write_cells(),
                    simulation.write_cells().len() == before.len(),
                    forall|i: int|
                        world_cells(size) <= i < before.len() ==> #[trigger] simulation.write_cells()[i]
                            == before[i],
                    forall|p: IVec2|
                        in_world(p, size) ==> #[trigger] simulation.write_cells()[cell_index(p, size)]
                            == if (0 <= p.x - global_coord.x < dx && 0 <= p.y - global_coord.y
                            < self.size) || (p.x - global_coord.x == dx && 0 <= p.y - global_coord.y
                            < dy) {
                            self.cell
                        } else {
                            before[cell_index(p, size)]
                        },
                decreases self.size - dy,
            {
                let target = IVec2 { x: global_coord.x + dx, y: global_coord.y + dy };
                let ghost prev = simulation.write_cells();
                assert(forall|p: IVec2|
                    in_world(p, size) ==> #[trigger] prev[cell_index(p, size)] == if (0 <= p.x
                        - global_coord.x < dx && 0 <= p.y - global_coord.y < self.size) || (p.x
                        - global_coord.x == dx && 0 <= p.y - global_coord.y < dy) {
                        self.cell
                    } else {
                        before[cell_index(p, size)]
                    });
                proof {
                    simulation.lemma_wf();
                    if in_world(target, size) {
                        lemma_index_of_position(target, size);
                    }
                }
                simulation.write_cell(target, self.cell);
                proof {
                    if in_world(target, size) {
                        lemma_index_of_position(target, size);
                    }
                    assert forall|p: IVec2| in_world(p, size) implies #[trigger] simulation.write_cells()[cell_index(p, size)]
                        == if (0 <= p.x - global_coord.x < dx && 0 <= p.y - global_coord.y
                        < self.size) || (p.x - global_coord.x == dx && 0 <= p.y - global_coord.y
                        < dy + 1) {
                        self.cell
                    } else {
                        before[cell_index(p, size)]
                    } by {
                        lemma_index_of_position(p, size);
                        if in_world(target, size) && p != target {
                            lemma_index_of_position(target, size);
                            assert(cell_index(p, size) != cell_index(target, size));
                        }
                    }
                }
                dy = dy + 1;
            }
            dx = dx + 1;
        }
    }
}

} // verus!
