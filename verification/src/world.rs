use vstd::prelude::*;
use crate::cell::{cell_code, cell_of_code, Cell};
use crate::chunk_view::ChunkView;
use crate::double_buffer::DoubleBuffer;
use crate::grid::{
    cell_coord, cell_index, chunk_count, global_index, in_world, lemma_chunk_cell, lemma_chunk_count,
    lemma_index_of_position, map_1d_to_2d, map_2d_to_1d, valid_world_size, world_cells,
};
use crate::rules::{
    has_neighbor_coords, lemma_push_outcomes_small, calc_push_vector, cell_view_ok, move_spec, pick_pull, pull_outcome, push_outcome,
    push_view_ok, pull_view_ok, pushes_small, resolve_movement_at, resolve_transmutation_at,
    trans_outcome, NEIGHBOR_COUNT,
};
use crate::vec2::{vec_at, IVec2};
use crate::world_gen::{EmptyWorldGenerator, WorldGenerator};
use crate::world_view::{WorldView, WorldViewMut};

verus! {

/// Why a simulation could not be made.
#[derive(Clone, Copy, Debug, PartialEq, Eq, Structural)]
pub enum Error {
    InvalidWorldSize,
    CellOutOfBounds,
}

/// A falling-sand world: a double buffer of cells in chunked layout, read
/// in one tick and written for the next, with scratch buffers for the
/// steps of a tick.
pub struct Simulation {
    cells: DoubleBuffer<Vec<Cell>>,
    transmutation_buffer: Vec<Cell>,
    push_buffer: Vec<IVec2>,
    pull_buffer: Vec<[bool; 8]>,
    world_size: IVec2,
}

/// A world as it is saved: the codes of its cells in buffer order and its size.
pub struct SaveData {
    pub cells: Vec<u8>,
    pub world_size_x: i32,
    pub world_size_y: i32,
}

/// The kind of cell that a saved byte stands for.
pub open spec fn decoded(b: u8) -> Cell {
    match cell_of_code(b) {
        Some(c) => c,
        None => Cell::Barrier,
    }
}

/// The codes of `cells`, as saved.
pub open spec fn encoded(cells: Seq<Cell>) -> Seq<u8> {
    cells.map_values(|c: Cell| cell_code(c))
}

/// The kinds of cell that saved `bytes` stand for.
pub open spec fn decoded_cells(bytes: Seq<u8>) -> Seq<Cell> {
    bytes.map_values(|b: u8| decoded(b))
}

/// A world of the given size full of air.
pub open spec fn all_air(size: IVec2) -> Seq<Cell> {
    Seq::new(world_cells(size) as nat, |i: int| Cell::Air)
}

/// `write` is a world that a tick can make of the world `read`: some push
/// vectors, pull flags and moved cells that each cell can produce, whichever
/// way its draws go, lead to it.
pub open spec fn tick_outcome(read: Seq<Cell>, size: IVec2, write: Seq<Cell>) -> bool {
    exists|pushes: Seq<IVec2>, pulls: Seq<[bool; 8]>, moved: Seq<Cell>|
        #[trigger] tick_layers(read, size, pushes, pulls, moved, write)
}

/// The layers of a tick: each cell's push vector, pull flags, moved cell and
/// final cell are outcomes of the rules at its position.
pub open spec fn tick_layers(
    read: Seq<Cell>,
    size: IVec2,
    pushes: Seq<IVec2>,
    pulls: Seq<[bool; 8]>,
    moved: Seq<Cell>,
    write: Seq<Cell>,
) -> bool {
    let n = world_cells(size);
    &&& pushes.len() == n
    &&& pulls.len() == n
    &&& moved.len() == n
    &&& write.len() == n
    &&& forall|i: int| 0 <= i < n ==> push_outcome(read, size, cell_coord(i, size), #[trigger] pushes[i])
    &&& forall|i: int| 0 <= i < n ==> pull_outcome(pushes, size, cell_coord(i, size), #[trigger] pulls[i])
    &&& forall|i: int|
        0 <= i < n ==> #[trigger] moved[i] == move_spec(read, pushes, pulls, size, cell_coord(i, size))
    &&& forall|i: int| 0 <= i < n ==> trans_outcome(moved, size, cell_coord(i, size), #[trigger] write[i])
}

/// The position of cell number `local_index` of chunk number `chunk_index`:
/// inside the world for the world's own chunks, below it for chunks past them.
fn chunk_cell_position(chunk_index: usize, local_index: usize, world_size: IVec2) -> (r: IVec2)
    requires
        valid_world_size(world_size),
        world_size.x >= 32,
        chunk_index * 1024 + 1024 <= i32::MAX,
        local_index < 1024,
    ensures
        r == cell_coord(chunk_index * 1024 + local_index, world_size),
        has_neighbor_coords(r),
        chunk_index < chunk_count(world_size) ==> in_world(r, world_size) && chunk_index * 1024
            + local_index < world_cells(world_size),
        chunk_index >= chunk_count(world_size) ==> !in_world(r, world_size),
{
    proof {
        lemma_chunk_position(chunk_index as int, local_index as int, world_size);
    }
    let side = Simulation::CHUNK_SIZE as i32;
    let chunk_coord = map_1d_to_2d(chunk_index, IVec2 { x: world_size.x / side, y: world_size.y / side });
    let local_coord = map_1d_to_2d(local_index, Simulation::chunk_size_xy());
    IVec2 { x: chunk_coord.x * side + local_coord.x, y: chunk_coord.y * side + local_coord.y }
}

/// Past the border of the world the transmutation step leaves only barriers.
proof fn lemma_outside_becomes_barrier(moved: Seq<Cell>, size: IVec2, g: IVec2, c: Cell)
    requires
        !in_world(g, size),
        trans_outcome(moved, size, g, c),
    ensures
        c == Cell::Barrier,
{
    let condensed = choose|condensed: bool| c == #[trigger] crate::rules::trans_spec(moved, size, g, condensed);
}

/// Where cell number `local` of chunk number `chunk` lies, for chunks of the
/// world and for chunks past it.
proof fn lemma_chunk_position(chunk: int, local: int, size: IVec2)
    requires
        valid_world_size(size),
        size.x >= 32,
        0 <= chunk,
        chunk * 1024 + 1024 <= i32::MAX,
        0 <= local < 1024,
    ensures
        cell_coord(chunk * 1024 + local, size) == (IVec2 {
            x: ((chunk % (size.x / 32)) * 32 + local % 32) as i32,
            y: ((chunk / (size.x / 32)) * 32 + local / 32) as i32,
        }),
        has_neighbor_coords(cell_coord(chunk * 1024 + local, size)),
        chunk < chunk_count(size) ==> in_world(cell_coord(chunk * 1024 + local, size), size) && chunk
            * 1024 + local < world_cells(size),
        chunk >= chunk_count(size) ==> !in_world(cell_coord(chunk * 1024 + local, size), size),
{
    lemma_chunk_count(size);
    let cw = size.x / 32;
    let ch = size.y / 32;
    vstd::arithmetic::div_mod::lemma_fundamental_div_mod(size.x as int, 32);
    vstd::arithmetic::div_mod::lemma_fundamental_div_mod(size.y as int, 32);
    let i = chunk * 1024 + local;
    vstd::arithmetic::div_mod::lemma_fundamental_div_mod_converse(i, 1024, chunk, local);
    vstd::arithmetic::div_mod::lemma_fundamental_div_mod(chunk, cw);
    vstd::arithmetic::div_mod::lemma_fundamental_div_mod(local, 32);
    assert(cw > 0);
    assert(0 <= chunk % cw < cw);
    assert(0 <= chunk / cw);
    assert(chunk / cw <= chunk) by (nonlinear_arith)
        requires chunk == cw * (chunk / cw) + chunk % cw, cw >= 1, 0 <= chunk % cw, 0 <= chunk / cw;
    let x = (chunk % cw) * 32 + local % 32;
    let y = (chunk / cw) * 32 + local / 32;
    assert(x < size.x) by (nonlinear_arith)
        requires x == (chunk % cw) * 32 + local % 32, local % 32 < 32, chunk % cw < cw, size.x == 32 * cw;
    if chunk < chunk_count(size) {
        lemma_chunk_cell(chunk, local, size);
    } else {
        assert(chunk / cw >= ch) by (nonlinear_arith)
            requires chunk >= cw * ch, chunk == cw * (chunk / cw) + chunk % cw, chunk % cw < cw, cw > 0;
        assert(y >= size.y);
    }
}

impl Simulation {
    pub const CHUNK_SIZE: usize = 32;
    pub const CELLS_PER_CHUNK: usize = Self::CHUNK_SIZE * Self::CHUNK_SIZE;

    /// The size of a chunk in cells along each axis.
    pub fn chunk_size_xy() -> (r: IVec2)
        ensures
            r == (IVec2 { x: 32, y: 32 }),
    {
        IVec2 { x: 32, y: 32 }
    }

    /// The size of the world.
    pub closed spec fn world_dims(&self) -> IVec2 {
        self.world_size
    }

    /// The cells that are read, in buffer order.
    pub closed spec fn read_cells(&self) -> Seq<Cell> {
        self.cells.read()@
    }

    /// The cells that are written, in buffer order.
    pub closed spec fn write_cells(&self) -> Seq<Cell> {
        self.cells.write()@
    }

    /// The world has a valid size and every buffer holds one entry per cell.
    pub closed spec fn wf(&self) -> bool {
        let n = world_cells(self.world_size);
        &&& valid_world_size(self.world_size)
        &&& self.cells.read()@.len() >= n
        &&& self.cells.write()@.len() == self.cells.read()@.len()
        &&& self.transmutation_buffer@.len() == n
        &&& self.push_buffer@.len() == n
        &&& self.pull_buffer@.len() == n
    }

    /// A well-formed simulation has a valid size and one read and one written
    /// cell per position.
    pub proof fn lemma_wf(&self)
        requires
            self.wf(),
        ensures
            valid_world_size(self.world_dims()),
            self.read_cells().len() >= world_cells(self.world_dims()),
            self.write_cells().len() == self.read_cells().len(),
    {
    }

    /// The cell that is read at `p`, a barrier outside the world.
    pub open spec fn read_cell_at(&self, p: IVec2) -> Cell {
        crate::rules::cell_at(self.read_cells(), self.world_dims(), p)
    }

    /// The cell that is written at `p`, a barrier outside the world.
    pub open spec fn write_cell_at(&self, p: IVec2) -> Cell {
        crate::rules::cell_at(self.write_cells(), self.world_dims(), p)
    }

    /// A simulation of a world of size `world_size` whose cells `generator`
    /// decides, or `InvalidWorldSize` when a side is not a multiple of the
    /// chunk side. The generated world is what is read; the buffer that is
    /// written holds air. A side that is a negative multiple of the chunk side
    /// is taken too: such a world has no position, its buffers hold air and it
    /// cannot be stepped.
    pub fn new<G: WorldGenerator>(world_size: IVec2, generator: G) -> (r: Result<Simulation, Error>)
        requires
            (world_size.x % 32 == 0 && world_size.y % 32 == 0) ==> 0 <= world_size.x * world_size.y
                <= i32::MAX,
        ensures
            r is Ok <==> (world_size.x % 32 == 0 && world_size.y % 32 == 0),
            r is Err ==> r == Err::<Simulation, Error>(Error::InvalidWorldSize),
            r matches Ok(s) ==> {
                &&& s.wf() <==> (world_size.x >= 0 && world_size.y >= 0)
                &&& s.world_dims() == world_size
                &&& s.write_cells() == all_air(world_size)
                &&& forall|p: IVec2|
                    in_world(p, world_size) ==> call_ensures(
                        G::gen_cell,
                        (&generator, p, world_size),
                        #[trigger] s.read_cell_at(p),
                    )
                &&& !(world_size.x >= 0 && world_size.y >= 0) ==> s.read_cells() == all_air(world_size)
            },
    {
        if world_size.x % (Self::CHUNK_SIZE as i32) != 0 {
            return Err(Error::InvalidWorldSize);
        }
        if world_size.y % (Self::CHUNK_SIZE as i32) != 0 {
            return Err(Error::InvalidWorldSize);
        }
        let num_of_cells: usize = (world_size.x * world_size.y) as usize;
        let cells: Vec<Cell> = vec![Cell::Air; num_of_cells];
        assert(cells@ =~= all_air(world_size));
        let transmutation_buffer: Vec<Cell> = vec![Cell::Air; num_of_cells];
        let push_buffer: Vec<IVec2> = vec![IVec2::zero(); num_of_cells];
        let pull_buffer: Vec<[bool; 8]> = vec![[false; NEIGHBOR_COUNT]; num_of_cells];
        let mut simulation = Simulation {
            cells: DoubleBuffer::new(cells),
            transmutation_buffer,
            world_size,
            push_buffer,
            pull_buffer,
        };
        if world_size.x < 0 || world_size.y < 0 {
            // No position lies inside a world with a negative side.
            simulation.cells.swap();
            return Ok(simulation);
        }
        let mut x: i32 = 0;
        while x < world_size.x
            invariant
                0 <= x <= world_size.x,
                simulation.wf(),
                simulation.world_dims() == world_size,
                simulation.read_cells() == all_air(world_size),
                forall|p: IVec2|
                    in_world(p, world_size) && p.x < x ==> call_ensures(
                        G::gen_cell,
                        (&generator, p, world_size),
                        #[trigger] simulation.write_cell_at(p),
                    ),
            decreases world_size.x - x,
        {
            let mut y: i32 = 0;
            while y < world_size.y
                invariant
                    0 <= x < world_size.x,
                    0 <= y <= world_size.y,
                    simulation.wf(),
                    simulation.world_dims() == world_size,
                    simulation.read_cells() == all_air(world_size),
                    forall|p: IVec2|
                        in_world(p, world_size) && (p.x < x || (p.x == x && p.y < y))
                            ==> call_ensures(
                            G::gen_cell,
                            (&generator, p, world_size),
                            #[trigger] simulation.write_cell_at(p),
                        ),
                decreases world_size.y - y,
            {
                let pos = IVec2 { x, y };
                let cell = generator.gen_cell(pos, world_size);
                let ghost before = simulation;
                simulation.write_cell(pos, cell);
                assert forall|p: IVec2|
                    in_world(p, world_size) && (p.x < x || (p.x == x && p.y < y + 1))
                        implies call_ensures(
                        G::gen_cell,
                        (&generator, p, world_size),
                        #[trigger] simulation.write_cell_at(p),
                    ) by {
                    if p != pos {
                        assert(simulation.write_cell_at(p) == before.write_cell_at(p));
                    }
                }
                y = y + 1;
            }
            x = x + 1;
        }
        let ghost before = simulation;
        simulation.swap_buffers();
        assert forall|p: IVec2| in_world(p, world_size) implies call_ensures(
            G::gen_cell,
            (&generator, p, world_size),
            #[trigger] simulation.read_cell_at(p),
        ) by {
            assert(simulation.read_cell_at(p) == before.write_cell_at(p));
        }
        return Ok(simulation);
    }

    /// The number of chunks along each axis.
    pub fn num_of_chunks_xy(&self) -> (r: IVec2)
        requires
            self.wf(),
        ensures
            r == vec_at(self.world_dims().x / 32, self.world_dims().y / 32),
    {
        let side = Self::CHUNK_SIZE as i32;
        return IVec2 { x: self.world_size.x / side, y: self.world_size.y / side };
    }

    /// The number of chunks.
    pub fn num_of_chunks(&self) -> (r: usize)
        requires
            self.wf(),
        ensures
            r == chunk_count(self.world_dims()),
    {
        proof {
            lemma_chunk_count(self.world_size);
        }
        let num_of_chunks = self.num_of_chunks_xy();
        return (num_of_chunks.x * num_of_chunks.y) as usize;
    }

    /// Makes the buffer that was written the one that is read, and the other way round.
    pub fn swap_buffers(&mut self)
        ensures
            final(self).wf() <==> old(self).wf(),
            final(self).world_dims() == old(self).world_dims(),
            final(self).read_cells() == old(self).write_cells(),
            final(self).write_cells() == old(self).read_cells(),
    {
        self.cells.swap();
    }

    /// The size of the world.
    pub fn size(&self) -> (r: IVec2)
        ensures
            r == self.world_dims(),
    {
        return self.world_size;
    }

    /// Writes `cell` at `global_coord` into the buffer that is written; outside
    /// the world nothing changes.
    pub fn write_cell(&mut self, global_coord: IVec2, cell: Cell)
        requires
            old(self).wf(),
        ensures
            final(self).wf(),
            final(self).world_dims() == old(self).world_dims(),
            final(self).read_cells() == old(self).read_cells(),
            final(self).write_cells() == if in_world(global_coord, old(self).world_dims()) {
                old(self).write_cells().update(cell_index(global_coord, old(self).world_dims()), cell)
            } else {
                old(self).write_cells()
            },
            in_world(global_coord, old(self).world_dims()) ==> final(self).write_cell_at(global_coord)
                == cell,
            forall|q: IVec2|
                q != global_coord ==> #[trigger] final(self).write_cell_at(q) == old(self).write_cell_at(q),
    {
        proof {
            if in_world(global_coord, self.world_size) {
                lemma_index_of_position(global_coord, self.world_size);
                assert forall|q: IVec2| q != global_coord implies
                    crate::rules::cell_at(self.cells.write()@.update(cell_index(global_coord, self.world_size), cell), self.world_size, q)
                    == crate::rules::cell_at(self.cells.write()@, self.world_size, q) by {
                    crate::laws::law_write_then_read(self.cells.write()@, self.world_size, global_coord, q, cell);
                }
            }
        }
        let world_size = self.world_size;
        let (_read_buffer, write_buffer) = self.cells.pick_read_and_write_buffer();
        let mut world_mut = WorldViewMut::new(write_buffer.as_mut_slice(), world_size, Cell::Barrier);
        world_mut.set_cell(global_coord, cell);
    }

    /// Copies the buffer that is read into the buffer that is written, for a
    /// tick in which nothing moves.
    pub fn pass(&mut self)
        requires
            old(self).wf(),
        ensures
            final(self).wf(),
            final(self).world_dims() == old(self).world_dims(),
            final(self).read_cells() == old(self).read_cells(),
            final(self).write_cells() == old(self).read_cells(),
    {
        let (read_buffer, write_buffer) = self.cells.pick_read_and_write_buffer();
        let n = read_buffer.len();
        let mut i: usize = 0;
        while i < n
            invariant
                0 <= i <= n,
                n == read_buffer@.len(),
                write_buffer@.len() == n,
                forall|j: int| 0 <= j < i ==> write_buffer@[j] == read_buffer@[j],
            decreases n - i,
        {
            write_buffer.set(i, read_buffer[i]);
            i = i + 1;
        }
        assert(write_buffer@ =~= read_buffer@);
    }
    /// Advances the world by one tick: reads the buffer that is read and
    /// writes the next state of every cell into the buffer that is written.
    /// Each cell picks a direction to push in, each cell picks one of the
    /// neighbours that push into it to pull from, pushing and pulling cells
    /// exchange their contents, and then water boils next to lava, lava sets
    /// next to water and steam condenses by chance.
    #[verifier::rlimit(50)]
    #[verifier::spinoff_prover]
    pub fn tick(&mut self)
        requires
            old(self).wf(),
            old(self).read_cells().len() <= i32::MAX,
            (old(self).read_cells().len() - world_cells(old(self).world_dims())) % 1024 == 0,
            old(self).read_cells().len() > world_cells(old(self).world_dims()) ==> old(
                self,
            ).world_dims().x > 0,
        ensures
            final(self).wf(),
            final(self).world_dims() == old(self).world_dims(),
            final(self).read_cells() == old(self).read_cells(),
            tick_outcome(
                old(self).read_cells(),
                old(self).world_dims(),
                final(self).write_cells().subrange(0, world_cells(old(self).world_dims())),
            ),
            forall|i: int|
                world_cells(old(self).world_dims()) <= i < final(self).write_cells().len()
                    ==> #[trigger] final(self).write_cells()[i] == Cell::Barrier,
    {
        let world_size = self.size();
        let num_of_chunks = self.num_of_chunks();
        let ghost n = world_cells(world_size);
        let ghost old_read = self.read_cells();
        let (read_buffer, write_buffer) = self.cells.pick_read_and_write_buffer();
        let read_world = WorldView::new(read_buffer.as_slice(), world_size, Cell::Barrier);
        let total_chunks = write_buffer.len() / Self::CELLS_PER_CHUNK;
        let ghost total = write_buffer@.len();
        proof {
            lemma_chunk_count(world_size);
            assert(total_chunks * 1024 == total);
        }

        let mut chunk_index: usize = 0;
        while chunk_index < num_of_chunks
            invariant
                0 <= chunk_index <= num_of_chunks,
                num_of_chunks == chunk_count(world_size),
                valid_world_size(world_size),
                n == world_cells(world_size),
                read_world.cells() == old_read,
                read_world.world_size() == world_size,
                cell_view_ok(&read_world),
                self.push_buffer@.len() == n,
                self.pull_buffer@.len() == n,
                self.transmutation_buffer@.len() == n,
                write_buffer@.len() == total,
                total == old_read.len(),
                n == chunk_count(world_size) * 1024,
                self.world_size == world_size,
                after_borrow(self.cells).read()@ == old_read,
                after_borrow(self.cells).write() == *final(write_buffer),
                forall|j: int|
                    0 <= j < chunk_index * 1024 ==> push_outcome(
                        old_read,
                        world_size,
                        cell_coord(j, world_size),
                        #[trigger] self.push_buffer@[j],
                    ),
            decreases num_of_chunks - chunk_index,
        {
            let ghost before = self.push_buffer@;
            Self::update_push_vectors(chunk_index, &mut self.push_buffer, &read_world);
            assert forall|j: int| 0 <= j < (chunk_index + 1) * 1024 implies push_outcome(
                old_read,
                world_size,
                cell_coord(j, world_size),
                #[trigger] self.push_buffer@[j],
            ) by {
                if j < chunk_index * 1024 {
                    assert(self.push_buffer@[j] == before[j]);
                }
            }
            chunk_index = chunk_index + 1;
        }
        proof {
            lemma_chunk_count(world_size);
            lemma_push_outcomes_small(old_read, world_size, self.push_buffer@);
        }
        let ghost pushes = self.push_buffer@;
        let read_world_push = WorldView::new(self.push_buffer.as_slice(), world_size, IVec2::zero());

        let mut chunk_index: usize = 0;
        while chunk_index < num_of_chunks
            invariant
                0 <= chunk_index <= num_of_chunks,
                num_of_chunks == chunk_count(world_size),
                valid_world_size(world_size),
                n == world_cells(world_size),
                read_world_push.cells() == pushes,
                read_world_push.world_size() == world_size,
                push_view_ok(&read_world_push),
                self.push_buffer@.len() == n,
                self.pull_buffer@.len() == n,
                self.transmutation_buffer@.len() == n,
                write_buffer@.len() == total,
                total == old_read.len(),
                n == chunk_count(world_size) * 1024,
                self.world_size == world_size,
                after_borrow(self.cells).read()@ == old_read,
                after_borrow(self.cells).write() == *final(write_buffer),
                forall|j: int|
                    0 <= j < chunk_index * 1024 ==> pull_outcome(
                        pushes,
                        world_size,
                        cell_coord(j, world_size),
                        #[trigger] self.pull_buffer@[j],
                    ),
            decreases num_of_chunks - chunk_index,
        {
            let ghost before = self.pull_buffer@;
            Self::pick_pulls(chunk_index, &mut self.pull_buffer, &read_world_push);
            assert forall|j: int| 0 <= j < (chunk_index + 1) * 1024 implies pull_outcome(
                pushes,
                world_size,
                cell_coord(j, world_size),
                #[trigger] self.pull_buffer@[j],
            ) by {
                if j < chunk_index * 1024 {
                    assert(self.pull_buffer@[j] == before[j]);
                }
            }
            chunk_index = chunk_index + 1;
        }
        let ghost pulls = self.pull_buffer@;
        let no_pulls = [false; NEIGHBOR_COUNT];
        assert(no_pulls@ =~= Seq::new(8, |j: int| false));
        let read_world_pull = WorldView::new(self.pull_buffer.as_slice(), world_size, no_pulls);

        let mut chunk_index: usize = 0;
        while chunk_index < num_of_chunks
            invariant
                0 <= chunk_index <= num_of_chunks,
                num_of_chunks == chunk_count(world_size),
                valid_world_size(world_size),
                n == world_cells(world_size),
                read_world.cells() == old_read,
                read_world.world_size() == world_size,
                cell_view_ok(&read_world),
                read_world_push.cells() == pushes,
                read_world_push.world_size() == world_size,
                push_view_ok(&read_world_push),
                pushes_small(pushes),
                read_world_pull.cells() == pulls,
                read_world_pull.world_size() == world_size,
                pull_view_ok(&read_world_pull),
                self.push_buffer@.len() == n,
                self.pull_buffer@.len() == n,
                self.transmutation_buffer@.len() == n,
                write_buffer@.len() == total,
                total == old_read.len(),
                n == chunk_count(world_size) * 1024,
                self.world_size == world_size,
                after_borrow(self.cells).read()@ == old_read,
                after_borrow(self.cells).write() == *final(write_buffer),
                forall|j: int|
                    0 <= j < chunk_index * 1024 ==> #[trigger] self.transmutation_buffer@[j]
                        == move_spec(old_read, pushes, pulls, world_size, cell_coord(j, world_size)),
            decreases num_of_chunks - chunk_index,
        {
            let ghost before = self.transmutation_buffer@;
            Self::resolve_movement(
                chunk_index,
                &mut self.transmutation_buffer,
                &read_world,
                &read_world_push,
                &read_world_pull,
            );
            assert forall|j: int| 0 <= j < (chunk_index + 1) * 1024 implies #[trigger] self.transmutation_buffer@[j]
                == move_spec(old_read, pushes, pulls, world_size, cell_coord(j, world_size)) by {
                if j < chunk_index * 1024 {
                    assert(self.transmutation_buffer@[j] == before[j]);
                }
            }
            chunk_index = chunk_index + 1;
        }
        let ghost moved = self.transmutation_buffer@;
        let read_world_transformation = WorldView::new(
            self.transmutation_buffer.as_slice(),
            world_size,
            Cell::Barrier,
        );

        let mut chunk_index: usize = 0;
        while chunk_index < total_chunks
            invariant
                0 <= chunk_index <= total_chunks,
                num_of_chunks == chunk_count(world_size),
                total_chunks * 1024 == total,
                total <= i32::MAX,
                total >= n,
                total_chunks > 0 ==> world_size.x >= 32,
                valid_world_size(world_size),
                n == world_cells(world_size),
                read_world_transformation.cells() == moved,
                read_world_transformation.world_size() == world_size,
                cell_view_ok(&read_world_transformation),
                self.push_buffer@.len() == n,
                self.pull_buffer@.len() == n,
                self.transmutation_buffer@.len() == n,
                write_buffer@.len() == total,
                total == old_read.len(),
                n == chunk_count(world_size) * 1024,
                self.world_size == world_size,
                after_borrow(self.cells).read()@ == old_read,
                after_borrow(self.cells).write() == *final(write_buffer),
                forall|j: int|
                    0 <= j < chunk_index * 1024 ==> trans_outcome(
                        moved,
                        world_size,
                        cell_coord(j, world_size),
                        #[trigger] write_buffer@[j],
                    ),
            decreases total_chunks - chunk_index,
        {
            let ghost before = write_buffer@;
            Self::resolve_transmutation(chunk_index, write_buffer, &read_world_transformation);
            assert forall|j: int| 0 <= j < (chunk_index + 1) * 1024 implies trans_outcome(
                moved,
                world_size,
                cell_coord(j, world_size),
                #[trigger] write_buffer@[j],
            ) by {
                if j < chunk_index * 1024 {
                    assert(write_buffer@[j] == before[j]);
                }
            }
            chunk_index = chunk_index + 1;
        }
        let ghost written = write_buffer@;
        assert forall|i: int| 0 <= i < n implies trans_outcome(
            moved,
            world_size,
            cell_coord(i, world_size),
            #[trigger] written.subrange(0, n as int)[i],
        ) by {
            assert(written.subrange(0, n as int)[i] == written[i]);
        }
        assert(tick_layers(old_read, world_size, pushes, pulls, moved, written.subrange(0, n as int)));
        assert forall|i: int| n <= i < total implies #[trigger] written[i] == Cell::Barrier by {
            let c = i / 1024;
            let l = i % 1024;
            vstd::arithmetic::div_mod::lemma_fundamental_div_mod(i, 1024);
            assert(c * 1024 + 1024 <= total);
            assert(c >= chunk_count(world_size));
            lemma_chunk_position(c, l, world_size);
            assert(c * 1024 + l == i);
            lemma_outside_becomes_barrier(moved, world_size, cell_coord(i, world_size), written[i]);
        }
    }

    /// A view of the cells that are read in chunk number `chunk_index`.
    pub fn get_chunk_by_index<'a>(&'a self, chunk_index: usize) -> (r: ChunkView<'a, Cell>)
        requires
            self.wf(),
            chunk_index * 1024 + 1024 <= self.read_cells().len(),
        ensures
            r.cells() == self.read_cells().subrange(
                chunk_index * 1024,
                chunk_index * 1024 + 1024,
            ),
            r.chunk_index() == chunk_index,
            r.world_size() == self.world_dims(),
    {
        let read_buffer = self.cells.get_read_buffer();
        assert(read_buffer@.len() == read_buffer.len());
        let global_index = Self::CELLS_PER_CHUNK * chunk_index;
        let begin = global_index;
        let end = global_index + Self::CELLS_PER_CHUNK;
        return ChunkView::new(chunk_index, &read_buffer.as_slice()[begin..end], self.size());
    }

    /// A view of the cells that are read in the chunk at `chunk_coord` on the grid of chunks.
    pub fn get_chunk_by_coord<'a>(&'a self, chunk_coord: IVec2) -> (r: ChunkView<'a, Cell>)
        requires
            self.wf(),
            i32::MIN <= chunk_coord.y * (self.world_dims().x / 32) <= i32::MAX,
            i32::MIN <= chunk_coord.y * (self.world_dims().x / 32) + chunk_coord.x <= i32::MAX,
            ((chunk_coord.y * (self.world_dims().x / 32) + chunk_coord.x) as usize) * 1024 + 1024
                <= self.read_cells().len(),
        ensures
            ({
                let i = (chunk_coord.y * (self.world_dims().x / 32) + chunk_coord.x) as usize as int;
                &&& r.cells() == self.read_cells().subrange(i * 1024, i * 1024 + 1024)
                &&& r.chunk_index() == i
                &&& r.world_size() == self.world_dims()
            }),
    {
        let chunk_index = map_2d_to_1d(chunk_coord, self.num_of_chunks_xy());
        return self.get_chunk_by_index(chunk_index);
    }

    /// The save data of the world: the codes of the cells that are read and its size.
    pub fn to_save_data(&self) -> (r: SaveData)
        ensures
            r.cells@ == encoded(self.read_cells()),
            r.world_size_x == self.world_dims().x,
            r.world_size_y == self.world_dims().y,
    {
        let read_buffer = self.cells.get_read_buffer();
        let mut cells: Vec<u8> = Vec::new();
        let mut i: usize = 0;
        while i < read_buffer.len()
            invariant
                0 <= i <= read_buffer@.len(),
                cells@ == read_buffer@.subrange(0, i as int).map_values(|c: Cell| cell_code(c)),
            decreases read_buffer@.len() - i,
        {
            cells.push(read_buffer[i].to_u8());
            i = i + 1;
            assert(cells@ =~= read_buffer@.subrange(0, i as int).map_values(|c: Cell| cell_code(c)));
        }
        assert(read_buffer@.subrange(0, i as int) =~= read_buffer@);
        return SaveData {
            cells,
            world_size_x: self.world_size.x,
            world_size_y: self.world_size.y,
        };
    }

    /// The simulation of a saved world, whose two buffers both hold the saved
    /// cells, or `InvalidWorldSize` when a side is not a multiple of the chunk side.
    pub fn from_save_data(save_data: SaveData) -> (r: Result<Simulation, Error>)
        requires
            (save_data.world_size_x % 32 == 0 && save_data.world_size_y % 32 == 0) ==> {
                &&& 0 <= save_data.world_size_x * save_data.world_size_y <= i32::MAX
                &&& forall|i: int|
                    0 <= i < save_data.cells@.len() ==> (#[trigger] cell_of_code(save_data.cells@[i])) is Some
            },
        ensures
            r is Ok <==> (save_data.world_size_x % 32 == 0 && save_data.world_size_y % 32 == 0),
            r is Err ==> r == Err::<Simulation, Error>(Error::InvalidWorldSize),
            r matches Ok(s) ==> {
                &&& s.wf() <==> (save_data.world_size_x >= 0 && save_data.world_size_y >= 0
                    && save_data.cells@.len() >= save_data.world_size_x * save_data.world_size_y)
                &&& s.world_dims() == vec_at(save_data.world_size_x as int, save_data.world_size_y as int)
                &&& s.read_cells() == decoded_cells(save_data.cells@)
                &&& s.write_cells() == decoded_cells(save_data.cells@)
            },
    {
        let world_size = IVec2 { x: save_data.world_size_x, y: save_data.world_size_y };
        let mut simulation = match Self::new(world_size, EmptyWorldGenerator::new()) {
            Ok(s) => s,
            Err(e) => {
                return Err(e);
            },
        };
        let mut cells: Vec<Cell> = Vec::new();
        let mut i: usize = 0;
        while i < save_data.cells.len()
            invariant
                0 <= i <= save_data.cells@.len(),
                forall|k: int|
                    0 <= k < save_data.cells@.len() ==> (#[trigger] cell_of_code(save_data.cells@[k])) is Some,
                cells@ == save_data.cells@.subrange(0, i as int).map_values(|b: u8| decoded(b)),
            decreases save_data.cells@.len() - i,
        {
            let b = save_data.cells[i];
            assert(cell_of_code(save_data.cells@[i as int]) is Some);
            let cell = Cell::try_from(b).unwrap();
            cells.push(cell);
            i = i + 1;
            assert(cells@ =~= save_data.cells@.subrange(0, i as int).map_values(|b: u8| decoded(b)));
        }
        assert(save_data.cells@.subrange(0, i as int) =~= save_data.cells@);
        let ghost loaded = cells@;
        simulation.cells = DoubleBuffer::new(cells);
        assert(simulation.cells.write()@ =~= loaded);
        return Ok(simulation);
    }

    /// Computes the push vector of every cell of chunk `chunk_index` into `write_chunk`.
    fn update_push_vectors(chunk_index: usize, write_chunk: &mut Vec<IVec2>, read_world: &WorldView<Cell>)
        requires
            cell_view_ok(&read_world),
            chunk_index < chunk_count(read_world.world_size()),
            old(write_chunk)@.len() == world_cells(read_world.world_size()),
        ensures
            final(write_chunk)@.len() == old(write_chunk)@.len(),
            forall|j: int|
                0 <= j < old(write_chunk)@.len() && !(chunk_index * 1024 <= j < chunk_index * 1024
                    + 1024) ==> final(write_chunk)@[j] == old(write_chunk)@[j],
            forall|j: int|
                chunk_index * 1024 <= j < chunk_index * 1024 + 1024 ==> push_outcome(
                    read_world.cells(),
                    read_world.world_size(),
                    cell_coord(j, read_world.world_size()),
                    #[trigger] final(write_chunk)@[j],
                ),
    {
        let world_size = read_world.size();
        let ghost old_chunk = write_chunk@;
        proof {
            lemma_chunk_count(world_size);
            lemma_chunk_cell(chunk_index as int, 1023, world_size);
        }
        let base = chunk_index * Self::CELLS_PER_CHUNK;
        let mut local_index: usize = 0;
        while local_index < Self::CELLS_PER_CHUNK
            invariant
                0 <= local_index <= 1024,
                cell_view_ok(&read_world),
                world_size == read_world.world_size(),
                chunk_index < chunk_count(world_size),
                world_size.x >= 32,
                chunk_index * 1024 + 1024 <= world_cells(world_size),
                base == chunk_index * 1024,
                write_chunk@.len() == old_chunk.len(),
                old_chunk.len() == world_cells(world_size),
                forall|j: int|
                    0 <= j < old_chunk.len() && !(base <= j < base + local_index) ==> write_chunk@[j]
                        == old_chunk[j],
                forall|j: int|
                    base <= j < base + local_index ==> push_outcome(
                        read_world.cells(),
                        world_size,
                        cell_coord(j, world_size),
                        #[trigger] write_chunk@[j],
                    ),
            decreases 1024 - local_index,
        {
            let global_coord = chunk_cell_position(chunk_index, local_index, world_size);
            let push = calc_push_vector(read_world, global_coord);
            write_chunk.set(base + local_index, push);
            local_index = local_index + 1;
        }
    }

    /// Computes the pull flags of every cell of chunk `chunk_index` into `write_chunk_pull`.
    fn pick_pulls(chunk_index: usize, write_chunk_pull: &mut Vec<[bool; 8]>, read_world_push: &WorldView<IVec2>)
        requires
            push_view_ok(&read_world_push),
            chunk_index < chunk_count(read_world_push.world_size()),
            old(write_chunk_pull)@.len() == world_cells(read_world_push.world_size()),
        ensures
            final(write_chunk_pull)@.len() == old(write_chunk_pull)@.len(),
            forall|j: int|
                0 <= j < old(write_chunk_pull)@.len() && !(chunk_index * 1024 <= j < chunk_index
                    * 1024 + 1024) ==> final(write_chunk_pull)@[j] == old(write_chunk_pull)@[j],
            forall|j: int|
                chunk_index * 1024 <= j < chunk_index * 1024 + 1024 ==> pull_outcome(
                    read_world_push.cells(),
                    read_world_push.world_size(),
                    cell_coord(j, read_world_push.world_size()),
                    #[trigger] final(write_chunk_pull)@[j],
                ),
    {
        let world_size = read_world_push.size();
        let ghost old_chunk = write_chunk_pull@;
        proof {
            lemma_chunk_count(world_size);
            lemma_chunk_cell(chunk_index as int, 1023, world_size);
        }
        let base = chunk_index * Self::CELLS_PER_CHUNK;
        let mut local_index: usize = 0;
        while local_index < Self::CELLS_PER_CHUNK
            invariant
                0 <= local_index <= 1024,
                push_view_ok(&read_world_push),
                world_size == read_world_push.world_size(),
                chunk_index < chunk_count(world_size),
                world_size.x >= 32,
                chunk_index * 1024 + 1024 <= world_cells(world_size),
                base == chunk_index * 1024,
                write_chunk_pull@.len() == old_chunk.len(),
                old_chunk.len() == world_cells(world_size),
                forall|j: int|
                    0 <= j < old_chunk.len() && !(base <= j < base + local_index)
                        ==> write_chunk_pull@[j] == old_chunk[j],
                forall|j: int|
                    base <= j < base + local_index ==> pull_outcome(
                        read_world_push.cells(),
                        world_size,
                        cell_coord(j, world_size),
                        #[trigger] write_chunk_pull@[j],
                    ),
            decreases 1024 - local_index,
        {
            let global_coord = chunk_cell_position(chunk_index, local_index, world_size);
            let new_pulls = pick_pull(read_world_push, global_coord);
            write_chunk_pull.set(base + local_index, new_pulls);
            local_index = local_index + 1;
        }
    }

    /// Moves the cells of chunk `chunk_index` into `write_chunk`.
    fn resolve_movement(
        chunk_index: usize,
        write_chunk: &mut Vec<Cell>,
        read_world: &WorldView<Cell>,
        read_world_push: &WorldView<IVec2>,
        read_world_pull: &WorldView<[bool; 8]>,
    )
        requires
            cell_view_ok(&read_world),
            push_view_ok(&read_world_push),
            pull_view_ok(&read_world_pull),
            read_world_push.world_size() == read_world.world_size(),
            read_world_pull.world_size() == read_world.world_size(),
            pushes_small(read_world_push.cells()),
            chunk_index < chunk_count(read_world.world_size()),
            old(write_chunk)@.len() == world_cells(read_world.world_size()),
        ensures
            final(write_chunk)@.len() == old(write_chunk)@.len(),
            forall|j: int|
                0 <= j < old(write_chunk)@.len() && !(chunk_index * 1024 <= j < chunk_index * 1024
                    + 1024) ==> final(write_chunk)@[j] == old(write_chunk)@[j],
            forall|j: int|
                chunk_index * 1024 <= j < chunk_index * 1024 + 1024 ==> #[trigger] final(write_chunk)@[j]
                    == move_spec(
                    read_world.cells(),
                    read_world_push.cells(),
                    read_world_pull.cells(),
                    read_world.world_size(),
                    cell_coord(j, read_world.world_size()),
                ),
    {
        let world_size = read_world.size();
        let ghost old_chunk = write_chunk@;
        proof {
            lemma_chunk_count(world_size);
            lemma_chunk_cell(chunk_index as int, 1023, world_size);
        }
        let base = chunk_index * Self::CELLS_PER_CHUNK;
        let mut local_index: usize = 0;
        while local_index < Self::CELLS_PER_CHUNK
            invariant
                0 <= local_index <= 1024,
                cell_view_ok(&read_world),
                push_view_ok(&read_world_push),
                pull_view_ok(&read_world_pull),
                read_world_push.world_size() == world_size,
                read_world_pull.world_size() == world_size,
                pushes_small(read_world_push.cells()),
                world_size == read_world.world_size(),
                chunk_index < chunk_count(world_size),
                world_size.x >= 32,
                chunk_index * 1024 + 1024 <= world_cells(world_size),
                base == chunk_index * 1024,
                write_chunk@.len() == old_chunk.len(),
                old_chunk.len() == world_cells(world_size),
                forall|j: int|
                    0 <= j < old_chunk.len() && !(base <= j < base + local_index) ==> write_chunk@[j]
                        == old_chunk[j],
                forall|j: int|
                    base <= j < base + local_index ==> #[trigger] write_chunk@[j] == move_spec(
                        read_world.cells(),
                        read_world_push.cells(),
                        read_world_pull.cells(),
                        world_size,
                        cell_coord(j, world_size),
                    ),
            decreases 1024 - local_index,
        {
            let global_coord = chunk_cell_position(chunk_index, local_index, world_size);
            let cell = resolve_movement_at(read_world, read_world_push, read_world_pull, global_coord);
            write_chunk.set(base + local_index, cell);
            local_index = local_index + 1;
        }
    }

    /// Applies the transmutation rules to the cells of chunk `chunk_index`,
    /// into `write_chunk`. Chunks past the world's own see only its border.
    fn resolve_transmutation(chunk_index: usize, write_chunk: &mut Vec<Cell>, read_world: &WorldView<Cell>)
        requires
            cell_view_ok(&read_world),
            read_world.world_size().x >= 32,
            chunk_index * 1024 + 1024 <= old(write_chunk)@.len(),
            old(write_chunk)@.len() <= i32::MAX,
        ensures
            final(write_chunk)@.len() == old(write_chunk)@.len(),
            forall|j: int|
                0 <= j < old(write_chunk)@.len() && !(chunk_index * 1024 <= j < chunk_index * 1024
                    + 1024) ==> final(write_chunk)@[j] == old(write_chunk)@[j],
            forall|j: int|
                chunk_index * 1024 <= j < chunk_index * 1024 + 1024 ==> trans_outcome(
                    read_world.cells(),
                    read_world.world_size(),
                    cell_coord(j, read_world.world_size()),
                    #[trigger] final(write_chunk)@[j],
                ),
    {
        let world_size = read_world.size();
        let ghost old_chunk = write_chunk@;
        let base = chunk_index * Self::CELLS_PER_CHUNK;
        let mut local_index: usize = 0;
        while local_index < Self::CELLS_PER_CHUNK
            invariant
                0 <= local_index <= 1024,
                cell_view_ok(&read_world),
                world_size == read_world.world_size(),
                world_size.x >= 32,
                chunk_index * 1024 + 1024 <= old_chunk.len(),
                old_chunk.len() <= i32::MAX,
                base == chunk_index * 1024,
                write_chunk@.len() == old_chunk.len(),
                forall|j: int|
                    0 <= j < old_chunk.len() && !(base <= j < base + local_index) ==> write_chunk@[j]
                        == old_chunk[j],
                forall|j: int|
                    base <= j < base + local_index ==> trans_outcome(
                        read_world.cells(),
                        world_size,
                        cell_coord(j, world_size),
                        #[trigger] write_chunk@[j],
                    ),
            decreases 1024 - local_index,
        {
            let global_coord = chunk_cell_position(chunk_index, local_index, world_size);
            let cell = resolve_transmutation_at(read_world, global_coord);
            write_chunk.set(base + local_index, cell);
            local_index = local_index + 1;
        }
    }
}

} // verus!
