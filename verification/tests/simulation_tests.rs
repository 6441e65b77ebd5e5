use simulation::tool::Dropper;
use simulation::{
    ivec2, Cell, EmptyWorldGenerator, Error, IVec2, RandomWorldGenerator, SaveData, Simulation,
    WorldGenerator,
};

/// The cell that is read at `p`, through the chunk views.
fn read_at(sim: &Simulation, p: IVec2) -> Cell {
    let chunk = sim.get_chunk_by_coord(ivec2(p.x / 32, p.y / 32));
    chunk.get_cell(ivec2(p.x % 32, p.y % 32))
}

struct Filled(Cell);

impl WorldGenerator for Filled {
    fn gen_cell(&self, _position: IVec2, _size: IVec2) -> Cell {
        self.0
    }
}

/// A world made from a picture, the top row first; everything else is `fill`.
struct Picture {
    rows: Vec<Vec<Cell>>,
    fill: Cell,
}

impl WorldGenerator for Picture {
    fn gen_cell(&self, position: IVec2, _size: IVec2) -> Cell {
        let (x, y) = (position.x as usize, position.y as usize);
        self.rows.get(y).and_then(|r| r.get(x)).copied().unwrap_or(self.fill)
    }
}

fn world_with(cells: &[(i32, i32, Cell)], fill: Cell) -> Simulation {
    let mut sim = Simulation::new(ivec2(32, 32), Filled(fill)).ok().unwrap();
    sim.pass();
    for (x, y, c) in cells {
        sim.write_cell(ivec2(*x, *y), *c);
    }
    sim.swap_buffers();
    sim
}

#[test]
fn new_refuses_sizes_that_are_not_chunk_multiples() {
    assert!(matches!(
        Simulation::new(ivec2(33, 32), EmptyWorldGenerator::new()),
        Err(Error::InvalidWorldSize)
    ));
    assert!(matches!(
        Simulation::new(ivec2(32, 1), EmptyWorldGenerator::new()),
        Err(Error::InvalidWorldSize)
    ));
}

#[test]
fn new_accepts_an_empty_world() {
    let sim = Simulation::new(ivec2(0, 0), EmptyWorldGenerator::new()).ok().unwrap();
    assert_eq!(sim.size(), ivec2(0, 0));
    assert_eq!(sim.num_of_chunks(), 0);
}

#[test]
fn new_reads_the_generated_world() {
    let sim = Simulation::new(ivec2(64, 32), Filled(Cell::Sand)).ok().unwrap();
    assert_eq!(sim.size(), ivec2(64, 32));
    assert_eq!(sim.num_of_chunks_xy(), ivec2(2, 1));
    assert_eq!(sim.num_of_chunks(), 2);
    for i in 0..2 {
        let chunk = sim.get_chunk_by_index(i);
        assert!(chunk.get_cells().iter().all(|c| *c == Cell::Sand));
        assert_eq!(chunk.get_chunk_index(), i);
    }
}

#[test]
fn generated_world_is_placed_by_position() {
    let picture = Picture {
        rows: vec![vec![Cell::Water, Cell::Lava], vec![Cell::Stone]],
        fill: Cell::Air,
    };
    let sim = Simulation::new(ivec2(32, 64), picture).ok().unwrap();
    assert_eq!(read_at(&sim, ivec2(0, 0)), Cell::Water);
    assert_eq!(read_at(&sim, ivec2(1, 0)), Cell::Lava);
    assert_eq!(read_at(&sim, ivec2(0, 1)), Cell::Stone);
    assert_eq!(read_at(&sim, ivec2(1, 1)), Cell::Air);
}

#[test]
fn written_cell_is_read_after_a_swap() {
    let mut sim = Simulation::new(ivec2(64, 64), EmptyWorldGenerator::new()).ok().unwrap();
    sim.write_cell(ivec2(40, 33), Cell::Lava);
    sim.write_cell(ivec2(-5, 3), Cell::Lava);
    sim.write_cell(ivec2(64, 3), Cell::Lava);
    assert_eq!(read_at(&sim, ivec2(40, 33)), Cell::Air);
    sim.swap_buffers();
    assert_eq!(read_at(&sim, ivec2(40, 33)), Cell::Lava);
    let lava: usize = (0..4)
        .map(|i| sim.get_chunk_by_index(i).get_cells().iter().filter(|c| **c == Cell::Lava).count())
        .sum();
    assert_eq!(lava, 1);
}

#[test]
fn pass_copies_the_read_buffer() {
    let mut sim = world_with(&[(3, 3, Cell::Sand)], Cell::Air);
    sim.pass();
    sim.swap_buffers();
    assert_eq!(read_at(&sim, ivec2(3, 3)), Cell::Sand);
    assert_eq!(read_at(&sim, ivec2(3, 4)), Cell::Air);
}

#[test]
fn sand_falls_through_air() {
    let mut sim = world_with(&[(5, 5, Cell::Sand)], Cell::Air);
    sim.tick();
    assert_eq!(read_at(&sim, ivec2(5, 5)), Cell::Sand);
    sim.swap_buffers();
    assert_eq!(read_at(&sim, ivec2(5, 5)), Cell::Air);
    assert_eq!(read_at(&sim, ivec2(5, 6)), Cell::Sand);
}

#[test]
fn sand_rests_on_the_floor() {
    let mut sim = world_with(&[(5, 31, Cell::Sand)], Cell::Air);
    sim.tick();
    sim.swap_buffers();
    assert_eq!(read_at(&sim, ivec2(5, 31)), Cell::Sand);
}

#[test]
fn stone_never_moves() {
    let mut sim = world_with(&[(5, 5, Cell::Stone), (6, 4, Cell::Sand), (7, 9, Cell::Water)], Cell::Air);
    for _ in 0..20 {
        sim.tick();
        sim.swap_buffers();
        assert_eq!(read_at(&sim, ivec2(5, 5)), Cell::Stone);
    }
}

#[test]
fn lava_next_to_water_sets_and_water_boils() {
    let mut cells = Vec::new();
    for x in 0..32 {
        cells.push((x, 5, if x % 2 == 0 { Cell::Water } else { Cell::Lava }));
    }
    let mut sim = world_with(&cells, Cell::Stone);
    sim.tick();
    sim.swap_buffers();
    let mut steam = 0;
    for x in 0..32 {
        let c = read_at(&sim, ivec2(x, 5));
        if x % 2 == 0 {
            assert!(c == Cell::Steam || c == Cell::Water);
            if c == Cell::Steam {
                steam += 1;
            }
        } else {
            assert_eq!(c, Cell::Stone);
        }
    }
    assert!(steam > 0);
}

#[test]
fn save_data_round_trip() {
    let sim = world_with(&[(1, 2, Cell::Lava), (30, 31, Cell::Steam)], Cell::Sand);
    let save = sim.to_save_data();
    assert_eq!(save.world_size_x, 32);
    assert_eq!(save.world_size_y, 32);
    assert_eq!(save.cells.len(), 1024);
    assert_eq!(save.cells[2 * 32 + 1], 5);
    assert_eq!(save.cells[0], 2);
    let loaded = Simulation::from_save_data(save).ok().unwrap();
    assert_eq!(loaded.size(), ivec2(32, 32));
    assert_eq!(read_at(&loaded, ivec2(1, 2)), Cell::Lava);
    assert_eq!(read_at(&loaded, ivec2(30, 31)), Cell::Steam);
    assert_eq!(read_at(&loaded, ivec2(0, 0)), Cell::Sand);
}

#[test]
fn save_data_with_a_bad_size_is_refused() {
    let save = SaveData { cells: vec![], world_size_x: 10, world_size_y: 32 };
    assert!(matches!(Simulation::from_save_data(save), Err(Error::InvalidWorldSize)));
}

#[test]
fn dropper_fills_a_square() {
    let mut sim = Simulation::new(ivec2(32, 32), EmptyWorldGenerator::new()).ok().unwrap();
    let mut dropper = Dropper::new(Cell::Sand, 3);
    assert_eq!(dropper.get_size(), 3);
    dropper.apply(&mut sim, ivec2(30, 1));
    dropper.set_material(Cell::Water);
    dropper.set_size(1);
    dropper.apply(&mut sim, ivec2(0, 0));
    sim.swap_buffers();
    let sand: usize = sim.get_chunk_by_index(0).get_cells().iter().filter(|c| **c == Cell::Sand).count();
    assert_eq!(sand, 6);
    assert_eq!(read_at(&sim, ivec2(31, 3)), Cell::Sand);
    assert_eq!(read_at(&sim, ivec2(29, 3)), Cell::Air);
    assert_eq!(read_at(&sim, ivec2(0, 0)), Cell::Water);
}

#[test]
fn random_generator_never_makes_barriers() {
    let generator = RandomWorldGenerator::new();
    let cells: Vec<Cell> = (0..200).map(|_| generator.gen_cell(ivec2(0, 0), ivec2(32, 32))).collect();
    assert!(cells.iter().all(|c| *c != Cell::Barrier));
    assert!(cells.iter().any(|c| *c != Cell::Air));
    let kinds = [Cell::Air, Cell::Sand, Cell::Stone, Cell::Water, Cell::Lava, Cell::Steam];
    for (roll, kind) in kinds.iter().enumerate() {
        assert_eq!(RandomWorldGenerator::cell_for_roll(roll as u32), *kind);
    }
    assert_eq!(RandomWorldGenerator::cell_for_roll(6), Cell::Air);
}

#[test]
fn empty_generator_makes_air() {
    let generator = EmptyWorldGenerator::new();
    assert_eq!(generator.gen_cell(ivec2(3, 4), ivec2(32, 32)), Cell::Air);
}

#[test]
fn save_data_of_any_length_round_trips() {
    for len in [0usize, 5, 1024, 2048 + 7] {
        let cells: Vec<u8> = (0..len).map(|i| (i % 7) as u8).collect();
        let save = SaveData { cells: cells.clone(), world_size_x: 32, world_size_y: 32 };
        let loaded = Simulation::from_save_data(save).ok().unwrap();
        assert_eq!(loaded.to_save_data().cells, cells);
        assert_eq!(loaded.size(), ivec2(32, 32));
    }
}

#[test]
fn a_longer_buffer_steps_and_its_extra_chunks_become_barriers() {
    let mut cells = vec![1u8; 2048];
    cells[5 * 32 + 5] = 2;
    let save = SaveData { cells, world_size_x: 32, world_size_y: 32 };
    let mut sim = Simulation::from_save_data(save).ok().unwrap();
    sim.tick();
    sim.swap_buffers();
    assert_eq!(read_at(&sim, ivec2(5, 6)), Cell::Sand);
    let saved = sim.to_save_data();
    assert_eq!(saved.cells.len(), 2048);
    assert!(saved.cells[1024..].iter().all(|b| *b == 0));
}

#[test]
fn generated_cells_are_read_everywhere() {
    let sim = Simulation::new(ivec2(64, 64), EmptyWorldGenerator::new()).ok().unwrap();
    let saved = sim.to_save_data();
    assert!(saved.cells.iter().all(|b| *b == 1));
}

#[test]
fn negative_sides_that_are_no_chunk_multiples_are_refused() {
    assert!(matches!(
        Simulation::new(ivec2(-1, 32), EmptyWorldGenerator::new()),
        Err(Error::InvalidWorldSize)
    ));
    assert!(matches!(
        Simulation::new(ivec2(32, -33), EmptyWorldGenerator::new()),
        Err(Error::InvalidWorldSize)
    ));
    let save = SaveData { cells: vec![], world_size_x: -1, world_size_y: 32 };
    assert!(matches!(Simulation::from_save_data(save), Err(Error::InvalidWorldSize)));
}

#[test]
fn negative_chunk_multiples_give_a_world_without_positions() {
    let sim = Simulation::new(ivec2(-32, -32), Filled(Cell::Sand)).ok().unwrap();
    assert_eq!(sim.size(), ivec2(-32, -32));
    let saved = sim.to_save_data();
    assert_eq!(saved.cells.len(), 1024);
    assert!(saved.cells.iter().all(|b| *b == 1));
    let sim = Simulation::new(ivec2(0, -32), Filled(Cell::Sand)).ok().unwrap();
    assert_eq!(sim.to_save_data().cells.len(), 0);
}

#[test]
fn dropper_keeps_the_entries_past_the_world() {
    let mut cells = vec![1u8; 2048];
    cells[1500] = 6;
    let save = SaveData { cells, world_size_x: 32, world_size_y: 32 };
    let mut sim = Simulation::from_save_data(save).ok().unwrap();
    let dropper = Dropper::new(Cell::Water, 40);
    dropper.apply(&mut sim, ivec2(0, 0));
    sim.swap_buffers();
    let saved = sim.to_save_data();
    assert_eq!(saved.cells.len(), 2048);
    assert!(saved.cells[..1024].iter().all(|b| *b == 4));
    assert!(saved.cells[1024..].iter().enumerate().all(|(i, b)| *b == if i == 476 { 6 } else { 1 }));
}

#[test]
fn chunks_past_the_world_can_be_viewed_in_a_longer_buffer() {
    let mut cells = vec![1u8; 2048];
    cells[1024 + 3] = 2;
    let save = SaveData { cells, world_size_x: 32, world_size_y: 32 };
    let sim = Simulation::from_save_data(save).ok().unwrap();
    let tail = sim.get_chunk_by_index(1);
    assert_eq!(tail.get_cells().len(), 1024);
    assert_eq!(tail.get_cell(ivec2(3, 0)), Cell::Sand);
    assert_eq!(tail.get_cell(ivec2(4, 0)), Cell::Air);
}
