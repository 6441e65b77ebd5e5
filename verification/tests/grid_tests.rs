use simulation::grid::{global_coords_to_index, map_1d_to_2d, map_2d_to_1d};
use simulation::{ivec2, Simulation};

#[test]
fn map_2d_to_1d_is_row_major() {
    assert_eq!(map_2d_to_1d(ivec2(3, 2), ivec2(10, 5)), 23);
    assert_eq!(map_2d_to_1d(ivec2(0, 0), ivec2(10, 5)), 0);
}

#[test]
fn map_1d_to_2d_inverts() {
    assert_eq!(map_1d_to_2d(23, ivec2(10, 5)), ivec2(3, 2));
    for i in 0..50usize {
        let c = map_1d_to_2d(i, ivec2(10, 5));
        assert_eq!(map_2d_to_1d(c, ivec2(10, 5)), i);
    }
}

#[test]
fn negative_index_wraps_like_a_cast() {
    assert_eq!(map_2d_to_1d(ivec2(-1, 0), ivec2(10, 5)), usize::MAX);
}

#[test]
fn global_index_is_chunked() {
    let size = ivec2(64, 64);
    assert_eq!(global_coords_to_index(ivec2(0, 0), size), 0);
    assert_eq!(global_coords_to_index(ivec2(31, 0), size), 31);
    assert_eq!(global_coords_to_index(ivec2(0, 1), size), 32);
    assert_eq!(global_coords_to_index(ivec2(32, 0), size), 1024);
    assert_eq!(global_coords_to_index(ivec2(33, 1), size), 1024 + 33);
    assert_eq!(global_coords_to_index(ivec2(0, 32), size), 2048);
    assert_eq!(global_coords_to_index(ivec2(63, 63), size), 4095);
}

#[test]
fn global_index_is_a_bijection() {
    let size = ivec2(96, 64);
    let mut seen = vec![false; 96 * 64];
    for x in 0..96 {
        for y in 0..64 {
            let i = global_coords_to_index(ivec2(x, y), size);
            assert!(i < 96 * 64);
            assert!(!seen[i]);
            seen[i] = true;
        }
    }
    assert!(seen.iter().all(|b| *b));
}

#[test]
fn chunk_constants() {
    assert_eq!(Simulation::CHUNK_SIZE, 32);
    assert_eq!(Simulation::CELLS_PER_CHUNK, 1024);
    assert_eq!(Simulation::chunk_size_xy(), ivec2(32, 32));
}
