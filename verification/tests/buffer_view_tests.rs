use simulation::double_buffer::DoubleBuffer;
use simulation::{ivec2, ChunkView, ChunkViewMut, WorldView, WorldViewMut};

#[test]
fn double_buffer_starts_with_a_copy() {
    let mut d = DoubleBuffer::new(vec![1u8, 2, 3]);
    assert_eq!(d.get_read_buffer(), &vec![1u8, 2, 3]);
    let (r, w) = d.pick_read_and_write_buffer();
    assert_eq!(r, &vec![1u8, 2, 3]);
    assert_eq!(w, &vec![1u8, 2, 3]);
}

#[test]
fn double_buffer_swap_exchanges_roles() {
    let mut d = DoubleBuffer::new(vec![0u8; 2]);
    {
        let (_r, w) = d.pick_read_and_write_buffer();
        w[0] = 9;
    }
    assert_eq!(d.get_read_buffer(), &vec![0u8, 0]);
    d.swap();
    assert_eq!(d.get_read_buffer(), &vec![9u8, 0]);
    {
        let (r, w) = d.pick_read_and_write_buffer();
        assert_eq!(r, &vec![9u8, 0]);
        assert_eq!(w, &vec![0u8, 0]);
    }
    d.swap();
    assert_eq!(d.get_read_buffer(), &vec![0u8, 0]);
}

#[test]
fn world_view_reads_border_outside() {
    let cells: Vec<u32> = (0..1024).collect();
    let view = WorldView::new(&cells, ivec2(32, 32), 7777u32);
    assert_eq!(view.get_cell(ivec2(3, 2)), 67);
    assert_eq!(view.get_cell(ivec2(-1, 0)), 7777);
    assert_eq!(view.get_cell(ivec2(0, 32)), 7777);
    assert_eq!(view.size(), ivec2(32, 32));
}

#[test]
fn world_view_mut_writes_inside_only() {
    let mut cells = vec![0u32; 2048];
    {
        let mut view = WorldViewMut::new(&mut cells, ivec2(64, 32), 5u32);
        view.set_cell(ivec2(33, 1), 42);
        view.set_cell(ivec2(64, 0), 43);
        view.set_cell(ivec2(-1, -1), 44);
        assert_eq!(view.get_cell(ivec2(33, 1)), 42);
        assert_eq!(view.get_cell(ivec2(64, 0)), 5);
        assert_eq!(view.size(), ivec2(64, 32));
    }
    assert_eq!(cells[1024 + 33], 42);
    assert_eq!(cells.iter().filter(|c| **c != 0).count(), 1);
}

#[test]
fn chunk_views_use_local_coordinates() {
    let mut cells: Vec<u32> = (0..1024).collect();
    {
        let view = ChunkView::new(3, &cells, ivec2(64, 64));
        assert_eq!(view.get_cell(ivec2(1, 2)), 65);
        assert_eq!(view.get_chunk_index(), 3);
        assert_eq!(view.get_chunk_coord(), ivec2(1, 1));
        assert_eq!(view.get_cells().len(), 1024);
    }
    let mut view = ChunkViewMut::new(2, &mut cells, ivec2(64, 64));
    view.set_cell(5, ivec2(31, 31));
    assert_eq!(view.get_cell(ivec2(31, 31)), 5);
    assert_eq!(view.get_chunk_index(), 2);
    assert_eq!(view.get_chunk_coord(), ivec2(0, 1));
}
