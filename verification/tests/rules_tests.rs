use simulation::rules::{
    calc_push_vector, pick_pull, pull_candidates, pull_field, push_vector, resolve_movement_at,
    resolve_transmutation_at, transmutation,
};
use simulation::{ivec2, Cell, IVec2, WorldView};

fn world(cells: &[(i32, i32, Cell)], fill: Cell) -> Vec<Cell> {
    let mut v = vec![fill; 1024];
    for (x, y, c) in cells {
        v[(*y * 32 + *x) as usize] = *c;
    }
    v
}

#[test]
fn sand_pushes_down_into_air() {
    let cells = world(&[(5, 5, Cell::Sand)], Cell::Air);
    let view = WorldView::new(&cells, ivec2(32, 32), Cell::Barrier);
    for flip in [false, true] {
        for slow in [false, true] {
            assert_eq!(push_vector(&view, ivec2(5, 5), flip, slow), ivec2(0, 1));
        }
    }
    assert_eq!(calc_push_vector(&view, ivec2(5, 5)), ivec2(0, 1));
}

#[test]
fn sand_piles_to_the_first_side() {
    let cells = world(&[(5, 5, Cell::Sand), (5, 6, Cell::Stone)], Cell::Air);
    let view = WorldView::new(&cells, ivec2(32, 32), Cell::Barrier);
    assert_eq!(push_vector(&view, ivec2(5, 5), true, true), ivec2(-1, 1));
    assert_eq!(push_vector(&view, ivec2(5, 5), false, true), ivec2(1, 1));
    assert_eq!(push_vector(&view, ivec2(5, 5), false, false), ivec2(0, 0));
}

#[test]
fn water_always_spreads_when_it_cannot_fall() {
    // Water is not viscous, so the draw that could hold it back always lets it go.
    let mut cells = world(&[(5, 5, Cell::Water)], Cell::Air);
    for x in 0..32 {
        cells[(6 * 32 + x) as usize] = Cell::Stone;
    }
    let view = WorldView::new(&cells, ivec2(32, 32), Cell::Barrier);
    for _ in 0..50 {
        let push = calc_push_vector(&view, ivec2(5, 5));
        assert!(push == ivec2(-1, 0) || push == ivec2(1, 0));
    }
}

#[test]
fn stone_does_not_push() {
    let cells = world(&[(5, 5, Cell::Stone)], Cell::Air);
    let view = WorldView::new(&cells, ivec2(32, 32), Cell::Barrier);
    assert_eq!(push_vector(&view, ivec2(5, 5), true, true), ivec2(0, 0));
}

fn pushes_with(entries: &[(i32, i32, IVec2)]) -> Vec<IVec2> {
    let mut v = vec![ivec2(0, 0); 1024];
    for (x, y, p) in entries {
        v[(*y * 32 + *x) as usize] = *p;
    }
    v
}

#[test]
fn candidates_list_the_neighbours_that_push_in() {
    // The cell above (5, 5) pushes down into it; it is listed as neighbours 1 and 6.
    let pushes = pushes_with(&[(5, 4, ivec2(0, 1)), (4, 5, ivec2(1, 0)), (5, 6, ivec2(0, -1))]);
    let view = WorldView::new(&pushes, ivec2(32, 32), ivec2(0, 0));
    let (list, len) = pull_candidates(&view, ivec2(5, 5));
    assert_eq!(&list[0..len], &[1, 3, 6]);
}

#[test]
fn a_single_candidate_is_picked() {
    let pushes = pushes_with(&[(6, 5, ivec2(-1, 0))]);
    let view = WorldView::new(&pushes, ivec2(32, 32), ivec2(0, 0));
    for _ in 0..20 {
        let flags = pick_pull(&view, ivec2(5, 5));
        assert_eq!(flags, [false, false, false, false, true, false, false, false]);
    }
    assert_eq!(pick_pull(&view, ivec2(20, 20)), [false; 8]);
}

#[test]
fn pull_field_sets_one_flag() {
    assert_eq!(pull_field(Some(2)), [false, false, true, false, false, false, false, false]);
    assert_eq!(pull_field(None), [false; 8]);
}

#[test]
fn movement_swaps_a_pushing_and_a_pulling_cell() {
    let cells = world(&[(5, 5, Cell::Sand)], Cell::Air);
    let pushes = pushes_with(&[(5, 5, ivec2(0, 1))]);
    let mut pulls = vec![[false; 8]; 1024];
    pulls[6 * 32 + 5][1] = true;
    let read = WorldView::new(&cells, ivec2(32, 32), Cell::Barrier);
    let push = WorldView::new(&pushes, ivec2(32, 32), ivec2(0, 0));
    let pull = WorldView::new(&pulls, ivec2(32, 32), [false; 8]);
    assert_eq!(resolve_movement_at(&read, &push, &pull, ivec2(5, 5)), Cell::Air);
    assert_eq!(resolve_movement_at(&read, &push, &pull, ivec2(5, 6)), Cell::Sand);
    assert_eq!(resolve_movement_at(&read, &push, &pull, ivec2(4, 6)), Cell::Air);
}

#[test]
fn transmutation_rules() {
    let cells = world(&[(5, 5, Cell::Water), (6, 5, Cell::Lava), (10, 10, Cell::Steam)], Cell::Air);
    let view = WorldView::new(&cells, ivec2(32, 32), Cell::Barrier);
    assert_eq!(transmutation(&view, ivec2(5, 5), false), Cell::Steam);
    assert_eq!(transmutation(&view, ivec2(5, 5), true), Cell::Water);
    assert_eq!(transmutation(&view, ivec2(6, 5), false), Cell::Stone);
    assert_eq!(transmutation(&view, ivec2(10, 10), true), Cell::Water);
    assert_eq!(transmutation(&view, ivec2(10, 10), false), Cell::Steam);
    assert_eq!(resolve_transmutation_at(&view, ivec2(6, 5)), Cell::Stone);
    assert_eq!(resolve_transmutation_at(&view, ivec2(0, 0)), Cell::Air);
}

#[test]
fn water_below_lava_does_not_boil() {
    // Only the cells above and beside are looked at.
    let cells = world(&[(5, 5, Cell::Water), (5, 6, Cell::Lava)], Cell::Air);
    let view = WorldView::new(&cells, ivec2(32, 32), Cell::Barrier);
    assert_eq!(transmutation(&view, ivec2(5, 5), false), Cell::Water);
    // The lava sees the water above it and sets.
    assert_eq!(transmutation(&view, ivec2(5, 6), false), Cell::Stone);
}

#[test]
fn outside_the_world_nothing_pushes() {
    let cells = world(&[], Cell::Air);
    let view = WorldView::new(&cells, ivec2(32, 32), Cell::Barrier);
    for p in [ivec2(-1, 0), ivec2(32, 5), ivec2(3, 40), ivec2(-100, -100)] {
        assert_eq!(calc_push_vector(&view, p), ivec2(0, 0));
    }
}

#[test]
fn outside_the_world_transmutation_gives_barriers() {
    let cells = world(&[(0, 0, Cell::Water)], Cell::Lava);
    let view = WorldView::new(&cells, ivec2(32, 32), Cell::Barrier);
    assert_eq!(resolve_transmutation_at(&view, ivec2(5, 40)), Cell::Barrier);
}
