use vstd::prelude::*;
use crate::cell::{is_immovable, spec_density, spec_fluidity, spec_is_falling, spec_is_hot, spec_is_piling, spec_is_spreading, Cell};
use crate::grid::{global_index, in_world, lemma_index_of_position, valid_world_size, world_cells};
use crate::random::{choose_neighbor, random_ratio};
use crate::vec2::{vec_at, IVec2};
use crate::world_view::{readable_at, world_cell, WorldView};

verus! {

/// The number of neighbours that the movement rules look at.
pub const NEIGHBOR_COUNT: usize = 8;

/// Steam turns back into water with a chance of one in this many per tick.
pub const CONDENSATION_ODDS: u32 = 10000;

/// A buffer that holds every cell of a world of a valid size (and maybe more
/// after them).
pub open spec fn world_ok<T>(cells: Seq<T>, size: IVec2) -> bool {
    valid_world_size(size) && cells.len() >= world_cells(size)
}

/// `p + q`.
pub open spec fn plus(p: IVec2, q: IVec2) -> IVec2 {
    vec_at(p.x + q.x, p.y + q.y)
}

/// `-v`.
pub open spec fn neg(v: IVec2) -> IVec2 {
    vec_at(-v.x, -v.y)
}

/// `p` moved by `(dx, dy)`.
pub open spec fn shifted(p: IVec2, dx: int, dy: int) -> IVec2 {
    vec_at(p.x + dx, p.y + dy)
}

/// The offset of neighbour number `n`. The list names the three cells above
/// and the two beside a cell, then the three above once more.
pub open spec fn neighbor_offset(n: int) -> IVec2 {
    if n == 0 {
        vec_at(-1, -1)
    } else if n == 1 {
        vec_at(0, -1)
    } else if n == 2 {
        vec_at(1, -1)
    } else if n == 3 {
        vec_at(-1, 0)
    } else if n == 4 {
        vec_at(1, 0)
    } else if n == 5 {
        vec_at(-1, -1)
    } else if n == 6 {
        vec_at(0, -1)
    } else {
        vec_at(1, -1)
    }
}

/// The cell at `p`, a barrier outside the world.
pub open spec fn cell_at(cells: Seq<Cell>, size: IVec2, p: IVec2) -> Cell {
    world_cell(cells, size, Cell::Barrier, p)
}

/// The push vector stored for `p`, zero outside the world.
pub open spec fn push_at(pushes: Seq<IVec2>, size: IVec2, p: IVec2) -> IVec2 {
    world_cell(pushes, size, vec_at(0, 0), p)
}

/// Whether the cell at `p` pulls from its neighbour number `n`; nothing
/// outside the world pulls.
pub open spec fn pull_flag(pulls: Seq<[bool; 8]>, size: IVec2, p: IVec2, n: int) -> bool {
    in_world(p, size) && pulls[global_index(p, size)]@[n]
}

/// The direction in which the cell at `g` pushes, for the given outcomes of
/// the two draws: `flip` puts its first side on the left, `slow` lets it
/// move sideways or rise (a failed draw holds viscous cells back).
#[verifier::opaque]
pub open spec fn push_spec(cells: Seq<Cell>, size: IVec2, g: IVec2, flip: bool, slow: bool) -> IVec2 {
    let ax: int = if flip { -1 } else { 1 };
    let bx: int = -ax;
    let center = cell_at(cells, size, g);
    let above = cell_at(cells, size, shifted(g, 0, -1));
    let below = cell_at(cells, size, shifted(g, 0, 1));
    let below_a = cell_at(cells, size, shifted(g, ax, 1));
    let below_b = cell_at(cells, size, shifted(g, bx, 1));
    let above_a = cell_at(cells, size, shifted(g, ax, -1));
    let above_b = cell_at(cells, size, shifted(g, bx, -1));
    let side_a = cell_at(cells, size, shifted(g, ax, 0));
    let side_b = cell_at(cells, size, shifted(g, bx, 0));
    let d = spec_density(center);
    let is_falling = spec_is_falling(center) && spec_is_falling(below) && d > spec_density(below);
    let is_piling_a = spec_is_piling(center) && spec_is_piling(below_a) && d > spec_density(below_a)
        && slow;
    let is_piling_b = spec_is_piling(center) && spec_is_piling(below_b) && d > spec_density(below_b)
        && slow;
    let is_spreading_a = spec_is_spreading(center) && spec_is_spreading(side_a) && d
        > spec_density(side_a) && slow;
    let is_spreading_b = spec_is_spreading(center) && spec_is_spreading(side_b) && d
        > spec_density(side_b) && slow;
    let is_rising = spec_is_falling(center) && spec_is_falling(above) && d < spec_density(above)
        && slow;
    let is_rising_a = spec_is_piling(center) && spec_is_piling(above_a) && d < spec_density(above_a)
        && slow;
    let is_rising_b = spec_is_piling(center) && spec_is_piling(above_b) && d < spec_density(
        above_b,
    );
    if is_falling {
        vec_at(0, 1)
    } else if is_piling_a {
        vec_at(ax, 1)
    } else if is_piling_b {
        vec_at(bx, 1)
    } else if is_spreading_a {
        vec_at(ax, 0)
    } else if is_spreading_b {
        vec_at(bx, 0)
    } else if is_rising {
        vec_at(0, -1)
    } else if is_rising_a {
        vec_at(ax, -1)
    } else if is_rising_b {
        vec_at(bx, -1)
    } else {
        vec_at(0, 0)
    }
}

/// The draw that holds a cell back can only fail for cells that are viscous.
pub open spec fn slow_draw_ok(center: Cell, slow: bool) -> bool {
    spec_fluidity(center).0 == spec_fluidity(center).1 ==> slow
}

/// `v` is a push vector that the cell at `g` can produce, whichever way the draws go.
pub open spec fn push_outcome(cells: Seq<Cell>, size: IVec2, g: IVec2, v: IVec2) -> bool {
    exists|flip: bool, slow: bool|
        slow_draw_ok(cell_at(cells, size, g), slow) && v == #[trigger] push_spec(
            cells,
            size,
            g,
            flip,
            slow,
        )
}

/// The numbers of the neighbours among the first `k` that push into `g`, in order.
pub open spec fn candidates_upto(pushes: Seq<IVec2>, size: IVec2, g: IVec2, k: int) -> Seq<usize>
    decreases k,
{
    if k <= 0 {
        Seq::empty()
    } else {
        let prev = candidates_upto(pushes, size, g, k - 1);
        let off = neighbor_offset(k - 1);
        if push_at(pushes, size, plus(g, off)) == neg(off) {
            prev.push((k - 1) as usize)
        } else {
            prev
        }
    }
}

/// The numbers of the neighbours that push into `g`, in order.
pub open spec fn pull_candidates_spec(pushes: Seq<IVec2>, size: IVec2, g: IVec2) -> Seq<usize> {
    candidates_upto(pushes, size, g, 8)
}

/// `choice` is a neighbour that a cell can pick among `candidates`: none
/// exactly when there is none to pick.
pub open spec fn choice_ok(candidates: Seq<usize>, choice: Option<usize>) -> bool {
    match choice {
        None => candidates.len() == 0,
        Some(v) => candidates.contains(v),
    }
}

/// The pull flags of a cell that picked `choice`: only the flag of the
/// picked neighbour is set.
pub open spec fn pull_flags(choice: Option<usize>) -> Seq<bool> {
    Seq::new(8, |j: int| choice == Some(j as usize))
}

/// `flags` are pull flags that the cell at `g` can produce, whichever neighbour it draws.
pub open spec fn pull_outcome(pushes: Seq<IVec2>, size: IVec2, g: IVec2, flags: [bool; 8]) -> bool {
    exists|choice: Option<usize>|
        choice_ok(pull_candidates_spec(pushes, size, g), choice) && flags@ == #[trigger] pull_flags(
            choice,
        )
}

/// The cell that `g` holds after the first `k` neighbours have been looked at
/// in the movement step: a cell whose target pulled it from `g` takes the
/// target's content, a cell that pulled a neighbour takes that neighbour's.
pub open spec fn move_upto(
    cells: Seq<Cell>,
    pushes: Seq<IVec2>,
    pulls: Seq<[bool; 8]>,
    size: IVec2,
    g: IVec2,
    k: int,
) -> Cell
    decreases k,
{
    if k <= 0 {
        cell_at(cells, size, g)
    } else {
        let n = k - 1;
        let prev = move_upto(cells, pushes, pulls, size, g, n);
        let off = neighbor_offset(n);
        let cp = push_at(pushes, size, g);
        let c1 = if pull_flag(pulls, size, plus(g, cp), n) && cp == neg(off) {
            cell_at(cells, size, plus(g, cp))
        } else {
            prev
        };
        if pull_flag(pulls, size, g, n) && push_at(pushes, size, plus(g, off)) == neg(off) {
            cell_at(cells, size, plus(g, off))
        } else {
            c1
        }
    }
}

/// The cell that `g` holds after the movement step.
pub open spec fn move_spec(
    cells: Seq<Cell>,
    pushes: Seq<IVec2>,
    pulls: Seq<[bool; 8]>,
    size: IVec2,
    g: IVec2,
) -> Cell {
    move_upto(cells, pushes, pulls, size, g, 8)
}

/// Some of the first `k` neighbours of `g` is hot.
pub open spec fn hot_neighbor_upto(cells: Seq<Cell>, size: IVec2, g: IVec2, k: int) -> bool {
    exists|n: int| 0 <= n < k && #[trigger] spec_is_hot(cell_at(cells, size, plus(g, neighbor_offset(n))))
}

/// Some of the first `k` neighbours of `g` is water.
pub open spec fn water_neighbor_upto(cells: Seq<Cell>, size: IVec2, g: IVec2, k: int) -> bool {
    exists|n: int|
        0 <= n < k && #[trigger] cell_at(cells, size, plus(g, neighbor_offset(n))) == Cell::Water
}

/// Water next to something hot boils: the cell after the heating rule.
pub open spec fn boiled(cells: Seq<Cell>, size: IVec2, g: IVec2) -> Cell {
    let c = cell_at(cells, size, g);
    if c == Cell::Water && hot_neighbor_upto(cells, size, g, 8) {
        Cell::Steam
    } else {
        c
    }
}

/// Lava next to water turns to stone: the cell after heating and quenching.
pub open spec fn quenched(cells: Seq<Cell>, size: IVec2, g: IVec2) -> Cell {
    let c = boiled(cells, size, g);
    if c == Cell::Lava && water_neighbor_upto(cells, size, g, 8) {
        Cell::Stone
    } else {
        c
    }
}

/// The cell at `g` after the transmutation step, when steam condenses exactly
/// if `condensed`.
pub open spec fn trans_spec(cells: Seq<Cell>, size: IVec2, g: IVec2, condensed: bool) -> Cell {
    let c = quenched(cells, size, g);
    if c == Cell::Steam && condensed {
        Cell::Water
    } else {
        c
    }
}

/// `c` is a cell that the transmutation step can leave at `g`.
pub open spec fn trans_outcome(cells: Seq<Cell>, size: IVec2, g: IVec2, c: Cell) -> bool {
    exists|condensed: bool| c == #[trigger] trans_spec(cells, size, g, condensed)
}

/// In a buffer of the right length every position can be read.
pub proof fn lemma_world_readable<T>(cells: Seq<T>, size: IVec2)
    requires
        world_ok(cells, size),
    ensures
        forall|p: IVec2| #[trigger] readable_at(cells, size, p),
{
    assert forall|p: IVec2| #[trigger] readable_at(cells, size, p) by {
        if in_world(p, size) {
            lemma_index_of_position(p, size);
        }
    }
}

/// The offset of neighbour number `n`.
pub fn neighbor_offset_of(n: usize) -> (r: IVec2)
    requires
        n < NEIGHBOR_COUNT,
    ensures
        r == neighbor_offset(n as int),
{
    match n {
        0 => IVec2 { x: -1, y: -1 },
        1 => IVec2 { x: 0, y: -1 },
        2 => IVec2 { x: 1, y: -1 },
        3 => IVec2 { x: -1, y: 0 },
        4 => IVec2 { x: 1, y: 0 },
        5 => IVec2 { x: -1, y: -1 },
        6 => IVec2 { x: 0, y: -1 },
        _ => IVec2 { x: 1, y: -1 },
    }
}

/// A view of a whole world of cells, with barriers outside it.
pub open spec fn cell_view_ok(v: &WorldView<Cell>) -> bool {
    world_ok(v.cells(), v.world_size()) && v.border() == Cell::Barrier
}

/// The push vector of the cell at `global_coord`, for given outcomes of the
/// two draws that `calc_push_vector` makes.
pub fn push_vector(read_world: &WorldView<Cell>, global_coord: IVec2, flip: bool, slow_down: bool) -> (r: IVec2)
    requires
        cell_view_ok(read_world),
        has_neighbor_coords(global_coord),
    ensures
        r == push_spec(read_world.cells(), read_world.world_size(), global_coord, flip, slow_down),
{
    proof {
        lemma_world_readable(read_world.cells(), read_world.world_size());
        reveal(push_spec);
    }
    let g = global_coord;
    let cell_center = read_world.get_cell(g);
    let cell_above = read_world.get_cell(IVec2 { x: g.x, y: g.y - 1 });
    let cell_below = read_world.get_cell(IVec2 { x: g.x, y: g.y + 1 });
    let (ax, bx): (i32, i32) = if flip {
        (-1, 1)
    } else {
        (1, -1)
    };
    let cell_below_a = read_world.get_cell(IVec2 { x: g.x + ax, y: g.y + 1 });
    let cell_below_b = read_world.get_cell(IVec2 { x: g.x + bx, y: g.y + 1 });
    let cell_above_a = read_world.get_cell(IVec2 { x: g.x + ax, y: g.y - 1 });
    let cell_above_b = read_world.get_cell(IVec2 { x: g.x + bx, y: g.y - 1 });
    let cell_side_a = read_world.get_cell(IVec2 { x: g.x + ax, y: g.y });
    let cell_side_b = read_world.get_cell(IVec2 { x: g.x + bx, y: g.y });
    let d = cell_center.density();

    let is_falling = cell_center.is_falling() && cell_below.is_falling() && d
        > cell_below.density();
    let is_piling_a = cell_center.is_piling() && cell_below_a.is_piling() && d
        > cell_below_a.density() && slow_down;
    let is_piling_b = cell_center.is_piling() && cell_below_b.is_piling() && d
        > cell_below_b.density() && slow_down;
    let is_spreading_a = cell_center.is_spreading() && cell_side_a.is_spreading() && d
        > cell_side_a.density() && slow_down;
    let is_spreading_b = cell_center.is_spreading() && cell_side_b.is_spreading() && d
        > cell_side_b.density() && slow_down;
    let is_rising = cell_center.is_falling() && cell_above.is_falling() && d < cell_above.density()
        && slow_down;
    let is_rising_a = cell_center.is_piling() && cell_above_a.is_piling() && d
        < cell_above_a.density() && slow_down;
    let is_rising_b = cell_center.is_piling() && cell_above_b.is_piling() && d
        < cell_above_b.density();

    if is_falling {
        IVec2 { x: 0, y: 1 }
    } else if is_piling_a {
        IVec2 { x: ax, y: 1 }
    } else if is_piling_b {
        IVec2 { x: bx, y: 1 }
    } else if is_spreading_a {
        IVec2 { x: ax, y: 0 }
    } else if is_spreading_b {
        IVec2 { x: bx, y: 0 }
    } else if is_rising {
        IVec2 { x: 0, y: -1 }
    } else if is_rising_a {
        IVec2 { x: ax, y: -1 }
    } else if is_rising_b {
        IVec2 { x: bx, y: -1 }
    } else {
        IVec2 { x: 0, y: 0 }
    }
}

/// The push vector of the cell at `global_coord`: a fair draw picks which side
/// is looked at first, and a draw against the cell's viscosity decides whether
/// it may move sideways or rise.
pub fn calc_push_vector(read_world: &WorldView<Cell>, global_coord: IVec2) -> (r: IVec2)
    requires
        cell_view_ok(read_world),
        has_neighbor_coords(global_coord),
    ensures
        push_outcome(read_world.cells(), read_world.world_size(), global_coord, r),
        -1 <= r.x <= 1 && -1 <= r.y <= 1,
        is_immovable(cell_at(read_world.cells(), read_world.world_size(), global_coord)) ==> r == vec_at(0, 0),
        r != vec_at(0, 0) ==> in_world(plus(global_coord, r), read_world.world_size()) && !is_immovable(
            cell_at(read_world.cells(), read_world.world_size(), plus(global_coord, r)),
        ),
{
    proof {
        lemma_world_readable(read_world.cells(), read_world.world_size());
    }
    let flip = random_ratio(1, 2);
    let center = read_world.get_cell(global_coord);
    let (numerator, denominator) = center.fluidity();
    let slow_down = random_ratio(numerator, denominator);
    let r = push_vector(read_world, global_coord, flip, slow_down);
    assert(slow_draw_ok(cell_at(read_world.cells(), read_world.world_size(), global_coord), slow_down));
    assert(r == push_spec(read_world.cells(), read_world.world_size(), global_coord, flip, slow_down));
    proof {
        lemma_push_targets_movable(read_world.cells(), read_world.world_size(), global_coord, flip, slow_down);
        lemma_push_small(read_world.cells(), read_world.world_size(), global_coord, flip, slow_down);
    }
    r
}

/// Both coordinates of `g` have a neighbour on each side that fits in an `i32`.
pub open spec fn has_neighbor_coords(g: IVec2) -> bool {
    i32::MIN < g.x < i32::MAX && i32::MIN < g.y < i32::MAX
}

/// A push vector moves by at most one cell along each axis.
pub proof fn lemma_push_small(cells: Seq<Cell>, size: IVec2, g: IVec2, flip: bool, slow: bool)
    ensures
        -1 <= push_spec(cells, size, g, flip, slow).x <= 1,
        -1 <= push_spec(cells, size, g, flip, slow).y <= 1,
{
    reveal(push_spec);
}

/// A push vector that is not zero points at a cell of the world that can be
/// moved, and an immovable cell (or a position outside the world) pushes nowhere.
pub proof fn lemma_push_targets_movable(cells: Seq<Cell>, size: IVec2, g: IVec2, flip: bool, slow: bool)
    requires
        has_neighbor_coords(g),
    ensures
        push_spec(cells, size, g, flip, slow) != vec_at(0, 0) ==> in_world(
            plus(g, push_spec(cells, size, g, flip, slow)),
            size,
        ) && !is_immovable(cell_at(cells, size, plus(g, push_spec(cells, size, g, flip, slow)))),
        is_immovable(cell_at(cells, size, g)) ==> push_spec(cells, size, g, flip, slow) == vec_at(0, 0),
{
    reveal(push_spec);
}

/// A view of a whole world of push vectors, with zero outside it.
pub open spec fn push_view_ok(v: &WorldView<IVec2>) -> bool {
    world_ok(v.cells(), v.world_size()) && v.border() == vec_at(0, 0)
}

/// A view of a whole world of pull flags, with no flag set outside it.
pub open spec fn pull_view_ok(v: &WorldView<[bool; 8]>) -> bool {
    world_ok(v.cells(), v.world_size()) && v.border()@ == Seq::new(8, |j: int| false)
}

/// Every push vector moves by at most one cell along each axis.
pub open spec fn pushes_small(pushes: Seq<IVec2>) -> bool {
    forall|j: int|
        0 <= j < pushes.len() ==> -1 <= #[trigger] pushes[j].x <= 1 && -1 <= pushes[j].y <= 1
}

/// The numbers of the neighbours of `global_coord` that push into it, in
/// order: the list stored in the first `r.1` places of `r.0`.
pub fn pull_candidates(read_world_push: &WorldView<IVec2>, global_coord: IVec2) -> (r: (
    [usize; 8],
    usize,
))
    requires
        push_view_ok(read_world_push),
        in_world(global_coord, read_world_push.world_size()),
    ensures
        r.1 <= 8,
        r.0@.subrange(0, r.1 as int) == pull_candidates_spec(
            read_world_push.cells(),
            read_world_push.world_size(),
            global_coord,
        ),
{
    proof {
        lemma_world_readable(read_world_push.cells(), read_world_push.world_size());
    }
    let ghost pushes = read_world_push.cells();
    let ghost size = read_world_push.world_size();
    let mut size_used: usize = 0;
    let mut pulls: [usize; 8] = [0; 8];
    let mut i: usize = 0;
    while i < NEIGHBOR_COUNT
        invariant
            0 <= i <= 8,
            size_used <= i,
            pushes == read_world_push.cells(),
            size == read_world_push.world_size(),
            in_world(global_coord, size),
            push_view_ok(read_world_push),
            forall|p: IVec2| #[trigger] readable_at(pushes, size, p),
            pulls@.subrange(0, size_used as int) == candidates_upto(pushes, size, global_coord, i as int),
        decreases 8 - i,
    {
        let offset = neighbor_offset_of(i);
        let push = read_world_push.get_cell(IVec2 { x: global_coord.x + offset.x, y: global_coord.y + offset.y });
        let ghost before = pulls@.subrange(0, size_used as int);
        if push.x == -offset.x && push.y == -offset.y {
            pulls[size_used] = i;
            size_used = size_used + 1;
            assert(pulls@.subrange(0, size_used as int) =~= before.push(i));
        } else {
            assert(pulls@.subrange(0, size_used as int) =~= before);
        }
        i = i + 1;
    }
    (pulls, size_used)
}

/// Every candidate names one of the neighbours.
pub proof fn lemma_candidates_are_neighbors(pushes: Seq<IVec2>, size: IVec2, g: IVec2, k: int)
    requires
        0 <= k <= 8,
    ensures
        forall|j: int|
            0 <= j < candidates_upto(pushes, size, g, k).len() ==> #[trigger] candidates_upto(
                pushes,
                size,
                g,
                k,
            )[j] < k,
        candidates_upto(pushes, size, g, k).len() <= k,
    decreases k,
{
    if k > 0 {
        lemma_candidates_are_neighbors(pushes, size, g, k - 1);
    }
}

/// The pull flags of a cell that picked `choice`.
pub fn pull_field(choice: Option<usize>) -> (r: [bool; 8])
    requires
        choice matches Some(v) ==> v < NEIGHBOR_COUNT,
    ensures
        r@ == pull_flags(choice),
{
    let mut new_pulls = [false; NEIGHBOR_COUNT];
    if let Some(picked_pull) = choice {
        new_pulls[picked_pull] = true;
    }
    assert(new_pulls@ =~= pull_flags(choice));
    new_pulls
}

/// The pull flags of the cell at `global_coord`: it draws one of the
/// neighbours that push into it, if any does.
pub fn pick_pull(read_world_push: &WorldView<IVec2>, global_coord: IVec2) -> (r: [bool; 8])
    requires
        push_view_ok(read_world_push),
        in_world(global_coord, read_world_push.world_size()),
    ensures
        pull_outcome(read_world_push.cells(), read_world_push.world_size(), global_coord, r),
{
    let (pulls, size) = pull_candidates(read_world_push, global_coord);
    let ghost cands = pull_candidates_spec(
        read_world_push.cells(),
        read_world_push.world_size(),
        global_coord,
    );
    proof {
        lemma_candidates_are_neighbors(read_world_push.cells(), read_world_push.world_size(), global_coord, 8);
    }
    let picked = choose_neighbor(&pulls[0..size]);
    proof {
        if let Some(v) = picked {
            let j = choose|j: int| 0 <= j < cands.len() && cands[j] == v;
            assert(cands[j] < 8);
        }
    }
    let r = pull_field(picked);
    assert(choice_ok(cands, picked));
    assert(r@ == pull_flags(picked));
    r
}

/// The cell that `global_coord` holds after the movement step.
pub fn resolve_movement_at(
    read_world: &WorldView<Cell>,
    read_world_push: &WorldView<IVec2>,
    read_world_pull: &WorldView<[bool; 8]>,
    global_coord: IVec2,
) -> (r: Cell)
    requires
        cell_view_ok(read_world),
        push_view_ok(read_world_push),
        pull_view_ok(read_world_pull),
        read_world_push.world_size() == read_world.world_size(),
        read_world_pull.world_size() == read_world.world_size(),
        pushes_small(read_world_push.cells()),
        in_world(global_coord, read_world.world_size()),
    ensures
        r == move_spec(
            read_world.cells(),
            read_world_push.cells(),
            read_world_pull.cells(),
            read_world.world_size(),
            global_coord,
        ),
{
    let ghost cells = read_world.cells();
    let ghost pushes = read_world_push.cells();
    let ghost pulls = read_world_pull.cells();
    let ghost size = read_world.world_size();
    proof {
        lemma_world_readable(cells, size);
        lemma_world_readable(pushes, size);
        lemma_world_readable(pulls, size);
        lemma_index_of_position(global_coord, size);
    }
    let g = global_coord;
    let pull_field = read_world_pull.get_cell(g);
    let mut cell = read_world.get_cell(g);
    let center_push = read_world_push.get_cell(g);
    assert(-1 <= center_push.x <= 1 && -1 <= center_push.y <= 1) by {
        assert(pushes[global_index(g, size)] == center_push);
    }
    let target = IVec2 { x: g.x + center_push.x, y: g.y + center_push.y };
    let target_pull = read_world_pull.get_cell(target);
    assert(target == plus(g, center_push));
    let mut n: usize = 0;
    while n < NEIGHBOR_COUNT
        invariant
            0 <= n <= 8,
            cells == read_world.cells(),
            pushes == read_world_push.cells(),
            pulls == read_world_pull.cells(),
            size == read_world.world_size(),
            size == read_world_push.world_size(),
            size == read_world_pull.world_size(),
            cell_view_ok(read_world),
            push_view_ok(read_world_push),
            pull_view_ok(read_world_pull),
            in_world(g, size),
            forall|p: IVec2| #[trigger] readable_at(cells, size, p),
            forall|p: IVec2| #[trigger] readable_at(pushes, size, p),
            center_push == push_at(pushes, size, g),
            -1 <= center_push.x <= 1 && -1 <= center_push.y <= 1,
            target == plus(g, center_push),
            forall|j: int| 0 <= j < 8 ==> pull_field@[j] == pull_flag(pulls, size, g, j),
            forall|j: int| 0 <= j < 8 ==> target_pull@[j] == pull_flag(pulls, size, target, j),
            cell == move_upto(cells, pushes, pulls, size, g, n as int),
        decreases 8 - n,
    {
        let offset = neighbor_offset_of(n);
        if target_pull[n] && center_push.x == -offset.x && center_push.y == -offset.y {
            cell = read_world.get_cell(target);
        }
        let neighbor = IVec2 { x: g.x + offset.x, y: g.y + offset.y };
        let neighbor_push = read_world_push.get_cell(neighbor);
        if pull_field[n] && neighbor_push.x == -offset.x && neighbor_push.y == -offset.y {
            cell = read_world.get_cell(neighbor);
        }
        n = n + 1;
    }
    cell
}

/// The cell at `global_coord` after the heating and quenching rules.
pub fn quench_at(read_world: &WorldView<Cell>, global_coord: IVec2) -> (r: Cell)
    requires
        cell_view_ok(read_world),
        has_neighbor_coords(global_coord),
    ensures
        r == quenched(read_world.cells(), read_world.world_size(), global_coord),
{
    let ghost cells = read_world.cells();
    let ghost size = read_world.world_size();
    proof {
        lemma_world_readable(cells, size);
    }
    let g = global_coord;
    let mut cell = read_world.get_cell(g);
    if cell == Cell::Water {
        let mut i: usize = 0;
        while i < NEIGHBOR_COUNT
            invariant
                0 <= i <= 8,
                cells == read_world.cells(),
                size == read_world.world_size(),
                cell_view_ok(read_world),
                has_neighbor_coords(g),
                forall|p: IVec2| #[trigger] readable_at(cells, size, p),
                cell_at(cells, size, g) == Cell::Water,
                cell == (if hot_neighbor_upto(cells, size, g, i as int) {
                    Cell::Steam
                } else {
                    Cell::Water
                }),
            decreases 8 - i,
        {
            let offset = neighbor_offset_of(i);
            let neighbor = read_world.get_cell(IVec2 { x: g.x + offset.x, y: g.y + offset.y });
            if neighbor.is_hot() {
                cell = Cell::Steam;
            }
            proof {
                assert(neighbor == cell_at(cells, size, plus(g, neighbor_offset(i as int))));
                if spec_is_hot(neighbor) {
                    assert(spec_is_hot(cell_at(cells, size, plus(g, neighbor_offset(i as int)))));
                }
                if hot_neighbor_upto(cells, size, g, i + 1) && !hot_neighbor_upto(cells, size, g, i as int) {
                    let n = choose|n: int| 0 <= n < i + 1 && #[trigger] spec_is_hot(cell_at(cells, size, plus(g, neighbor_offset(n))));
                    assert(n == i);
                }
            }
            i = i + 1;
        }
    }
    let ghost boiled_cell = cell;
    assert(boiled_cell == boiled(cells, size, g));
    if cell == Cell::Lava {
        let mut i: usize = 0;
        while i < NEIGHBOR_COUNT
            invariant
                0 <= i <= 8,
                cells == read_world.cells(),
                size == read_world.world_size(),
                cell_view_ok(read_world),
                has_neighbor_coords(g),
                forall|p: IVec2| #[trigger] readable_at(cells, size, p),
                boiled_cell == Cell::Lava,
                cell == (if water_neighbor_upto(cells, size, g, i as int) {
                    Cell::Stone
                } else {
                    Cell::Lava
                }),
            decreases 8 - i,
        {
            let offset = neighbor_offset_of(i);
            let neighbor = read_world.get_cell(IVec2 { x: g.x + offset.x, y: g.y + offset.y });
            if neighbor == Cell::Water {
                cell = Cell::Stone;
            }
            proof {
                assert(neighbor == cell_at(cells, size, plus(g, neighbor_offset(i as int))));
                if water_neighbor_upto(cells, size, g, i + 1) && !water_neighbor_upto(cells, size, g, i as int) {
                    let n = choose|n: int| 0 <= n < i + 1 && #[trigger] cell_at(cells, size, plus(g, neighbor_offset(n))) == Cell::Water;
                    assert(n == i);
                }
            }
            i = i + 1;
        }
    }
    cell
}

/// The cell at `global_coord` after the transmutation step, when steam
/// condenses exactly if `condensed`.
pub fn transmutation(read_world: &WorldView<Cell>, global_coord: IVec2, condensed: bool) -> (r: Cell)
    requires
        cell_view_ok(read_world),
        has_neighbor_coords(global_coord),
    ensures
        r == trans_spec(read_world.cells(), read_world.world_size(), global_coord, condensed),
{
    let cell = quench_at(read_world, global_coord);
    if cell == Cell::Steam && condensed {
        Cell::Water
    } else {
        cell
    }
}

/// The cell at `global_coord` after the transmutation step: water next to
/// lava boils, lava next to water sets, and steam condenses by chance.
pub fn resolve_transmutation_at(read_world: &WorldView<Cell>, global_coord: IVec2) -> (r: Cell)
    requires
        cell_view_ok(read_world),
        has_neighbor_coords(global_coord),
    ensures
        trans_outcome(read_world.cells(), read_world.world_size(), global_coord, r),
{
    let cell = quench_at(read_world, global_coord);
    let condensed = if cell == Cell::Steam {
        random_ratio(1, CONDENSATION_ODDS)
    } else {
        false
    };
    transmutation(read_world, global_coord, condensed)
}

/// Push vectors that the rules can produce move by at most one cell along each axis.
pub proof fn lemma_push_outcomes_small(cells: Seq<Cell>, size: IVec2, pushes: Seq<IVec2>)
    requires
        forall|i: int|
            0 <= i < pushes.len() ==> push_outcome(
                cells,
                size,
                crate::grid::cell_coord(i, size),
                #[trigger] pushes[i],
            ),
    ensures
        pushes_small(pushes),
{
    assert forall|j: int| 0 <= j < pushes.len() implies -1 <= #[trigger] pushes[j].x <= 1 && -1
        <= pushes[j].y <= 1 by {
        let g = crate::grid::cell_coord(j, size);
        assert(push_outcome(cells, size, g, pushes[j]));
        let (flip, slow) = choose|flip: bool, slow: bool|
            slow_draw_ok(cell_at(cells, size, g), slow) && pushes[j] == #[trigger] push_spec(
                cells,
                size,
                g,
                flip,
                slow,
            );
        assert(pushes[j] == push_spec(cells, size, g, flip, slow));
        reveal(push_spec);
    }
}

} // verus!
