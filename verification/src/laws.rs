use vstd::prelude::*;
use crate::cell::{cell_code, cell_of_code, is_immovable, Cell};
use crate::chunk_view::{chunk_coord_of, chunk_local_index};
use crate::grid::{
    cell_coord, cell_index, chunk_count, in_world, lemma_chunk_cell, lemma_chunk_count,
    lemma_index_of_position, tdiv, trem, world_cells,
};
use crate::performance_monitor::{seq_sum, SmoothingBuffer};
use crate::rules::{
    candidates_upto, cell_at, choice_ok, move_upto, neg, neighbor_offset, plus, pull_candidates_spec,
    pull_flags, pull_outcome, push_at, push_outcome, push_spec, slow_draw_ok, trans_outcome,
    trans_spec, world_ok, lemma_push_targets_movable,
};
use crate::vec2::{vec_at, IVec2};
use crate::world::{decoded_cells, encoded, tick_layers, tick_outcome};
use crate::world_view::{readable_at, world_cell};

verus! {

/// Saving a kind of cell as a byte and reading the byte back gives the same
/// kind, and every byte that names a kind is that kind's code.
pub proof fn law_cell_code_round_trip(c: Cell, b: u8)
    ensures
        cell_of_code(cell_code(c)) == Some(c),
        cell_of_code(b) matches Some(d) ==> cell_code(d) == b,
{
}

/// Turning the cells of a world into save data and that save data back into
/// cells gives the same cells, and every saved byte names a kind, as
/// `Simulation::from_save_data` asks.
pub proof fn law_save_round_trip(cells: Seq<Cell>)
    ensures
        forall|i: int|
            0 <= i < cells.len() ==> (#[trigger] cell_of_code(encoded(cells)[i])) is Some,
        decoded_cells(encoded(cells)) == cells,
{
    assert(decoded_cells(encoded(cells)) =~= cells);
}

/// Writing a cell at a position of the world and then reading that position
/// gives the cell back, and every other position keeps what it held.
pub proof fn law_write_then_read(cells: Seq<Cell>, size: IVec2, p: IVec2, q: IVec2, c: Cell)
    requires
        world_ok(cells, size),
        in_world(p, size),
    ensures
        cell_at(cells.update(cell_index(p, size), c), size, p) == c,
        q != p ==> cell_at(cells.update(cell_index(p, size), c), size, q) == cell_at(cells, size, q),
{
    lemma_index_of_position(p, size);
    if in_world(q, size) {
        lemma_index_of_position(q, size);
    }
}

/// Mapping a coordinate on a grid to its row-major index and the index back
/// to a coordinate gives the coordinate again.
pub proof fn law_map_round_trip(coord: IVec2, grid_size: IVec2)
    requires
        0 <= coord.x < grid_size.x,
        0 <= coord.y,
        coord.y * grid_size.x + coord.x <= i32::MAX,
    ensures
        ({
            let index = (coord.y * grid_size.x + coord.x) as usize;
            &&& trem((index as i32) as int, grid_size.x as int) == coord.x
            &&& tdiv((index as i32) as int, grid_size.x as int) == coord.y
        }),
{
    let v = coord.y * grid_size.x + coord.x;
    assert(0 <= coord.y * grid_size.x) by (nonlinear_arith)
        requires 0 <= coord.y, 0 < grid_size.x;
    vstd::arithmetic::div_mod::lemma_fundamental_div_mod_converse(
        v,
        grid_size.x as int,
        coord.y as int,
        coord.x as int,
    );
}

/// The cell that a chunk view shows at a local coordinate is the cell that
/// the world shows at the chunk's position plus that local coordinate.
pub proof fn law_chunk_matches_world(cells: Seq<Cell>, size: IVec2, chunk: usize, local: IVec2)
    requires
        world_ok(cells, size),
        chunk < chunk_count(size),
        0 <= local.x < 32,
        0 <= local.y < 32,
    ensures
        cells[chunk * 1024 + chunk_local_index(local)] == cell_at(
            cells,
            size,
            vec_at(
                chunk_coord_of(chunk, size).x * 32 + local.x,
                chunk_coord_of(chunk, size).y * 32 + local.y,
            ),
        ),
{
    let l = local.y * 32 + local.x;
    lemma_chunk_count(size);
    lemma_chunk_cell(chunk as int, l, size);
    let i = chunk * 1024 + l;
    let p = cell_coord(i, size);
    lemma_index_of_position(p, size);
    vstd::arithmetic::div_mod::lemma_fundamental_div_mod_converse(l, 32, local.y as int, local.x as int);
    assert(chunk as i32 == chunk);
    assert(tdiv(size.x as int, 32) == size.x / 32);
    assert(trem(chunk as int, size.x / 32) == (chunk as int) % (size.x / 32));
    assert(tdiv(chunk as int, size.x / 32) == (chunk as int) / (size.x / 32));
}

/// Neighbour `n` of an immovable cell does not push into it.
proof fn lemma_neighbor_does_not_push_in(read: Seq<Cell>, size: IVec2, pushes: Seq<IVec2>, g: IVec2, n: int)
    requires
        world_ok(read, size),
        pushes.len() == world_cells(size),
        in_world(g, size),
        is_immovable(cell_at(read, size, g)),
        0 <= n < 8,
        forall|i: int|
            0 <= i < world_cells(size) ==> push_outcome(read, size, cell_coord(i, size), #[trigger] pushes[i]),
    ensures
        push_at(pushes, size, plus(g, neighbor_offset(n))) != neg(neighbor_offset(n)),
{
    let off = neighbor_offset(n);
    let h = plus(g, off);
    if in_world(h, size) {
        lemma_index_of_position(h, size);
        let i = cell_index(h, size);
        assert(push_outcome(read, size, cell_coord(i, size), pushes[i]));
        let (flip, slow) = choose|flip: bool, slow: bool|
            slow_draw_ok(cell_at(read, size, h), slow) && pushes[i] == #[trigger] push_spec(
                read,
                size,
                h,
                flip,
                slow,
            );
        lemma_push_targets_movable(read, size, h, flip, slow);
        if pushes[i] == neg(off) {
            assert(plus(h, neg(off)) == g);
        }
    }
}

/// No neighbour pushes into an immovable cell.
proof fn lemma_no_candidates(read: Seq<Cell>, size: IVec2, pushes: Seq<IVec2>, g: IVec2, k: int)
    requires
        world_ok(read, size),
        pushes.len() == world_cells(size),
        in_world(g, size),
        is_immovable(cell_at(read, size, g)),
        0 <= k <= 8,
        forall|i: int|
            0 <= i < world_cells(size) ==> push_outcome(read, size, cell_coord(i, size), #[trigger] pushes[i]),
    ensures
        candidates_upto(pushes, size, g, k).len() == 0,
    decreases k,
{
    if k > 0 {
        lemma_no_candidates(read, size, pushes, g, k - 1);
        lemma_neighbor_does_not_push_in(read, size, pushes, g, k - 1);
    }
}

/// In the movement step a cell that pushes nowhere and pulls from nowhere
/// keeps its content.
proof fn lemma_move_keeps(
    read: Seq<Cell>,
    pushes: Seq<IVec2>,
    pulls: Seq<[bool; 8]>,
    size: IVec2,
    g: IVec2,
    k: int,
)
    requires
        in_world(g, size),
        push_at(pushes, size, g) == vec_at(0, 0),
        forall|n: int| 0 <= n < 8 ==> !crate::rules::pull_flag(pulls, size, g, n),
        0 <= k <= 8,
    ensures
        move_upto(read, pushes, pulls, size, g, k) == cell_at(read, size, g),
    decreases k,
{
    if k > 0 {
        lemma_move_keeps(read, pushes, pulls, size, g, k - 1);
        assert(plus(g, vec_at(0, 0)) == g);
    }
}

/// Stone and barriers never move and never change: after a tick every cell
/// that neither falls, piles nor spreads is still where it was.
pub proof fn law_immovable_cells_stay(read: Seq<Cell>, size: IVec2, write: Seq<Cell>, p: IVec2)
    requires
        world_ok(read, size),
        tick_outcome(read, size, write),
        in_world(p, size),
        is_immovable(cell_at(read, size, p)),
    ensures
        cell_at(write, size, p) == cell_at(read, size, p),
{
    let (pushes, pulls, moved) = choose|pushes: Seq<IVec2>, pulls: Seq<[bool; 8]>, moved: Seq<Cell>|
        #[trigger] tick_layers(read, size, pushes, pulls, moved, write);
    lemma_index_of_position(p, size);
    let i = cell_index(p, size);
    assert(cell_coord(i, size) == p);
    // the cell pushes nowhere
    assert(push_outcome(read, size, p, pushes[i]));
    let (flip, slow) = choose|flip: bool, slow: bool|
        slow_draw_ok(cell_at(read, size, p), slow) && pushes[i] == #[trigger] push_spec(
            read,
            size,
            p,
            flip,
            slow,
        );
    lemma_push_targets_movable(read, size, p, flip, slow);
    assert(push_at(pushes, size, p) == vec_at(0, 0));
    // and pulls from nowhere
    lemma_no_candidates(read, size, pushes, p, 8);
    assert(pull_outcome(pushes, size, p, pulls[i]));
    let choice = choose|choice: Option<usize>|
        choice_ok(pull_candidates_spec(pushes, size, p), choice) && pulls[i]@ == #[trigger] pull_flags(
            choice,
        );
    assert(choice is None);
    assert forall|n: int| 0 <= n < 8 implies !crate::rules::pull_flag(pulls, size, p, n) by {
        assert(pulls[i]@[n] == pull_flags(choice)[n]);
    }
    lemma_move_keeps(read, pushes, pulls, size, p, 8);
    assert(moved[i] == cell_at(read, size, p));
    // and nothing transmutes it
    assert(trans_outcome(moved, size, p, write[i]));
    let condensed = choose|condensed: bool| write[i] == #[trigger] trans_spec(moved, size, p, condensed);
    assert(cell_at(moved, size, p) == moved[i]);
}

/// `q` is a position of the world at most one step away from `p` along each axis.
pub open spec fn within_one_step(p: IVec2, q: IVec2, size: IVec2) -> bool {
    in_world(q, size) && -1 <= q.x - p.x <= 1 && -1 <= q.y - p.y <= 1
}

/// A cell of kind `a` can end a tick as kind `b` when it is not transmuted,
/// when water boils, when lava sets, or when steam condenses.
pub open spec fn may_become(a: Cell, b: Cell) -> bool {
    ||| a == b
    ||| (a == Cell::Water && b == Cell::Steam)
    ||| (a == Cell::Lava && b == Cell::Stone)
    ||| (a == Cell::Steam && b == Cell::Water)
}

/// After the movement step a cell holds what the world held at its own
/// position or at a neighbouring one.
proof fn lemma_move_from_neighbor(
    read: Seq<Cell>,
    pushes: Seq<IVec2>,
    pulls: Seq<[bool; 8]>,
    size: IVec2,
    g: IVec2,
    k: int,
)
    requires
        in_world(g, size),
        -1 <= push_at(pushes, size, g).x <= 1,
        -1 <= push_at(pushes, size, g).y <= 1,
        0 <= k <= 8,
    ensures
        exists|q: IVec2|
            #[trigger] within_one_step(g, q, size) && move_upto(read, pushes, pulls, size, g, k)
                == cell_at(read, size, q),
    decreases k,
{
    if k == 0 {
        assert(within_one_step(g, g, size));
    } else {
        lemma_move_from_neighbor(read, pushes, pulls, size, g, k - 1);
        let n = k - 1;
        let off = neighbor_offset(n);
        let cp = push_at(pushes, size, g);
        if crate::rules::pull_flag(pulls, size, g, n) && push_at(pushes, size, plus(g, off)) == neg(
            off,
        ) {
            let q = plus(g, off);
            assert(in_world(q, size));
            assert(within_one_step(g, q, size));
        } else if crate::rules::pull_flag(pulls, size, plus(g, cp), n) && cp == neg(off) {
            let q = plus(g, cp);
            assert(within_one_step(g, q, size));
        } else {
            let q = choose|q: IVec2|
                #[trigger] within_one_step(g, q, size) && move_upto(read, pushes, pulls, size, g, n)
                    == cell_at(read, size, q);
            assert(within_one_step(g, q, size));
        }
    }
}

/// Cells move at most one step per tick: after a tick every position of the
/// world holds what the world held at that position or at a neighbouring
/// one, or what that boils, sets or condenses into.
pub proof fn law_cells_move_at_most_one_step(read: Seq<Cell>, size: IVec2, write: Seq<Cell>, p: IVec2)
    requires
        world_ok(read, size),
        tick_outcome(read, size, write),
        in_world(p, size),
    ensures
        exists|q: IVec2|
            #[trigger] within_one_step(p, q, size) && may_become(cell_at(read, size, q), cell_at(write, size, p)),
{
    let (pushes, pulls, moved) = choose|pushes: Seq<IVec2>, pulls: Seq<[bool; 8]>, moved: Seq<Cell>|
        #[trigger] tick_layers(read, size, pushes, pulls, moved, write);
    lemma_index_of_position(p, size);
    let i = cell_index(p, size);
    assert(cell_coord(i, size) == p);
    crate::rules::lemma_push_outcomes_small(read, size, pushes);
    assert(-1 <= pushes[i].x <= 1 && -1 <= pushes[i].y <= 1);
    lemma_move_from_neighbor(read, pushes, pulls, size, p, 8);
    let q = choose|q: IVec2|
        #[trigger] within_one_step(p, q, size) && move_upto(read, pushes, pulls, size, p, 8) == cell_at(
            read,
            size,
            q,
        );
    assert(moved[i] == cell_at(read, size, q));
    assert(trans_outcome(moved, size, p, write[i]));
    let condensed = choose|condensed: bool| write[i] == #[trigger] trans_spec(moved, size, p, condensed);
    assert(cell_at(moved, size, p) == moved[i]);
    assert(within_one_step(p, q, size));
}

/// The sum of `n` samples that all equal `v` is `n * v`.
proof fn lemma_sum_constant(n: nat, v: u64)
    ensures
        seq_sum(Seq::new(n, |i: int| v)) == n * v,
    decreases n,
{
    if n > 0 {
        lemma_sum_constant((n - 1) as nat, v);
        assert(Seq::new(n, |i: int| v).drop_last() =~= Seq::new((n - 1) as nat, |i: int| v));
        assert(n * v == (n - 1) * v + v) by (nonlinear_arith);
    }
}

/// While a smoothing buffer is fresh, every sample fills all of its places,
/// so an average computed at the first place is exactly the newest sample.
pub proof fn law_fresh_average<const N: usize>(prev: SmoothingBuffer<N>, next: SmoothingBuffer<N>, v: u64)
    requires
        prev.wf(),
        prev.is_first(),
        prev.cursor() == 0,
        next.set_from(prev, v),
    ensures
        next.average() == v,
{
    prev.lemma_wf();
    lemma_sum_constant(N as nat, v);
    assert((N as int) * (v as int) / (N as int) == v) by (nonlinear_arith)
        requires N > 0;
}

/// The state of a smoothing buffer after the first `k` samples of a history
/// that started from a fresh buffer: the cursor stands at `k % N`, the buffer
/// is still fresh, and (after the first sample) the average is the sample
/// that was recorded when the cursor last stood at the first place.
pub open spec fn history_state<const N: usize>(
    bufs: Seq<SmoothingBuffer<N>>,
    samples: Seq<u64>,
    k: int,
) -> bool {
    &&& bufs[k].wf()
    &&& bufs[k].is_first()
    &&& bufs[k].cursor() == k % (N as int)
    &&& k > 0 ==> bufs[k].average() == samples[((k - 1) / (N as int)) * (N as int)]
}

proof fn lemma_history<const N: usize>(bufs: Seq<SmoothingBuffer<N>>, samples: Seq<u64>, k: int)
    requires
        bufs.len() == samples.len() + 1,
        bufs[0].wf(),
        bufs[0].is_first(),
        bufs[0].cursor() == 0,
        forall|i: int| 0 <= i < samples.len() ==> #[trigger] bufs[i + 1].set_from(bufs[i], samples[i]),
        0 <= k <= samples.len(),
    ensures
        history_state(bufs, samples, k),
    decreases k,
{
    bufs[0].lemma_wf();
    let n = N as int;
    if k > 0 {
        lemma_history(bufs, samples, k - 1);
        let j = k - 1;
        assert(bufs[j + 1].set_from(bufs[j], samples[j]));
        bufs[j].lemma_wf();
        vstd::arithmetic::div_mod::lemma_fundamental_div_mod(j, n);
        vstd::arithmetic::div_mod::lemma_fundamental_div_mod(k, n);
        assert(0 <= j % n < n);
        if j % n + 1 < n {
            assert(k == (j / n) * n + (j % n + 1)) by (nonlinear_arith)
                requires j == n * (j / n) + j % n, k == j + 1;
            vstd::arithmetic::div_mod::lemma_fundamental_div_mod_converse(k, n, j / n, j % n + 1);
            vstd::arithmetic::div_mod::lemma_fundamental_div_mod_converse(j % n + 1, n, 0, j % n + 1);
        } else {
            assert(k == (j / n + 1) * n + 0) by (nonlinear_arith)
                requires j == n * (j / n) + j % n, k == j + 1, j % n + 1 == n;
            vstd::arithmetic::div_mod::lemma_fundamental_div_mod_converse(k, n, j / n + 1, 0);
            vstd::arithmetic::div_mod::lemma_fundamental_div_mod_converse(j % n + 1, n, 1, 0);
        }
        assert(bufs[k].cursor() == k % n);
        if j % n == 0 {
            law_fresh_average(bufs[j], bufs[k], samples[j]);
            assert((j / n) * n == j) by (nonlinear_arith)
                requires j == n * (j / n) + j % n, j % n == 0;
        } else {
            assert(j > 0);
            assert(j - 1 == (j / n) * n + (j % n - 1)) by (nonlinear_arith)
                requires j == n * (j / n) + j % n;
            vstd::arithmetic::div_mod::lemma_fundamental_div_mod_converse(j - 1, n, j / n, j % n - 1);
        }
    }
}

/// A history of samples set into a fresh smoothing buffer: after `k + 1`
/// samples the cursor stands at `(k + 1) % N`; the average changes only when
/// a sample is set with the cursor at the first place (samples `1`, `N + 1`,
/// `2N + 1`, ...), and is then exactly that sample; so a constant input is
/// reproduced exactly.
pub proof fn law_smoothing_history<const N: usize>(bufs: Seq<SmoothingBuffer<N>>, samples: Seq<u64>)
    requires
        bufs.len() == samples.len() + 1,
        bufs[0].wf(),
        bufs[0].is_first(),
        bufs[0].cursor() == 0,
        forall|i: int| 0 <= i < samples.len() ==> #[trigger] bufs[i + 1].set_from(bufs[i], samples[i]),
    ensures
        forall|k: int| 0 <= k < samples.len() ==> #[trigger] bufs[k + 1].cursor() == (k + 1) % (N as int),
        forall|k: int|
            0 <= k < samples.len() ==> #[trigger] bufs[k + 1].average() == samples[(k / (N as int)) * (
            N as int)],
        forall|k: int|
            0 <= k < samples.len() && k % (N as int) != 0 ==> #[trigger] bufs[k + 1].average()
                == bufs[k].average(),
        forall|k: int|
            0 <= k < samples.len() && (forall|i: int| 0 <= i <= k ==> #[trigger] samples[i] == samples[0])
                ==> #[trigger] bufs[k + 1].average() == samples[0],
{
    bufs[0].lemma_wf();
    let n = N as int;
    assert forall|k: int| 0 <= k < samples.len() implies #[trigger] bufs[k + 1].cursor() == (k + 1) % n by {
        lemma_history(bufs, samples, k + 1);
    }
    assert forall|k: int| 0 <= k < samples.len() implies #[trigger] bufs[k + 1].average() == samples[(k
        / n) * n] by {
        lemma_history(bufs, samples, k + 1);
        assert((k + 1 - 1) / n == k / n);
    }
    assert forall|k: int| 0 <= k < samples.len() && k % n != 0 implies #[trigger] bufs[k + 1].average()
        == bufs[k].average() by {
        assert(bufs[k + 1].set_from(bufs[k], samples[k]));
        lemma_history(bufs, samples, k);
    }
    assert forall|k: int|
        0 <= k < samples.len() && (forall|i: int| 0 <= i <= k ==> #[trigger] samples[i] == samples[0]) implies #[trigger] bufs[k
            + 1].average() == samples[0] by {
        lemma_history(bufs, samples, k + 1);
        assert((k + 1 - 1) / n == k / n);
        vstd::arithmetic::div_mod::lemma_fundamental_div_mod(k, n);
        assert(0 <= (k / n) * n <= k) by (nonlinear_arith)
            requires k == n * (k / n) + k % n, 0 <= k % n, 0 <= k, n > 0;
    }
}

/// Loading saved bytes and saving them again gives the same bytes, whatever
/// their number, as long as each names a kind of cell.
pub proof fn law_load_save_round_trip(bytes: Seq<u8>)
    requires
        forall|i: int| 0 <= i < bytes.len() ==> (#[trigger] cell_of_code(bytes[i])) is Some,
    ensures
        encoded(decoded_cells(bytes)) == bytes,
{
    assert forall|i: int| 0 <= i < bytes.len() implies encoded(decoded_cells(bytes))[i] == bytes[i] by {
        assert(cell_of_code(bytes[i]) is Some);
    }
    assert(encoded(decoded_cells(bytes)) =~= bytes);
}

/// Setting a cell through a writable world view and reading it back gives the
/// cell, for a world of any size in which the position's index is defined and
/// inside the buffer; every other entry of the buffer keeps its value, and
/// outside the world nothing changes.
pub proof fn law_view_set_then_get<T>(cells: Seq<T>, size: IVec2, border: T, p: IVec2, v: T, j: int)
    requires
        readable_at(cells, size, p),
    ensures
        ({
            let after = if in_world(p, size) {
                cells.update(crate::grid::global_index(p, size), v)
            } else {
                cells
            };
            &&& in_world(p, size) ==> world_cell(after, size, border, p) == v
            &&& after.len() == cells.len()
            &&& 0 <= j < cells.len() && (in_world(p, size) ==> j != crate::grid::global_index(p, size))
                ==> after[j] == cells[j]
            &&& !in_world(p, size) ==> after == cells
        }),
{
}

} // verus!
