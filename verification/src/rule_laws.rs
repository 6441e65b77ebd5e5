use vstd::prelude::*;
use crate::cell::{spec_is_hot, spec_density, spec_is_falling, spec_is_piling, spec_is_spreading, Cell};
use crate::rules::{
    candidates_upto, cell_at, neg, neighbor_offset, plus, pull_candidates_spec, pull_flags, pull_outcome,
    push_at, push_spec, shifted, choice_ok, has_neighbor_coords, move_spec, move_upto, pull_flag,
    pushes_small, world_ok, quenched, trans_spec,
};
use crate::vec2::{vec_at, IVec2};

verus! {

/// A cell can move into the cell at `t` by falling, piling or spreading
/// downwards or sideways: both take part in the kind of move and the moving
/// cell is strictly denser than the one it displaces.
pub open spec fn sinks_into(
    c: Cell,
    t: Cell,
    takes_part: spec_fn(Cell) -> bool,
) -> bool {
    takes_part(c) && takes_part(t) && spec_density(c) > spec_density(t)
}

/// A cell can move into the cell at `t` by rising: both take part in the kind
/// of move and the moving cell is strictly lighter than the one it displaces.
pub open spec fn rises_into(c: Cell, t: Cell, takes_part: spec_fn(Cell) -> bool) -> bool {
    takes_part(c) && takes_part(t) && spec_density(c) < spec_density(t)
}

/// Where a cell pushes, it is allowed to go:
/// - straight down only into a strictly less dense cell, both falling (so a
///   cell never pushes straight down into a cell of its own kind);
/// - diagonally down only when the slow-down draw succeeded, into a strictly
///   less dense cell, both piling;
/// - sideways only when the slow-down draw succeeded, into a strictly less
///   dense cell, both spreading (a failed draw never lets a cell spread);
/// - straight up only when the draw succeeded, into a strictly denser cell,
///   both falling;
/// - diagonally up only into a strictly denser cell, both piling.
/// A push moves by at most one cell along each axis.
pub proof fn law_push_goes_where_allowed(
    cells: Seq<Cell>,
    size: IVec2,
    g: IVec2,
    flip: bool,
    slow: bool,
)
    ensures
        ({
            let v = push_spec(cells, size, g, flip, slow);
            let c = cell_at(cells, size, g);
            let t = cell_at(cells, size, plus(g, v));
            &&& -1 <= v.x <= 1 && -1 <= v.y <= 1
            &&& v == vec_at(0, 1) ==> sinks_into(c, t, |x: Cell| spec_is_falling(x))
            &&& v.y == 1 && v.x != 0 ==> slow && sinks_into(c, t, |x: Cell| spec_is_piling(x))
            &&& v.y == 0 && v.x != 0 ==> slow && sinks_into(c, t, |x: Cell| spec_is_spreading(x))
            &&& v == vec_at(0, -1) ==> slow && rises_into(c, t, |x: Cell| spec_is_falling(x))
            &&& v.y == -1 && v.x != 0 ==> rises_into(c, t, |x: Cell| spec_is_piling(x))
        }),
{
    reveal(push_spec);
}

/// A failed slow-down draw holds a cell back from moving sideways: a push
/// that does not go up or down is no push at all.
pub proof fn law_failed_draw_never_spreads(cells: Seq<Cell>, size: IVec2, g: IVec2, flip: bool)
    ensures
        push_spec(cells, size, g, flip, false).y == 0 ==> push_spec(cells, size, g, flip, false)
            == vec_at(0, 0),
{
    reveal(push_spec);
}

/// A cell that can fall does fall, whatever the draws: falling comes before
/// every other move.
pub proof fn law_falling_comes_first(cells: Seq<Cell>, size: IVec2, g: IVec2, flip: bool, slow: bool)
    requires
        sinks_into(
            cell_at(cells, size, g),
            cell_at(cells, size, shifted(g, 0, 1)),
            |x: Cell| spec_is_falling(x),
        ),
    ensures
        push_spec(cells, size, g, flip, slow) == vec_at(0, 1),
{
    reveal(push_spec);
}

/// A cell stays only when no move is open to it, on either side: it cannot
/// fall, and with a successful draw it can neither pile, spread nor rise;
/// rising diagonally to the side it looks at second needs no draw, so it
/// cannot do that either.
pub proof fn law_cell_stays_only_when_stuck(cells: Seq<Cell>, size: IVec2, g: IVec2, flip: bool, slow: bool)
    requires
        push_spec(cells, size, g, flip, slow) == vec_at(0, 0),
    ensures
        ({
            let c = cell_at(cells, size, g);
            let at = |dx: int, dy: int| cell_at(cells, size, shifted(g, dx, dy));
            &&& !sinks_into(c, at(0, 1), |x: Cell| spec_is_falling(x))
            &&& slow ==> !sinks_into(c, at(-1, 1), |x: Cell| spec_is_piling(x))
            &&& slow ==> !sinks_into(c, at(1, 1), |x: Cell| spec_is_piling(x))
            &&& slow ==> !sinks_into(c, at(-1, 0), |x: Cell| spec_is_spreading(x))
            &&& slow ==> !sinks_into(c, at(1, 0), |x: Cell| spec_is_spreading(x))
            &&& slow ==> !rises_into(c, at(0, -1), |x: Cell| spec_is_falling(x))
            &&& slow ==> !rises_into(c, at(-1, -1), |x: Cell| spec_is_piling(x))
            &&& slow ==> !rises_into(c, at(1, -1), |x: Cell| spec_is_piling(x))
            &&& !rises_into(c, at(if flip { 1 } else { -1 }, -1), |x: Cell| spec_is_piling(x))
        }),
{
    reveal(push_spec);
}

/// Neighbour `n` of `g` pushes into `g`.
pub open spec fn pushes_into(pushes: Seq<IVec2>, size: IVec2, g: IVec2, n: int) -> bool {
    push_at(pushes, size, plus(g, neighbor_offset(n))) == neg(neighbor_offset(n))
}

/// The candidates among the first `k` neighbours are exactly those that push
/// into `g`, each named once, in increasing order.
proof fn lemma_candidates_upto(pushes: Seq<IVec2>, size: IVec2, g: IVec2, k: int)
    requires
        0 <= k <= 8,
    ensures
        ({
            let c = candidates_upto(pushes, size, g, k);
            &&& forall|n: int| 0 <= n < 8 ==> (c.contains(n as usize) <==> n < k && pushes_into(pushes, size, g, n))
            &&& forall|i: int, j: int| 0 <= i < j < c.len() ==> c[i] < c[j]
            &&& forall|i: int| 0 <= i < c.len() ==> c[i] < k
        }),
    decreases k,
{
    if k > 0 {
        lemma_candidates_upto(pushes, size, g, k - 1);
        let prev = candidates_upto(pushes, size, g, k - 1);
        let c = candidates_upto(pushes, size, g, k);
        assert forall|n: int| 0 <= n < 8 implies (c.contains(n as usize) <==> n < k && pushes_into(pushes, size, g, n)) by {
            if pushes_into(pushes, size, g, k - 1) {
                assert(c == prev.push((k - 1) as usize));
                if n == k - 1 {
                    assert(c[prev.len() as int] == (k - 1) as usize);
                }
                if c.contains(n as usize) {
                    let i = choose|i: int| 0 <= i < c.len() && c[i] == n as usize;
                    if i < prev.len() {
                        assert(prev.contains(n as usize));
                    }
                }
                if n < k - 1 && pushes_into(pushes, size, g, n) {
                    let i = choose|i: int| 0 <= i < prev.len() && prev[i] == n as usize;
                    assert(c[i] == n as usize);
                }
            }
        }
    }
}

/// A neighbour is a candidate to pull from exactly when it pushes into the
/// cell, whatever its offset (straight or diagonal); each candidate is named
/// once, in increasing order, and is one of the eight neighbours.
pub proof fn law_pull_candidates_are_the_pushers(pushes: Seq<IVec2>, size: IVec2, g: IVec2)
    ensures
        ({
            let c = pull_candidates_spec(pushes, size, g);
            &&& forall|n: int| 0 <= n < 8 ==> (c.contains(n as usize) <==> pushes_into(pushes, size, g, n))
            &&& forall|i: int, j: int| 0 <= i < j < c.len() ==> c[i] < c[j]
            &&& forall|i: int| 0 <= i < c.len() ==> c[i] < 8
        }),
{
    lemma_candidates_upto(pushes, size, g, 8);
}

/// A cell pulls from at most one neighbour, only from one that pushes into
/// it, and from some neighbour whenever one pushes into it.
pub proof fn law_pull_flags_follow_pushes(pushes: Seq<IVec2>, size: IVec2, g: IVec2, flags: [bool; 8])
    requires
        pull_outcome(pushes, size, g, flags),
    ensures
        forall|n: int| 0 <= n < 8 && #[trigger] flags@[n] ==> pushes_into(pushes, size, g, n),
        forall|n: int, m: int| 0 <= n < m < 8 && #[trigger] flags@[n] ==> !#[trigger] flags@[m],
        (exists|n: int| 0 <= n < 8 && pushes_into(pushes, size, g, n)) ==> exists|n: int|
            0 <= n < 8 && #[trigger] flags@[n],
{
    law_pull_candidates_are_the_pushers(pushes, size, g);
    let cands = pull_candidates_spec(pushes, size, g);
    let choice = choose|choice: Option<usize>|
        choice_ok(cands, choice) && flags@ == #[trigger] pull_flags(choice);
    assert(flags@ == pull_flags(choice));
    assert forall|n: int| 0 <= n < 8 && #[trigger] flags@[n] implies pushes_into(pushes, size, g, n) by {
        assert(choice == Some(n as usize));
    }
    if exists|n: int| 0 <= n < 8 && pushes_into(pushes, size, g, n) {
        let n = choose|n: int| 0 <= n < 8 && pushes_into(pushes, size, g, n);
        assert(cands.contains(n as usize));
        assert(cands.len() > 0);
        let v = choice.unwrap();
        let i = choose|i: int| 0 <= i < cands.len() && cands[i] == v;
        assert(flags@[v as int]);
    }
}

/// The cell at `p` hands its content over to the cell at `q`: `p` pushes
/// towards `q`, and a pull flag that `q` set names the neighbour at `p`.
pub open spec fn hands_over(pushes: Seq<IVec2>, pulls: Seq<[bool; 8]>, size: IVec2, p: IVec2, q: IVec2) -> bool {
    &&& plus(p, push_at(pushes, size, p)) == q
    &&& exists|n: int| 0 <= n < 8 && #[trigger] pull_flag(pulls, size, q, n) && plus(q, neighbor_offset(n)) == p
}

proof fn lemma_move_upto_follows_hand_overs(
    cells: Seq<Cell>,
    pushes: Seq<IVec2>,
    pulls: Seq<[bool; 8]>,
    size: IVec2,
    g: IVec2,
    k: int,
)
    requires
        has_neighbor_coords(g),
        0 <= k <= 8,
    ensures
        ({
            let r = move_upto(cells, pushes, pulls, size, g, k);
            ||| r == cell_at(cells, size, g)
            ||| exists|q: IVec2|
                (hands_over(pushes, pulls, size, g, q) || hands_over(pushes, pulls, size, q, g))
                    && r == #[trigger] cell_at(cells, size, q)
        }),
    decreases k,
{
    if k > 0 {
        let n = k - 1;
        lemma_move_upto_follows_hand_overs(cells, pushes, pulls, size, g, n);
        let off = neighbor_offset(n);
        let cp = push_at(pushes, size, g);
        let r = move_upto(cells, pushes, pulls, size, g, k);
        if pull_flag(pulls, size, g, n) && push_at(pushes, size, plus(g, off)) == neg(off) {
            let q = plus(g, off);
            assert(plus(q, push_at(pushes, size, q)) == g);
            assert(pull_flag(pulls, size, g, n) && plus(g, neighbor_offset(n)) == q);
            assert(hands_over(pushes, pulls, size, q, g));
            assert(r == cell_at(cells, size, q));
        } else if pull_flag(pulls, size, plus(g, cp), n) && cp == neg(off) {
            let q = plus(g, cp);
            assert(plus(q, neighbor_offset(n)) == g);
            assert(hands_over(pushes, pulls, size, g, q));
            assert(r == cell_at(cells, size, q));
        }
    }
}

/// The movement step moves contents only along matched pairs: a cell ends
/// up with other content than it had only by taking the content of a cell
/// that it handed its own over to (its push target, whose pull named it) or
/// of a cell that handed its content over to it (a neighbour pushing into it
/// whose push it pulled).
pub proof fn law_movement_follows_hand_overs(
    cells: Seq<Cell>,
    pushes: Seq<IVec2>,
    pulls: Seq<[bool; 8]>,
    size: IVec2,
    g: IVec2,
)
    requires
        has_neighbor_coords(g),
    ensures
        ({
            let r = move_spec(cells, pushes, pulls, size, g);
            ||| r == cell_at(cells, size, g)
            ||| exists|q: IVec2|
                (hands_over(pushes, pulls, size, g, q) || hands_over(pushes, pulls, size, q, g))
                    && r == #[trigger] cell_at(cells, size, q)
        }),
{
    lemma_move_upto_follows_hand_overs(cells, pushes, pulls, size, g, 8);
}

proof fn lemma_hand_over_takes_target(
    cells: Seq<Cell>,
    pushes: Seq<IVec2>,
    pulls: Seq<[bool; 8]>,
    size: IVec2,
    g: IVec2,
    q: IVec2,
    k: int,
)
    requires
        has_neighbor_coords(g),
        world_ok(pushes, size),
        pushes_small(pushes),
        hands_over(pushes, pulls, size, g, q),
        forall|n: int| 0 <= n < 8 ==> !#[trigger] pull_flag(pulls, size, g, n),
        0 <= k <= 8,
    ensures
        move_upto(cells, pushes, pulls, size, g, k) == if exists|n: int|
            0 <= n < k && #[trigger] pull_flag(pulls, size, q, n) && plus(q, neighbor_offset(n)) == g {
            cell_at(cells, size, q)
        } else {
            cell_at(cells, size, g)
        },
    decreases k,
{
    if k > 0 {
        let n = k - 1;
        lemma_hand_over_takes_target(cells, pushes, pulls, size, g, q, n);
        let cp = push_at(pushes, size, g);
        assert(!pull_flag(pulls, size, g, n));
        assert(-1 <= cp.x <= 1 && -1 <= cp.y <= 1) by {
            if crate::grid::in_world(g, size) {
                crate::grid::lemma_index_of_position(g, size);
                assert(pushes_small(pushes));
            }
        }
        assert(plus(q, neighbor_offset(n)) == g <==> cp == neg(neighbor_offset(n)));
    }
}

/// A cell that pulls from nobody and hands its content over to its push
/// target takes the target's content: the two swap.
pub proof fn law_hand_over_takes_target(
    cells: Seq<Cell>,
    pushes: Seq<IVec2>,
    pulls: Seq<[bool; 8]>,
    size: IVec2,
    g: IVec2,
    q: IVec2,
)
    requires
        has_neighbor_coords(g),
        world_ok(pushes, size),
        pushes_small(pushes),
        hands_over(pushes, pulls, size, g, q),
        forall|n: int| 0 <= n < 8 ==> !#[trigger] pull_flag(pulls, size, g, n),
    ensures
        move_spec(cells, pushes, pulls, size, g) == cell_at(cells, size, q),
{
    lemma_hand_over_takes_target(cells, pushes, pulls, size, g, q, 8);
}

/// Water with something hot among its neighbours boils: whatever neighbour
/// it is, the transmutation step leaves steam, or water when the steam
/// condenses at once.
pub proof fn law_water_next_to_heat_boils(cells: Seq<Cell>, size: IVec2, g: IVec2, n: int, condensed: bool)
    requires
        0 <= n < 8,
        cell_at(cells, size, g) == Cell::Water,
        spec_is_hot(cell_at(cells, size, plus(g, neighbor_offset(n)))),
    ensures
        quenched(cells, size, g) == Cell::Steam,
        trans_spec(cells, size, g, condensed) == if condensed { Cell::Water } else { Cell::Steam },
{
}

/// Lava with water among its neighbours sets: whatever neighbour it is, the
/// transmutation step leaves stone.
pub proof fn law_lava_next_to_water_sets(cells: Seq<Cell>, size: IVec2, g: IVec2, n: int, condensed: bool)
    requires
        0 <= n < 8,
        cell_at(cells, size, g) == Cell::Lava,
        cell_at(cells, size, plus(g, neighbor_offset(n))) == Cell::Water,
    ensures
        quenched(cells, size, g) == Cell::Stone,
        trans_spec(cells, size, g, condensed) == Cell::Stone,
{
}

/// The transmutation step changes a cell only by boiling water that has a
/// hot neighbour, setting lava that has a water neighbour, or condensing
/// steam (old or just boiled) when the draw says so.
pub proof fn law_transmutation_changes_only_by_the_rules(
    cells: Seq<Cell>,
    size: IVec2,
    g: IVec2,
    condensed: bool,
)
    ensures
        ({
            let c = cell_at(cells, size, g);
            let r = trans_spec(cells, size, g, condensed);
            let hot_near = exists|n: int|
                0 <= n < 8 && #[trigger] spec_is_hot(cell_at(cells, size, plus(g, neighbor_offset(n))));
            let water_near = exists|n: int|
                0 <= n < 8 && #[trigger] cell_at(cells, size, plus(g, neighbor_offset(n))) == Cell::Water;
            ||| r == c
            ||| c == Cell::Water && hot_near && r == Cell::Steam && !condensed
            ||| c == Cell::Lava && water_near && r == Cell::Stone
            ||| c == Cell::Steam && condensed && r == Cell::Water
        }),
{
}

proof fn lemma_pull_takes_neighbor(
    cells: Seq<Cell>,
    pushes: Seq<IVec2>,
    pulls: Seq<[bool; 8]>,
    size: IVec2,
    g: IVec2,
    n: int,
    k: int,
)
    requires
        has_neighbor_coords(g),
        0 <= n < 8,
        push_at(pushes, size, g) == vec_at(0, 0),
        pull_flag(pulls, size, g, n),
        pushes_into(pushes, size, g, n),
        forall|m: int| 0 <= m < 8 && m != n ==> !#[trigger] pull_flag(pulls, size, g, m),
        0 <= k <= 8,
    ensures
        move_upto(cells, pushes, pulls, size, g, k) == if n < k {
            cell_at(cells, size, plus(g, neighbor_offset(n)))
        } else {
            cell_at(cells, size, g)
        },
    decreases k,
{
    if k > 0 {
        lemma_pull_takes_neighbor(cells, pushes, pulls, size, g, n, k - 1);
        assert(neg(neighbor_offset(k - 1)) != vec_at(0, 0));
    }
}

/// A cell that stays put and pulls from exactly one neighbour that pushes
/// into it takes that neighbour's content.
pub proof fn law_pull_takes_neighbor(
    cells: Seq<Cell>,
    pushes: Seq<IVec2>,
    pulls: Seq<[bool; 8]>,
    size: IVec2,
    g: IVec2,
    n: int,
)
    requires
        has_neighbor_coords(g),
        0 <= n < 8,
        push_at(pushes, size, g) == vec_at(0, 0),
        pull_flag(pulls, size, g, n),
        pushes_into(pushes, size, g, n),
        forall|m: int| 0 <= m < 8 && m != n ==> !#[trigger] pull_flag(pulls, size, g, m),
    ensures
        move_spec(cells, pushes, pulls, size, g) == cell_at(cells, size, plus(g, neighbor_offset(n))),
{
    lemma_pull_takes_neighbor(cells, pushes, pulls, size, g, n, 8);
}

} // verus!
