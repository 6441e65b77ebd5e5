use vstd::prelude::*;
use vstd::arithmetic::div_mod::{lemma_fundamental_div_mod, lemma_fundamental_div_mod_converse};
use vstd::arithmetic::mul::lemma_mul_inequality;
use crate::vec2::IVec2;
use crate::world::Simulation;

verus! {

/// Division that rounds toward zero, as `/` does on Rust's signed integers,
/// for a positive divisor.
pub open spec fn tdiv(a: int, b: int) -> int {
    if a >= 0 {
        a / b
    } else {
        -((-a) / b)
    }
}

/// The remainder that goes with `tdiv`, as `%` gives on Rust's signed integers.
pub open spec fn trem(a: int, b: int) -> int {
    if a >= 0 {
        a % b
    } else {
        -((-a) % b)
    }
}

/// The side of a square chunk, in cells.
pub open spec fn chunk_side() -> int {
    32
}

/// The number of cells in a chunk.
pub open spec fn chunk_cells() -> int {
    1024
}

/// A world size that the simulation accepts: both sides are non-negative
/// multiples of the chunk side and the cell count fits in an `i32`.
pub open spec fn valid_world_size(size: IVec2) -> bool {
    &&& size.x >= 0
    &&& size.y >= 0
    &&& size.x % 32 == 0
    &&& size.y % 32 == 0
    &&& size.x * size.y <= i32::MAX
}

/// The number of cells in a world of the given size.
pub open spec fn world_cells(size: IVec2) -> int {
    size.x * size.y
}

/// Whether `p` lies inside a world of the given size.
pub open spec fn in_world(p: IVec2, size: IVec2) -> bool {
    0 <= p.x < size.x && 0 <= p.y < size.y
}

/// The index of the chunk that holds `p`, chunks being numbered row by row.
pub open spec fn chunk_index_of(p: IVec2, size: IVec2) -> int {
    tdiv(p.y as int, 32) * tdiv(size.x as int, 32) + tdiv(p.x as int, 32)
}

/// The index of `p` inside its chunk, cells being numbered row by row.
pub open spec fn local_index_of(p: IVec2) -> int {
    trem(p.y as int, 32) * 32 + trem(p.x as int, 32)
}

/// The buffer index that `global_coords_to_index` computes for `p`: the
/// chunk's cells come one chunk after the other, each chunk row by row.
pub open spec fn global_index(p: IVec2, size: IVec2) -> int {
    (chunk_index_of(p, size) as usize) * 1024 + (local_index_of(p) as usize)
}

/// The computation of `global_index` overflows nowhere.
pub open spec fn global_index_defined(p: IVec2, size: IVec2) -> bool {
    &&& i32::MIN <= tdiv(p.y as int, 32) * tdiv(size.x as int, 32) <= i32::MAX
    &&& i32::MIN <= chunk_index_of(p, size) <= i32::MAX
    &&& global_index(p, size) <= usize::MAX
}

/// The buffer index of a cell inside a world of a valid size.
pub open spec fn cell_index(p: IVec2, size: IVec2) -> int {
    ((p.y / 32) * (size.x / 32) + p.x / 32) * 1024 + (p.y % 32) * 32 + p.x % 32
}

/// The position of the cell stored at buffer index `i`: the inverse of `cell_index`.
pub open spec fn cell_coord(i: int, size: IVec2) -> IVec2 {
    let cw = size.x / 32;
    let c = i / 1024;
    let l = i % 1024;
    IVec2 { x: ((c % cw) * 32 + l % 32) as i32, y: ((c / cw) * 32 + l / 32) as i32 }
}

/// Maps a coordinate on a grid that is `grid_size.x` wide to its row-major index.
pub fn map_2d_to_1d(coord: IVec2, grid_size: IVec2) -> (r: usize)
    requires
        i32::MIN <= coord.y * grid_size.x <= i32::MAX,
        i32::MIN <= coord.y * grid_size.x + coord.x <= i32::MAX,
    ensures
        r == (coord.y * grid_size.x + coord.x) as usize,
{
    (coord.y * grid_size.x + coord.x) as usize
}

/// Maps a row-major index on a grid that is `grid_size.x` wide to its coordinate.
pub fn map_1d_to_2d(index: usize, grid_size: IVec2) -> (r: IVec2)
    requires
        grid_size.x > 0,
    ensures
        r.x == trem((index as i32) as int, grid_size.x as int),
        r.y == tdiv((index as i32) as int, grid_size.x as int),
{
    let i = index as i32;
    IVec2 { x: i % grid_size.x, y: i / grid_size.x }
}

/// The buffer index of the cell at `global_coord` in a world of size `world_size`.
pub fn global_coords_to_index(global_coord: IVec2, world_size: IVec2) -> (r: usize)
    requires
        global_index_defined(global_coord, world_size),
    ensures
        r == global_index(global_coord, world_size),
{
    let side = Simulation::CHUNK_SIZE as i32;
    let chunk_coord = IVec2 { x: global_coord.x / side, y: global_coord.y / side };
    let chunks_xy = IVec2 { x: world_size.x / side, y: world_size.y / side };
    let chunk_index = map_2d_to_1d(chunk_coord, chunks_xy);
    let local_coord = IVec2 { x: global_coord.x % side, y: global_coord.y % side };
    let local_index = map_2d_to_1d(local_coord, IVec2 { x: side, y: side });
    chunk_index * Simulation::CELLS_PER_CHUNK + local_index
}

/// Inside a world of a valid size, `global_index` is defined, agrees with
/// `cell_index`, lies below the cell count and is undone by `cell_coord`.
pub proof fn lemma_index_of_position(p: IVec2, size: IVec2)
    requires
        valid_world_size(size),
        in_world(p, size),
    ensures
        global_index_defined(p, size),
        global_index(p, size) == cell_index(p, size),
        0 <= cell_index(p, size) < world_cells(size),
        cell_coord(cell_index(p, size), size) == p,
{
    let x = p.x as int;
    let y = p.y as int;
    let cw = size.x / 32;
    let ch = size.y / 32;
    let cx = x / 32;
    let cy = y / 32;
    let lx = x % 32;
    let ly = y % 32;
    lemma_fundamental_div_mod(x, 32);
    lemma_fundamental_div_mod(y, 32);
    lemma_fundamental_div_mod(size.x as int, 32);
    lemma_fundamental_div_mod(size.y as int, 32);
    assert(0 <= cx < cw);
    assert(0 <= cy < ch);
    lemma_mul_inequality(cy, ch - 1, cw);
    assert(cy * cw <= (ch - 1) * cw);
    assert((ch - 1) * cw == ch * cw - cw) by (nonlinear_arith);
    let chunk = cy * cw + cx;
    assert(0 <= cy * cw) by (nonlinear_arith)
        requires 0 <= cy, 0 <= cw;
    assert(0 <= chunk < ch * cw);
    assert(size.x * size.y == (cw * ch) * 1024) by (nonlinear_arith)
        requires size.x == 32 * cw, size.y == 32 * ch;
    assert(ch * cw == cw * ch) by (nonlinear_arith);
    let local = ly * 32 + lx;
    assert(0 <= local < 1024);
    let i = chunk * 1024 + local;
    assert(i < world_cells(size));
    assert(tdiv(x, 32) == cx);
    assert(tdiv(size.x as int, 32) == cw);
    assert(chunk_index_of(p, size) == chunk);
    assert(local_index_of(p) == local);
    assert(global_index(p, size) == i);
    assert(cell_index(p, size) == i);
    // the inverse
    lemma_fundamental_div_mod_converse(i, 1024, chunk, local);
    if cw > 0 {
        lemma_fundamental_div_mod_converse(chunk, cw, cy, cx);
    }
    lemma_fundamental_div_mod_converse(local, 32, ly, lx);
}

/// Every buffer index below the cell count of a world of a valid size is the
/// index of exactly the position that `cell_coord` gives back.
pub proof fn lemma_position_of_index(i: int, size: IVec2)
    requires
        valid_world_size(size),
        0 <= i < world_cells(size),
    ensures
        in_world(cell_coord(i, size), size),
        cell_index(cell_coord(i, size), size) == i,
{
    let cw = size.x / 32;
    let ch = size.y / 32;
    lemma_fundamental_div_mod(size.x as int, 32);
    lemma_fundamental_div_mod(size.y as int, 32);
    assert(size.x * size.y == (cw * ch) * 1024) by (nonlinear_arith)
        requires size.x == 32 * cw, size.y == 32 * ch;
    let c = i / 1024;
    let l = i % 1024;
    lemma_fundamental_div_mod(i, 1024);
    assert(0 <= l < 1024);
    assert(c < cw * ch) by (nonlinear_arith)
        requires i == 1024 * c + l, 0 <= l, i < (cw * ch) * 1024;
    assert(0 <= c);
    assert(cw > 0) by (nonlinear_arith)
        requires c < cw * ch, 0 <= c, ch >= 0, cw >= 0;
    let cx = c % cw;
    let cy = c / cw;
    lemma_fundamental_div_mod(c, cw);
    assert(0 <= cx < cw);
    assert(0 <= cy);
    assert(cy < ch) by (nonlinear_arith)
        requires c == cw * cy + cx, 0 <= cx, c < cw * ch, cw > 0;
    let lx = l % 32;
    let ly = l / 32;
    lemma_fundamental_div_mod(l, 32);
    assert(0 <= lx < 32 && 0 <= ly < 32);
    let x = cx * 32 + lx;
    let y = cy * 32 + ly;
    assert(x < size.x) by (nonlinear_arith)
        requires x == cx * 32 + lx, lx < 32, cx < cw, size.x == 32 * cw;
    assert(y < size.y) by (nonlinear_arith)
        requires y == cy * 32 + ly, ly < 32, cy < ch, size.y == 32 * ch;
    let q = cell_coord(i, size);
    assert(q.x == x && q.y == y);
    lemma_fundamental_div_mod_converse(x, 32, cx, lx);
    lemma_fundamental_div_mod_converse(y, 32, cy, ly);
    assert(cy * cw + cx == c) by (nonlinear_arith)
        requires c == cw * cy + cx;
}

/// The number of chunks of a world of the given size.
pub open spec fn chunk_count(size: IVec2) -> int {
    (size.x / 32) * (size.y / 32)
}

/// A world of a valid size holds one chunk's worth of cells per chunk.
pub proof fn lemma_chunk_count(size: IVec2)
    requires
        valid_world_size(size),
    ensures
        world_cells(size) == chunk_count(size) * 1024,
        0 <= chunk_count(size) <= world_cells(size),
{
    let cw = size.x / 32;
    let ch = size.y / 32;
    lemma_fundamental_div_mod(size.x as int, 32);
    lemma_fundamental_div_mod(size.y as int, 32);
    assert(size.x * size.y == (cw * ch) * 1024) by (nonlinear_arith)
        requires size.x == 32 * cw, size.y == 32 * ch;
    assert(0 <= cw * ch) by (nonlinear_arith)
        requires 0 <= cw, 0 <= ch;
}

/// The cell that is number `local` of chunk number `chunk` lies at the
/// chunk's coordinate times the chunk side plus its local coordinate, and
/// that is the position stored at buffer index `chunk * 1024 + local`.
pub proof fn lemma_chunk_cell(chunk: int, local: int, size: IVec2)
    requires
        valid_world_size(size),
        0 <= chunk < chunk_count(size),
        0 <= local < 1024,
    ensures
        size.x / 32 > 0,
        0 <= chunk * 1024 + local < world_cells(size),
        cell_coord(chunk * 1024 + local, size) == (IVec2 {
            x: ((chunk % (size.x / 32)) * 32 + local % 32) as i32,
            y: ((chunk / (size.x / 32)) * 32 + local / 32) as i32,
        }),
        in_world(cell_coord(chunk * 1024 + local, size), size),
        cell_index(cell_coord(chunk * 1024 + local, size), size) == chunk * 1024 + local,
{
    lemma_chunk_count(size);
    let cw = size.x / 32;
    let ch = size.y / 32;
    assert(cw > 0) by (nonlinear_arith)
        requires 0 <= chunk < cw * ch, cw >= 0, ch >= 0;
    assert(chunk * 1024 + local < world_cells(size)) by (nonlinear_arith)
        requires chunk < cw * ch, local < 1024, world_cells(size) == (cw * ch) * 1024;
    let i = chunk * 1024 + local;
    lemma_fundamental_div_mod_converse(i, 1024, chunk, local);
    lemma_position_of_index(i, size);
}

} // verus!
