use vstd::prelude::*;
use crate::cell::Cell;
use crate::random::random_below;
use crate::vec2::IVec2;

verus! {

/// Decides what a new world holds: the cell at `position` of a world of size `size`.
pub trait WorldGenerator {
    fn gen_cell(&self, position: IVec2, size: IVec2) -> Cell;
}

/// Fills the world with air.
pub struct EmptyWorldGenerator {}

impl EmptyWorldGenerator {
    pub fn new() -> (r: Self) {
        return Self {};
    }
}

impl WorldGenerator for EmptyWorldGenerator {
    fn gen_cell(&self, _position: IVec2, _size: IVec2) -> (r: Cell)
        ensures
            r == Cell::Air,
    {
        return Cell::Air;
    }
}

/// Fills every cell with a kind drawn by chance among air, sand, stone,
/// water, lava and steam.
pub struct RandomWorldGenerator {}

/// The kind of cell that a draw of `roll` among six stands for.
pub open spec fn cell_for_roll_spec(roll: u32) -> Cell {
    if roll == 0 {
        Cell::Air
    } else if roll == 1 {
        Cell::Sand
    } else if roll == 2 {
        Cell::Stone
    } else if roll == 3 {
        Cell::Water
    } else if roll == 4 {
        Cell::Lava
    } else if roll == 5 {
        Cell::Steam
    } else {
        Cell::Air
    }
}

impl RandomWorldGenerator {
    pub fn new() -> (r: Self) {
        return Self {};
    }

    /// The kind of cell that a draw of `roll` among six stands for.
    pub fn cell_for_roll(roll: u32) -> (r: Cell)
        ensures
            r == cell_for_roll_spec(roll),
    {
        match roll {
            0 => Cell::Air,
            1 => Cell::Sand,
            2 => Cell::Stone,
            3 => Cell::Water,
            4 => Cell::Lava,
            5 => Cell::Steam,
            _ => Cell::Air,
        }
    }
}

impl WorldGenerator for RandomWorldGenerator {
    fn gen_cell(&self, _position: IVec2, _size: IVec2) -> (r: Cell)
        ensures
            exists|roll: u32| roll < 6 && r == cell_for_roll_spec(roll),
    {
        let roll = random_below(6);
        let r = Self::cell_for_roll(roll);
        assert(roll < 6 && r == cell_for_roll_spec(roll));
        r
    }
}

} // verus!
