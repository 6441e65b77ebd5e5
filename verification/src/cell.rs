use vstd::prelude::*;

verus! {

/// The material that fills one cell of the world.
#[derive(Clone, Copy, Debug, PartialEq, Eq, Structural)]
pub enum Cell {
    Barrier,
    Air,
    Sand,
    Stone,
    Water,
    Lava,
    Steam,
}

/// The byte that stands for `c` in saved worlds: its position in the list of kinds.
pub open spec fn cell_code(c: Cell) -> u8 {
    match c {
        Cell::Barrier => 0,
        Cell::Air => 1,
        Cell::Sand => 2,
        Cell::Stone => 3,
        Cell::Water => 4,
        Cell::Lava => 5,
        Cell::Steam => 6,
    }
}

/// The kind whose code is `b`, if there is one.
pub open spec fn cell_of_code(b: u8) -> Option<Cell> {
    if b == 0 {
        Some(Cell::Barrier)
    } else if b == 1 {
        Some(Cell::Air)
    } else if b == 2 {
        Some(Cell::Sand)
    } else if b == 3 {
        Some(Cell::Stone)
    } else if b == 4 {
        Some(Cell::Water)
    } else if b == 5 {
        Some(Cell::Lava)
    } else if b == 6 {
        Some(Cell::Steam)
    } else {
        None
    }
}

pub open spec fn spec_is_liquid(c: Cell) -> bool {
    c == Cell::Water || c == Cell::Lava
}

pub open spec fn spec_is_hot(c: Cell) -> bool {
    c == Cell::Lava
}

pub open spec fn spec_density(c: Cell) -> i32 {
    match c {
        Cell::Barrier => 0,
        Cell::Air => 1,
        Cell::Sand => 3,
        Cell::Stone => 0,
        Cell::Water => 2,
        Cell::Lava => 2,
        Cell::Steam => 0,
    }
}

pub open spec fn spec_is_falling(c: Cell) -> bool {
    !(c == Cell::Barrier || c == Cell::Stone)
}

pub open spec fn spec_is_piling(c: Cell) -> bool {
    !(c == Cell::Barrier || c == Cell::Stone)
}

pub open spec fn spec_is_spreading(c: Cell) -> bool {
    !(c == Cell::Barrier || c == Cell::Stone || c == Cell::Sand)
}

/// A cell that neither falls, piles nor spreads: nothing ever moves it.
pub open spec fn is_immovable(c: Cell) -> bool {
    !spec_is_falling(c) && !spec_is_piling(c) && !spec_is_spreading(c)
}

impl Cell {
    /// The number of kinds of cell.
    pub const NUM_OF_TYPES: usize = 7;

    /// The kind of cell whose code is `value`, or an error for a byte that
    /// names no kind.
    pub fn try_from(value: u8) -> (r: Result<Cell, ()>)
        ensures
            r matches Ok(c) ==> cell_of_code(value) == Some(c),
            r is Err <==> cell_of_code(value) is None,
    {
        match value {
            0 => Ok(Cell::Barrier),
            1 => Ok(Cell::Air),
            2 => Ok(Cell::Sand),
            3 => Ok(Cell::Stone),
            4 => Ok(Cell::Water),
            5 => Ok(Cell::Lava),
            6 => Ok(Cell::Steam),
            _ => Err(()),
        }
    }

    /// The code of this kind of cell, as saved worlds store it.
    pub fn to_u8(&self) -> (r: u8)
        ensures
            r == cell_code(*self),
    {
        match self {
            Cell::Barrier => 0,
            Cell::Air => 1,
            Cell::Sand => 2,
            Cell::Stone => 3,
            Cell::Water => 4,
            Cell::Lava => 5,
            Cell::Steam => 6,
        }
    }

    pub fn is_liquid(&self) -> (r: bool)
        ensures
            r == spec_is_liquid(*self),
    {
        match self {
            Self::Water => true,
            Self::Lava => true,
            _ => false,
        }
    }

    /// The chance, as a numerator and a denominator, that a cell of this kind
    /// keeps moving in a tick: one minus its viscosity (lava is nine tenths viscous).
    pub fn fluidity(&self) -> (r: (u32, u32))
        ensures
            r == spec_fluidity(*self),
    {
        match self {
            Self::Lava => (1, 10),
            _ => (1, 1),
        }
    }

    pub fn is_hot(&self) -> (r: bool)
        ensures
            r == spec_is_hot(*self),
    {
        match self {
            Self::Lava => true,
            _ => false,
        }
    }

    pub fn density(&self) -> (r: i32)
        ensures
            r == spec_density(*self),
    {
        match self {
            Cell::Barrier => 0,
            Cell::Air => 1,
            Cell::Sand => 3,
            Cell::Stone => 0,
            Cell::Water => 2,
            Cell::Lava => 2,
            Cell::Steam => 0,
        }
    }

    pub fn is_falling(&self) -> (r: bool)
        ensures
            r == spec_is_falling(*self),
    {
        match self {
            Cell::Barrier => false,
            Cell::Air => true,
            Cell::Sand => true,
            Cell::Stone => false,
            Cell::Water => true,
            Cell::Lava => true,
            Cell::Steam => true,
        }
    }

    pub fn is_piling(&self) -> (r: bool)
        ensures
            r == spec_is_piling(*self),
    {
        match self {
            Cell::Barrier => false,
            Cell::Air => true,
            Cell::Sand => true,
            Cell::Stone => false,
            Cell::Water => true,
            Cell::Lava => true,
            Cell::Steam => true,
        }
    }

    pub fn is_spreading(&self) -> (r: bool)
        ensures
            r == spec_is_spreading(*self),
    {
        match self {
            Cell::Barrier => false,
            Cell::Air => true,
            Cell::Sand => false,
            Cell::Stone => false,
            Cell::Water => true,
            Cell::Lava => true,
            Cell::Steam => true,
        }
    }
}

pub open spec fn spec_fluidity(c: Cell) -> (u32, u32) {
    if c == Cell::Lava {
        (1u32, 10u32)
    } else {
        (1u32, 1u32)
    }
}

} // verus!
