use simulation::texture::texture_coord;
use simulation::Cell;

const ALL: [Cell; 7] = [
    Cell::Barrier,
    Cell::Air,
    Cell::Sand,
    Cell::Stone,
    Cell::Water,
    Cell::Lava,
    Cell::Steam,
];

#[test]
fn codes_round_trip() {
    for (i, cell) in ALL.iter().enumerate() {
        assert_eq!(cell.to_u8(), i as u8);
        assert_eq!(Cell::try_from(cell.to_u8()), Ok(*cell));
    }
    assert_eq!(Cell::NUM_OF_TYPES, 7);
}

#[test]
fn unknown_code_is_refused() {
    assert_eq!(Cell::try_from(7), Err(()));
    assert_eq!(Cell::try_from(255), Err(()));
}

#[test]
fn densities() {
    let expected = [0, 1, 3, 0, 2, 2, 0];
    for (cell, d) in ALL.iter().zip(expected.iter()) {
        assert_eq!(cell.density(), *d);
    }
}

#[test]
fn movement_properties() {
    for cell in ALL.iter() {
        let solid = *cell == Cell::Barrier || *cell == Cell::Stone;
        assert_eq!(cell.is_falling(), !solid);
        assert_eq!(cell.is_piling(), !solid);
        assert_eq!(cell.is_spreading(), !solid && *cell != Cell::Sand);
    }
}

#[test]
fn liquids_and_heat() {
    for cell in ALL.iter() {
        assert_eq!(cell.is_liquid(), *cell == Cell::Water || *cell == Cell::Lava);
        assert_eq!(cell.is_hot(), *cell == Cell::Lava);
    }
}

#[test]
fn only_lava_is_viscous() {
    for cell in ALL.iter() {
        if *cell == Cell::Lava {
            assert_eq!(cell.fluidity(), (1, 10));
        } else {
            assert_eq!(cell.fluidity(), (1, 1));
        }
    }
}

#[test]
fn texture_coordinates_repeat_and_liquids_scroll() {
    assert_eq!(texture_coord(33, Cell::Sand, 8), (1, 1));
    assert_eq!(texture_coord(17, Cell::Sand, 8), (1, 0));
    assert_eq!(texture_coord(0, Cell::Water, 8), (2, 0));
    assert_eq!(texture_coord(33, Cell::Water, 8), (15, 1));
    assert_eq!(texture_coord(33, Cell::Lava, 3), (1, 1));
    assert_eq!(texture_coord(1023, Cell::Lava, 64 + 4), (14, 15));
}
