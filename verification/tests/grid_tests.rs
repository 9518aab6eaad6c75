use hex_grid::coords::HexPosition;
use hex_grid::grid::{HexWorld, OutsideMapError, Tile, cell_count, hex_coordinates};

#[test]
fn cell_counts_follow_formula() {
    // 3 * radius * (radius - 1) + 1
    assert_eq!(cell_count(1), 1);
    assert_eq!(cell_count(2), 7);
    assert_eq!(cell_count(3), 19);
    assert_eq!(cell_count(10), 271);
    assert_eq!(hex_coordinates(1).len(), 1);
    assert_eq!(hex_coordinates(2).len(), 7);
    assert_eq!(hex_coordinates(3).len(), 19);
}

#[test]
fn coordinate_enumeration_radius_2() {
    let coords = hex_coordinates(2);
    let expected = [(0, -1), (1, -1), (-1, 0), (0, 0), (1, 0), (-1, 1), (0, 1)];
    assert_eq!(coords.len(), expected.len());
    for (c, &(q, r)) in coords.iter().zip(expected.iter()) {
        assert_eq!(*c, HexPosition::new(q, r));
    }
}

#[test]
fn new_map_is_uniform() {
    let world = HexWorld::new(2, Tile::Water);
    assert_eq!(world.size(), 2);
    for c in hex_coordinates(2) {
        assert!(matches!(world.tile_at(c), Ok(Tile::Water)));
    }
}

#[test]
fn set_then_get_returns_new_kind() {
    let mut world = HexWorld::new(3, Tile::Water);
    let pos = HexPosition::new(1, -2);
    assert!(world.set_tile(pos, Tile::Ground).is_ok());
    assert!(matches!(world.tile_at(pos), Ok(Tile::Ground)));
}

#[test]
fn out_of_bounds_leaves_map_unchanged() {
    let mut world = HexWorld::new(2, Tile::Water);
    let bad = HexPosition::new(100, 100);
    assert!(matches!(world.tile_at(bad), Err(OutsideMapError)));
    assert!(matches!(world.set_tile(bad, Tile::Ground), Err(OutsideMapError)));
    // Every tile still holds its old kind and nothing was enqueued.
    for c in hex_coordinates(2) {
        assert!(matches!(world.tile_at(c), Ok(Tile::Water)));
    }
    assert!(world.flush_changes().is_empty());
}

#[test]
fn edge_of_map_is_exact() {
    let world = HexWorld::new(2, Tile::Water);
    // Valid corners of the radius-2 hexagon.
    for &(q, r) in [(1, -1), (1, 0), (0, 1), (-1, 1), (-1, 0), (0, -1)].iter() {
        assert!(world.tile_at(HexPosition::new(q, r)).is_ok());
    }
    // Just outside.
    for &(q, r) in [(2, -1), (2, 0), (1, 1), (-2, 1), (-2, 0), (-1, -1), (0, 2), (0, -2)].iter() {
        assert!(world.tile_at(HexPosition::new(q, r)).is_err());
    }
}

#[test]
fn flush_returns_changes_in_order() {
    let mut world = HexWorld::new(2, Tile::Water);
    let a = HexPosition::new(0, 0);
    let b = HexPosition::new(1, -1);
    assert!(world.set_tile(a, Tile::Ground).is_ok());
    assert!(world.set_tile(b, Tile::Ground).is_ok());
    assert!(world.set_tile(a, Tile::Water).is_ok());
    let changes = world.flush_changes();
    assert_eq!(changes.len(), 3);
    assert_eq!(changes[0].position, a);
    assert_eq!(changes[0].old_tile, Tile::Water);
    assert_eq!(changes[0].new_tile, Tile::Ground);
    assert_eq!(changes[1].position, b);
    assert_eq!(changes[1].old_tile, Tile::Water);
    assert_eq!(changes[1].new_tile, Tile::Ground);
    assert_eq!(changes[2].position, a);
    assert_eq!(changes[2].old_tile, Tile::Ground);
    assert_eq!(changes[2].new_tile, Tile::Water);
    // A second immediate flush returns nothing.
    assert!(world.flush_changes().is_empty());
}

#[test]
fn rewriting_the_same_kind_is_recorded() {
    let mut world = HexWorld::new(1, Tile::Ground);
    let center = HexPosition::new(0, 0);
    assert!(world.set_tile(center, Tile::Ground).is_ok());
    let changes = world.flush_changes();
    assert_eq!(changes.len(), 1);
    assert_eq!(changes[0].old_tile, Tile::Ground);
    assert_eq!(changes[0].new_tile, Tile::Ground);
}
