use hex_grid::coords::HexPosition;
use hex_grid::dispatch::ChangeDispatcher;
use hex_grid::grid::{HexWorld, Tile, TileChangedEvent, hex_coordinates};
use hex_grid::view::{TileVisibility, ViewSyncError, WorldView};

fn full_view(world: &HexWorld, primary: bool) -> WorldView {
    let radius = world.size();
    let n = hex_coordinates(radius).len();
    let handles: Vec<u64> = (0..n as u64).collect();
    world.make_view(radius, &handles, primary)
}

#[test]
fn make_view_pairs_handles_in_order() {
    let world = HexWorld::new(2, Tile::Water);
    let handles: Vec<u64> = (10..17).collect();
    let view = world.make_view(2, &handles, true);
    assert!(view.is_primary());
    assert_eq!(view.size(), 2);
    // (0, 0) is the fourth enumerated cell of a radius-2 map.
    assert_eq!(view.lookup(HexPosition::new(0, 0)), Ok(13));
    assert_eq!(view.lookup(HexPosition::new(0, -1)), Ok(10));
    assert_eq!(view.lookup(HexPosition::new(0, 1)), Ok(16));
}

#[test]
fn new_view_matches_initial_tiles() {
    let mut world = HexWorld::new(2, Tile::Water);
    assert!(world.set_tile(HexPosition::new(1, 0), Tile::Ground).is_ok());
    world.flush_changes();
    let view = full_view(&world, false);
    assert_eq!(view.visibility(HexPosition::new(1, 0)), Ok(TileVisibility::Shown));
    assert_eq!(view.visibility(HexPosition::new(0, 0)), Ok(TileVisibility::Hidden));
}

#[test]
fn single_change_scenario() {
    // A radius-2 water map has 7 cells; turning the center to ground
    // produces one record, and a full view shows exactly that cell.
    let mut world = HexWorld::new(2, Tile::Water);
    assert_eq!(hex_coordinates(world.size()).len(), 7);
    let mut view = full_view(&world, true);
    let center = HexPosition::new(0, 0);
    assert!(world.set_tile(center, Tile::Ground).is_ok());
    assert!(matches!(world.tile_at(center), Ok(Tile::Ground)));
    let mut dispatcher = ChangeDispatcher::new();
    dispatcher.dispatch(&mut world);
    assert_eq!(dispatcher.events().len(), 1);
    assert_eq!(
        dispatcher.events()[0],
        TileChangedEvent { old_tile: Tile::Water, new_tile: Tile::Ground, position: center },
    );
    dispatcher.deliver(&mut view);
    for c in hex_coordinates(2) {
        let expected = if c == center { TileVisibility::Shown } else { TileVisibility::Hidden };
        assert_eq!(view.visibility(c), Ok(expected));
    }
}

#[test]
fn view_tracks_every_changed_cell() {
    let mut world = HexWorld::new(3, Tile::Water);
    let mut view = full_view(&world, false);
    // Touch every cell, some twice, ending at ground exactly on cells with
    // even q + r.
    for c in hex_coordinates(3) {
        assert!(world.set_tile(c, Tile::Ground).is_ok());
    }
    for c in hex_coordinates(3) {
        if (c.q + c.r).rem_euclid(2) == 1 {
            assert!(world.set_tile(c, Tile::Water).is_ok());
        }
    }
    let mut dispatcher = ChangeDispatcher::new();
    dispatcher.dispatch(&mut world);
    dispatcher.deliver(&mut view);
    for c in hex_coordinates(3) {
        let expected = match world.tile_at(c).unwrap() {
            Tile::Ground => TileVisibility::Shown,
            Tile::Water => TileVisibility::Hidden,
        };
        assert_eq!(view.visibility(c), Ok(expected));
    }
}

#[test]
fn dispatcher_replaces_stream_each_tick() {
    let mut world = HexWorld::new(2, Tile::Water);
    let mut dispatcher = ChangeDispatcher::new();
    assert!(dispatcher.events().is_empty());
    assert!(world.set_tile(HexPosition::new(0, 0), Tile::Ground).is_ok());
    dispatcher.dispatch(&mut world);
    assert_eq!(dispatcher.events().len(), 1);
    // The next tick had no mutations: nothing carries over.
    dispatcher.dispatch(&mut world);
    assert!(dispatcher.events().is_empty());
}

#[test]
fn partial_view_skips_uncovered_cells() {
    let mut world = HexWorld::new(2, Tile::Water);
    // A radius-1 view covers only the center cell.
    let handles: Vec<u64> = vec![42];
    let mut view = world.make_view(1, &handles, false);
    let outer = HexPosition::new(1, 0);
    assert_eq!(view.lookup(outer), Err(ViewSyncError::MissingViewEntry));
    assert!(world.set_tile(outer, Tile::Ground).is_ok());
    let changes = world.flush_changes();
    assert_eq!(changes.len(), 1);
    assert_eq!(view.on_change(&changes[0], true), Err(ViewSyncError::MissingViewEntry));
    // The covered cell is untouched.
    assert_eq!(view.visibility(HexPosition::new(0, 0)), Ok(TileVisibility::Hidden));
}

#[test]
fn stale_handle_is_skipped_and_kept() {
    let mut world = HexWorld::new(1, Tile::Water);
    let mut view = full_view(&world, false);
    let center = HexPosition::new(0, 0);
    assert!(world.set_tile(center, Tile::Ground).is_ok());
    let changes = world.flush_changes();
    assert_eq!(view.on_change(&changes[0], false), Err(ViewSyncError::StaleHandle));
    // The event was skipped, and the mapping entry is still there.
    assert_eq!(view.visibility(center), Ok(TileVisibility::Hidden));
    assert_eq!(view.lookup(center), Ok(0));
    // Replaying the record with the handle alive applies it.
    assert_eq!(view.on_change(&changes[0], true), Ok(0));
    assert_eq!(view.visibility(center), Ok(TileVisibility::Shown));
}

#[test]
fn independent_views_of_one_map() {
    let mut world = HexWorld::new(2, Tile::Water);
    let mut full = full_view(&world, true);
    let mut partial = world.make_view(1, &vec![7], false);
    let outer = HexPosition::new(-1, 1);
    assert!(world.set_tile(outer, Tile::Ground).is_ok());
    let mut dispatcher = ChangeDispatcher::new();
    dispatcher.dispatch(&mut world);
    dispatcher.deliver(&mut full);
    dispatcher.deliver(&mut partial);
    // The full view applied the change; the partial view's miss did not
    // affect it, nor the partial view's own covered cell.
    assert_eq!(full.visibility(outer), Ok(TileVisibility::Shown));
    assert_eq!(partial.visibility(HexPosition::new(0, 0)), Ok(TileVisibility::Hidden));
}
