use hex_grid::coords::{HexPosition, PlanarPoint};

#[test]
fn center_of_origin() {
    let c = HexPosition::new(0, 0);
    let p = c.center_2d();
    assert_eq!(p, PlanarPoint { x_num: 0, y_num: 0, denom: 2 });
}

#[test]
fn center_of_unit_cells() {
    // (1, 0): x = sqrt(3), y = 0, so x_num/denom = 1.
    let p = HexPosition::new(1, 0).center_2d();
    assert_eq!(p, PlanarPoint { x_num: 2, y_num: 0, denom: 2 });
    // (0, 1): x = sqrt(3)/2, y = 1.5.
    let p = HexPosition::new(0, 1).center_2d();
    assert_eq!(p, PlanarPoint { x_num: 1, y_num: 3, denom: 2 });
    // (0, -2): x = -sqrt(3), y = -3.
    let p = HexPosition::new(0, -2).center_2d();
    assert_eq!(p, PlanarPoint { x_num: -2, y_num: -6, denom: 2 });
}

#[test]
fn round_trip_on_centers() {
    let samples = [
        (0, 0),
        (1, 0),
        (0, 1),
        (-1, 0),
        (0, -1),
        (1, -1),
        (-1, 1),
        (5, -3),
        (-14, 14),
        (100, -250),
        (-1000, 999),
    ];
    for &(q, r) in samples.iter() {
        let c = HexPosition::new(q, r);
        assert_eq!(HexPosition::from_2d(c.center_2d()), c);
    }
}

#[test]
fn from_2d_snaps_nearby_point() {
    // (0.95, 0.1) in (sqrt(3)-units, plain units) lies near the center of
    // (1, 0), which is (1.0, 0.0).
    let p = PlanarPoint { x_num: 19, y_num: 2, denom: 20 };
    assert_eq!(HexPosition::from_2d(p), HexPosition::new(1, 0));
}

#[test]
fn from_2d_restores_cube_constraint() {
    // Fractional axial coordinates (0.4, 0.4) round axis-by-axis to
    // (0, 0, -1), which violates q + r + s == 0; the axis with the largest
    // error among r and s is recomputed, yielding (0, 1).
    let p = PlanarPoint { x_num: 3, y_num: 3, denom: 5 };
    assert_eq!(HexPosition::from_2d(p), HexPosition::new(0, 1));
}

#[test]
fn from_2d_rounds_halves_away_from_zero() {
    // The point (0.5, 0) has fractional axial coordinates (0.5, 0, -0.5):
    // q and s round away from zero to 1 and -1, the sum stays 0, and no
    // axis needs correction, so the result is (1, 0).
    let p = PlanarPoint { x_num: 1, y_num: 0, denom: 2 };
    assert_eq!(HexPosition::from_2d(p), HexPosition::new(1, 0));
}
