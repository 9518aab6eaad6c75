//! A hexagonal tile map: axial coordinates for pointy-top cells with exact
//! planar conversion, a dense hexagon-shaped tile store with bounds-checked
//! reads and writes, a change queue that decouples writes from presentation,
//! and independent views that keep per-cell visibility in sync with the map.

pub mod coords;
pub mod dispatch;
pub mod grid;
pub mod view;
