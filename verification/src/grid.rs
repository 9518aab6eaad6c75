//! Dense storage for a hexagon-shaped map.
//!
//! A map of radius `R` holds the cells whose axial coordinates satisfy
//! `-(R-1) <= r <= R-1` with, for each row `r`, a span of valid `q` that
//! shifts with the sign of `r` and shrinks away from the middle row.  The
//! rows are packed into one flat array: row `r` starts at `row_offset(R, r)`,
//! the number of cells in all rows before it, and a cell sits at its row's
//! offset plus its distance from the row's least valid `q`.  This mapping is
//! a bijection between the valid coordinates and the array positions
//! `0 .. 3*R*(R-1)+1`, which the lemmas below establish.

use vstd::prelude::*;

use crate::coords::HexPosition;

verus! {

/// The logical state of one tile.
#[derive(Copy, Clone, PartialEq, Eq, Structural, Debug)]
pub enum Tile {
    Ground,
    Water,
}

/// Returned by reads and writes whose coordinate lies outside the map.
#[derive(Copy, Clone, PartialEq, Eq, Structural, Debug)]
pub struct OutsideMapError;

/// An immutable fact describing one completed mutation: which cell changed,
/// what it held before, and what it holds now.
#[derive(Copy, Clone, PartialEq, Eq, Structural, Debug)]
pub struct TileChangedEvent {
    pub old_tile: Tile,
    pub new_tile: Tile,
    pub position: HexPosition,
}

/// Number of cells of a hexagon-shaped map with `radius` rings, the center
/// cell included.
pub open spec fn hex_cell_count(radius: int) -> int {
    3 * radius * (radius - 1) + 1
}

/// Least valid `q` of row `r`.
pub open spec fn row_min_q(radius: int, r: int) -> int {
    if r <= 0 {
        -(radius - 1) - r
    } else {
        -(radius - 1)
    }
}

/// Greatest valid `q` of row `r`.
pub open spec fn row_max_q(radius: int, r: int) -> int {
    if r <= 0 {
        radius - 1
    } else {
        radius - 1 - r
    }
}

/// Whether `(q, r)` addresses a cell of a map with the given radius.
pub open spec fn in_bounds(radius: int, q: int, r: int) -> bool {
    &&& -(radius - 1) <= r <= radius - 1
    &&& row_min_q(radius, r) <= q <= row_max_q(radius, r)
}

/// Number of cells in row `r`.
pub open spec fn row_len(radius: int, r: int) -> int {
    row_max_q(radius, r) - row_min_q(radius, r) + 1
}

/// Number of cells in all rows strictly before row `r`.
pub open spec fn row_offset(radius: int, r: int) -> int
    decreases r + radius,
{
    if radius < 1 || r <= -(radius - 1) {
        0
    } else {
        row_offset(radius, r - 1) + row_len(radius, r - 1)
    }
}

/// The array position of cell `(q, r)`: its row's offset plus its distance
/// from the row's least valid `q`.
pub open spec fn cell_index(radius: int, q: int, r: int) -> int {
    row_offset(radius, r) + q - row_min_q(radius, r)
}

/// Closed form of twice the row offset, used by the executable index
/// computation.
proof fn lemma_row_offset_closed(radius: int, r: int)
    requires
        1 <= radius,
        -(radius - 1) <= r <= radius - 1,
    ensures
        2 * row_offset(radius, r) == if r <= 0 {
            (r + radius - 1) * (r + 3 * radius - 2)
        } else {
            (radius - 1) * (3 * radius - 2) + r * (4 * radius - 1 - r)
        },
    decreases r + radius,
{
    if r == -(radius - 1) {
        assert((r + radius - 1) * (r + 3 * radius - 2) == 0) by (nonlinear_arith)
            requires
                r + radius - 1 == 0,
        ;
    } else {
        lemma_row_offset_closed(radius, r - 1);
        let len = row_len(radius, r - 1);
        assert(row_offset(radius, r) == row_offset(radius, r - 1) + len);
        if r <= 0 {
            assert(len == 2 * radius + r - 2);
            assert((r + radius - 2) * (r + 3 * radius - 3) + 2 * (2 * radius + r - 2) == (r + radius
                - 1) * (r + 3 * radius - 2)) by (nonlinear_arith);
        } else if r == 1 {
            assert(len == 2 * radius - 1);
            assert((radius - 1) * (3 * radius - 2) + 2 * (2 * radius - 1) == (radius - 1) * (3
                * radius - 2) + 1 * (4 * radius - 1 - 1)) by (nonlinear_arith);
        } else {
            assert(len == 2 * radius - r);
            assert((radius - 1) * (3 * radius - 2) + (r - 1) * (4 * radius - r) + 2 * (2 * radius
                - r) == (radius - 1) * (3 * radius - 2) + r * (4 * radius - 1 - r))
                by (nonlinear_arith);
        }
    }
}

/// A row begins no earlier than the start of the array and ends no later
/// than the end of the array.
proof fn lemma_row_within_array(radius: int, r: int)
    requires
        1 <= radius,
        -(radius - 1) <= r <= radius - 1,
    ensures
        0 <= row_offset(radius, r),
        row_offset(radius, r) + row_len(radius, r) <= hex_cell_count(radius),
{
    lemma_row_offset_closed(radius, r);
    if r <= 0 {
        assert(0 <= (r + radius - 1) * (r + 3 * radius - 2) && (r + radius - 1) * (r + 3 * radius
            - 2) + 2 * (2 * radius - 1 + r) <= 2 * (3 * radius * (radius - 1) + 1))
            by (nonlinear_arith)
            requires
                1 <= radius,
                -(radius - 1) <= r <= 0,
        ;
        assert(row_len(radius, r) == 2 * radius - 1 + r);
    } else {
        assert(0 <= (radius - 1) * (3 * radius - 2) + r * (4 * radius - 1 - r) && (radius - 1) * (3
            * radius - 2) + r * (4 * radius - 1 - r) + 2 * (2 * radius - 1 - r) <= 2 * (3 * radius
            * (radius - 1) + 1)) by (nonlinear_arith)
            requires
                1 <= radius,
                0 < r <= radius - 1,
        ;
        assert(row_len(radius, r) == 2 * radius - 1 - r);
    }
}

/// The last row ends exactly at the end of the array: the rows fill it.
proof fn lemma_rows_fill_array(radius: int)
    requires
        1 <= radius,
    ensures
        row_offset(radius, radius - 1) + row_len(radius, radius - 1) == hex_cell_count(radius),
{
    lemma_row_offset_closed(radius, radius - 1);
    if radius == 1 {
        assert(row_offset(1, 0) + row_len(1, 0) == 1);
    } else {
        let r = radius - 1;
        assert((radius - 1) * (3 * radius - 2) + r * (4 * radius - 1 - r) + 2 * (2 * radius - 1 - r)
            == 2 * (3 * radius * (radius - 1) + 1)) by (nonlinear_arith)
            requires
                r == radius - 1,
                1 <= radius,
        ;
    }
}

/// Rows that come earlier in the array end no later than later rows begin.
proof fn lemma_offset_monotone(radius: int, r1: int, r2: int)
    requires
        1 <= radius,
        -(radius - 1) <= r1 < r2 <= radius - 1,
    ensures
        row_offset(radius, r1) + row_len(radius, r1) <= row_offset(radius, r2),
    decreases r2 - r1,
{
    if r2 == r1 + 1 {
        assert(row_offset(radius, r2) == row_offset(radius, r1) + row_len(radius, r1));
    } else {
        lemma_offset_monotone(radius, r1, r2 - 1);
        assert(row_len(radius, r2 - 1) >= 0);
    }
}

/// Law, first part of the bijection: every valid coordinate maps to a
/// position inside its row's span of the array, and so inside the array.
pub proof fn lemma_cell_index_range(radius: int, q: int, r: int)
    requires
        1 <= radius,
        in_bounds(radius, q, r),
    ensures
        row_offset(radius, r) <= cell_index(radius, q, r) < row_offset(radius, r) + row_len(
            radius,
            r,
        ),
        0 <= cell_index(radius, q, r) < hex_cell_count(radius),
{
    lemma_row_within_array(radius, r);
}

/// Law, second part of the bijection: distinct valid coordinates map to
/// distinct array positions.
pub proof fn lemma_cell_index_injective(radius: int, q1: int, r1: int, q2: int, r2: int)
    requires
        1 <= radius,
        in_bounds(radius, q1, r1),
        in_bounds(radius, q2, r2),
        cell_index(radius, q1, r1) == cell_index(radius, q2, r2),
    ensures
        q1 == q2 && r1 == r2,
{
    if r1 < r2 {
        lemma_cell_index_range(radius, q1, r1);
        lemma_cell_index_range(radius, q2, r2);
        lemma_offset_monotone(radius, r1, r2);
    } else if r2 < r1 {
        lemma_cell_index_range(radius, q1, r1);
        lemma_cell_index_range(radius, q2, r2);
        lemma_offset_monotone(radius, r2, r1);
    }
}

/// Law, third part of the bijection: every array position is the image of a
/// valid coordinate.  Together with the other two parts this shows that a
/// map of radius `R` has exactly `3*R*(R-1)+1` addressable cells.
pub proof fn lemma_cell_index_surjective(radius: int, i: int)
    requires
        1 <= radius,
        0 <= i < hex_cell_count(radius),
    ensures
        exists|q: int, r: int| in_bounds(radius, q, r) && cell_index(radius, q, r) == i,
{
    lemma_find_row(radius, -(radius - 1), i);
}

proof fn lemma_find_row(radius: int, r: int, i: int)
    requires
        1 <= radius,
        -(radius - 1) <= r <= radius - 1,
        row_offset(radius, r) <= i < hex_cell_count(radius),
    ensures
        exists|q: int, rr: int| in_bounds(radius, q, rr) && cell_index(radius, q, rr) == i,
    decreases radius - 1 - r,
{
    lemma_row_within_array(radius, r);
    if i < row_offset(radius, r) + row_len(radius, r) {
        let q = row_min_q(radius, r) + (i - row_offset(radius, r));
        assert(in_bounds(radius, q, r) && cell_index(radius, q, r) == i);
    } else {
        lemma_rows_fill_array(radius);
        assert(r < radius - 1);
        assert(row_offset(radius, r + 1) == row_offset(radius, r) + row_len(radius, r));
        lemma_find_row(radius, r + 1, i);
    }
}

/// Whether the queue holds a record for cell `(q, r)`.
pub open spec fn has_change(s: Seq<TileChangedEvent>, q: int, r: int) -> bool
    decreases s.len(),
{
    if s.len() == 0 {
        false
    } else if s.last().position.q == q && s.last().position.r == r {
        true
    } else {
        has_change(s.drop_last(), q, r)
    }
}

/// The tile kind written by the most recent record for cell `(q, r)`;
/// meaningful only when `has_change` holds.
pub open spec fn last_change(s: Seq<TileChangedEvent>, q: int, r: int) -> Tile
    decreases s.len(),
{
    if s.len() == 0 {
        Tile::Ground
    } else if s.last().position.q == q && s.last().position.r == r {
        s.last().new_tile
    } else {
        last_change(s.drop_last(), q, r)
    }
}

/// A hexagon is contained in every hexagon of at least its radius.
pub proof fn lemma_hexagon_nested(small: int, large: int, q: int, r: int)
    requires
        1 <= small <= large,
        in_bounds(small, q, r),
    ensures
        in_bounds(large, q, r),
{
}

/// Appending a record only affects the change history of the cell it is
/// about, where it becomes the most recent record.
proof fn lemma_change_push(s: Seq<TileChangedEvent>, e: TileChangedEvent, q: int, r: int)
    ensures
        e.position.q == q && e.position.r == r ==> has_change(s.push(e), q, r) && last_change(
            s.push(e),
            q,
            r,
        ) == e.new_tile,
        !(e.position.q == q && e.position.r == r) ==> has_change(s.push(e), q, r) == has_change(
            s,
            q,
            r,
        ) && last_change(s.push(e), q, r) == last_change(s, q, r),
{
    assert(s.push(e).drop_last() =~= s);
    assert(s.push(e).last() == e);
}

/// The number of cells of a map with the given radius, as a machine integer.
pub fn cell_count(radius: u16) -> (n: u64)
    requires
        1 <= radius,
    ensures
        n == hex_cell_count(radius as int),
{
    let rad = radius as u64;
    proof {
        assert(3 * rad * (rad - 1) + 1 <= 12_885_000_000) by (nonlinear_arith)
            requires
                1 <= rad <= 65535,
        ;
    }
    3 * rad * (rad - 1) + 1
}

/// The array position of `pos` in a map of the given radius, or `None` when
/// the coordinate is out of bounds.
pub fn checked_cell_index(radius: u16, pos: HexPosition) -> (res: Option<usize>)
    requires
        1 <= radius,
        hex_cell_count(radius as int) <= usize::MAX,
    ensures
        res is Some <==> in_bounds(radius as int, pos.q as int, pos.r as int),
        res matches Some(i) ==> i == cell_index(radius as int, pos.q as int, pos.r as int) && i
            < hex_cell_count(radius as int),
{
    let radius = radius as i64;
    let q = pos.q as i64;
    let r = pos.r as i64;
    if r < -(radius - 1) || r > radius - 1 {
        return None;
    }
    let min_q = if r <= 0 {
        -(radius - 1) - r
    } else {
        -(radius - 1)
    };
    let max_q = if r <= 0 {
        radius - 1
    } else {
        radius - 1 - r
    };
    if q < min_q || q > max_q {
        return None;
    }
    let off2: u64 = if r <= 0 {
        let a = (r + radius - 1) as u64;
        let b = (r + 3 * radius - 2) as u64;
        proof {
            assert(a * b <= 140_000 * 270_000) by (nonlinear_arith)
                requires
                    a <= 140_000,
                    b <= 270_000,
            ;
        }
        a * b
    } else {
        let a = (radius - 1) as u64;
        let b = (3 * radius - 2) as u64;
        let c = r as u64;
        let e = (4 * radius - 1 - r) as u64;
        proof {
            assert(a * b <= 70_000 * 200_000 && c * e <= 70_000 * 270_000) by (nonlinear_arith)
                requires
                    a <= 70_000,
                    b <= 200_000,
                    c <= 70_000,
                    e <= 270_000,
            ;
        }
        a * b + c * e
    };
    proof {
        lemma_row_offset_closed(radius as int, r as int);
        lemma_cell_index_range(radius as int, q as int, r as int);
    }
    let off = off2 / 2;
    Some((off + (q - min_q) as u64) as usize)
}

/// Every valid coordinate of a map with the given radius, in array order:
/// the cell at array position `j` is the `j`-th element.  The list has
/// exactly one entry per cell, so its length is the cell count.
pub fn hex_coordinates(radius: u16) -> (coords: Vec<HexPosition>)
    requires
        1 <= radius,
        hex_cell_count(radius as int) <= usize::MAX,
    ensures
        coords@.len() == hex_cell_count(radius as int),
        forall|j: int|
            0 <= j < coords@.len() ==> in_bounds(
                radius as int,
                #[trigger] coords@[j].q as int,
                coords@[j].r as int,
            ) && cell_index(radius as int, coords@[j].q as int, coords@[j].r as int) == j,
        forall|q: int, r: int|
            in_bounds(radius as int, q, r) ==> coords@[#[trigger] cell_index(radius as int, q, r)]
                == (HexPosition { q: q as i32, r: r as i32 }),
{
    let rad = radius as i32;
    let ghost radi = radius as int;
    let mut coords: Vec<HexPosition> = Vec::new();
    let mut r: i32 = 1 - rad;
    while r <= rad - 1
        invariant
            1 <= rad <= 65535,
            rad == radius,
            hex_cell_count(radi) <= usize::MAX,
            radi == rad as int,
            1 - rad <= r <= rad,
            coords@.len() == row_offset(radi, r as int),
            forall|j: int|
                0 <= j < coords@.len() ==> in_bounds(
                    radi,
                    #[trigger] coords@[j].q as int,
                    coords@[j].r as int,
                ) && cell_index(radi, coords@[j].q as int, coords@[j].r as int) == j,
        decreases rad - r,
    {
        let min_q: i32 = if r <= 0 {
            (1 - rad) - r
        } else {
            1 - rad
        };
        let max_q: i32 = if r <= 0 {
            rad - 1
        } else {
            (rad - 1) - r
        };
        proof {
            lemma_row_within_array(radi, r as int);
        }
        let mut q: i32 = min_q;
        while q <= max_q
            invariant
                1 <= rad <= 65535,
                hex_cell_count(radi) <= usize::MAX,
                radi == rad as int,
                1 - rad <= r <= rad - 1,
                min_q == row_min_q(radi, r as int),
                max_q == row_max_q(radi, r as int),
                min_q <= q <= max_q + 1,
                row_offset(radi, r as int) + row_len(radi, r as int) <= hex_cell_count(radi),
                coords@.len() == row_offset(radi, r as int) + (q - min_q),
                forall|j: int|
                    0 <= j < coords@.len() ==> in_bounds(
                        radi,
                        #[trigger] coords@[j].q as int,
                        coords@[j].r as int,
                    ) && cell_index(radi, coords@[j].q as int, coords@[j].r as int) == j,
            decreases max_q + 1 - q,
        {
            coords.push(HexPosition { q, r });
            q = q + 1;
        }
        r = r + 1;
    }
    proof {
        lemma_rows_fill_array(radi);
        assert(row_offset(radi, rad as int) == hex_cell_count(radi));
        assert forall|q: int, rr: int| in_bounds(radi, q, rr) implies coords@[#[trigger] cell_index(
            radi,
            q,
            rr,
        )] == (HexPosition { q: q as i32, r: rr as i32 }) by {
            lemma_cell_index_range(radi, q, rr);
            let j = cell_index(radi, q, rr);
            lemma_cell_index_injective(radi, coords@[j].q as int, coords@[j].r as int, q, rr);
        }
    }
    coords
}

/// The map: a fixed radius, the dense tile array, and the queue of changes
/// made since the last flush.
pub struct HexWorld {
    radius: u16,
    tiles: Vec<Tile>,
    changes: Vec<TileChangedEvent>,
}

impl HexWorld {
    /// The radius the map was built with.
    pub closed spec fn spec_radius(self) -> u16 {
        self.radius
    }

    /// The tile stored for cell `(q, r)`; meaningful for in-bounds cells.
    pub closed spec fn spec_tile(self, q: int, r: int) -> Tile {
        self.tiles@[cell_index(self.radius as int, q, r)]
    }

    /// The changes made since the last flush, oldest first.
    pub closed spec fn pending(self) -> Seq<TileChangedEvent> {
        self.changes@
    }

    /// Well-formedness: a positive radius, one array slot per cell, and a
    /// queue whose most recent record for any cell wrote the kind that cell
    /// now holds.
    pub closed spec fn wf(self) -> bool {
        &&& 1 <= self.radius
        &&& self.tiles@.len() == hex_cell_count(self.radius as int)
        &&& forall|q: int, r: int|
            in_bounds(self.radius as int, q, r) && #[trigger] has_change(self.changes@, q, r)
                ==> last_change(self.changes@, q, r) == self.spec_tile(q, r)
    }

    /// A fresh map with every cell holding `base_tile` and an empty change
    /// queue.  The cell-count bound is what lets the tiles fit in one array.
    pub fn new(radius: u16, base_tile: Tile) -> (w: HexWorld)
        requires
            1 <= radius,
            hex_cell_count(radius as int) <= usize::MAX,
        ensures
            w.wf(),
            w.spec_radius() == radius,
            w.pending() == Seq::<TileChangedEvent>::empty(),
            forall|q: int, r: int|
                in_bounds(radius as int, q, r) ==> #[trigger] w.spec_tile(q, r) == base_tile,
    {
        let n = cell_count(radius) as usize;
        let mut tiles: Vec<Tile> = Vec::new();
        let mut i: usize = 0;
        while i < n
            invariant
                i <= n,
                tiles@.len() == i,
                forall|j: int| 0 <= j < i ==> tiles@[j] == base_tile,
            decreases n - i,
        {
            tiles.push(base_tile);
            i = i + 1;
        }
        let w = HexWorld { radius, tiles, changes: Vec::new() };
        proof {
            assert(w.changes@ =~= Seq::<TileChangedEvent>::empty());
            assert forall|q: int, r: int| in_bounds(radius as int, q, r) implies #[trigger] w
                .spec_tile(q, r) == base_tile by {
                lemma_cell_index_range(radius as int, q, r);
            }
            assert forall|q: int, r: int|
                in_bounds(w.radius as int, q, r) && #[trigger] has_change(
                    w.changes@,
                    q,
                    r,
                ) implies last_change(w.changes@, q, r) == w.spec_tile(q, r) by {
                assert(!has_change(w.changes@, q, r));
            }
        }
        w
    }

    /// The map's radius.
    pub fn size(&self) -> (radius: u16)
        ensures
            radius == self.spec_radius(),
    {
        self.radius
    }

    /// The array position of `pos`, or the error when it is out of bounds.
    fn tile_index(&self, pos: HexPosition) -> (res: Result<usize, OutsideMapError>)
        requires
            self.wf(),
        ensures
            res is Ok <==> in_bounds(self.spec_radius() as int, pos.q as int, pos.r as int),
            res matches Ok(i) ==> i == cell_index(
                self.spec_radius() as int,
                pos.q as int,
                pos.r as int,
            ) && i < self.tiles@.len(),
    {
        // learn that the cell count fits in usize: the array has one slot per cell
        let _ = self.tiles.len();
        match checked_cell_index(self.radius, pos) {
            Some(i) => Ok(i),
            None => Err(OutsideMapError),
        }
    }

    /// The tile at `pos`, or `OutsideMapError` when `pos` lies outside the
    /// hexagon.  Read-only: no side effect either way.
    pub fn tile_at(&self, pos: HexPosition) -> (res: Result<Tile, OutsideMapError>)
        requires
            self.wf(),
        ensures
            res matches Ok(t) ==> in_bounds(self.spec_radius() as int, pos.q as int, pos.r as int)
                && t == self.spec_tile(pos.q as int, pos.r as int),
            res is Err ==> !in_bounds(self.spec_radius() as int, pos.q as int, pos.r as int) && res
                == Err::<Tile, OutsideMapError>(OutsideMapError),
    {
        match self.tile_index(pos) {
            Ok(i) => Ok(self.tiles[i]),
            Err(e) => Err(e),
        }
    }

    /// Writes `tile` at `pos`.  On success the previous kind is recorded in
    /// the change queue (even when it equals the new kind) and the cell is
    /// overwritten; nothing else changes.  Out of bounds, the map is left
    /// exactly as it was.
    pub fn set_tile(&mut self, pos: HexPosition, tile: Tile) -> (res: Result<
        (),
        OutsideMapError,
    >)
        requires
            old(self).wf(),
        ensures
            final(self).wf(),
            final(self).spec_radius() == old(self).spec_radius(),
            res is Ok <==> in_bounds(
                old(self).spec_radius() as int,
                pos.q as int,
                pos.r as int,
            ),
            res is Ok ==> final(self).pending() == old(self).pending().push(
                TileChangedEvent {
                    old_tile: old(self).spec_tile(pos.q as int, pos.r as int),
                    new_tile: tile,
                    position: pos,
                },
            ),
            res is Ok ==> forall|q: int, r: int|
                in_bounds(old(self).spec_radius() as int, q, r) ==> #[trigger] final(self).spec_tile(q, r) == (if q == pos.q as int && r == pos.r as int {
                    tile
                } else {
                    old(self).spec_tile(q, r)
                }),
            res is Err ==> *final(self) == *old(self) && res == Err::<(), OutsideMapError>(
                OutsideMapError,
            ),
    {
        let idx = match self.tile_index(pos) {
            Ok(i) => i,
            Err(e) => {
                return Err(e);
            },
        };
        let ghost pre = *self;
        let ghost radi = self.radius as int;
        let old_tile = self.tiles[idx];
        let event = TileChangedEvent { old_tile, new_tile: tile, position: pos };
        self.changes.push(event);
        self.tiles[idx] = tile;
        proof {
            let pq = pos.q as int;
            let pr = pos.r as int;
            assert forall|q: int, r: int| in_bounds(radi, q, r) implies #[trigger] self.spec_tile(
                q,
                r,
            ) == (if q == pq && r == pr {
                tile
            } else {
                pre.spec_tile(q, r)
            }) by {
                lemma_cell_index_range(radi, q, r);
                if (q != pq || r != pr) && cell_index(radi, q, r) == cell_index(radi, pq, pr) {
                    lemma_cell_index_injective(radi, q, r, pq, pr);
                }
            }
            assert forall|q: int, r: int|
                in_bounds(radi, q, r) && #[trigger] has_change(
                    self.changes@,
                    q,
                    r,
                ) implies last_change(self.changes@, q, r) == self.spec_tile(q, r) by {
                lemma_change_push(pre.changes@, event, q, r);
            }
        }
        Ok(())
    }

    /// Takes and clears the whole change queue, returning the records in the
    /// order the mutations happened.  The tiles are untouched, and a second
    /// immediate flush returns nothing.
    pub fn flush_changes(&mut self) -> (out: Vec<TileChangedEvent>)
        requires
            old(self).wf(),
        ensures
            final(self).wf(),
            final(self).spec_radius() == old(self).spec_radius(),
            out@ == old(self).pending(),
            final(self).pending() == Seq::<TileChangedEvent>::empty(),
            forall|q: int, r: int|
                in_bounds(old(self).spec_radius() as int, q, r) ==> #[trigger] final(self).spec_tile(q, r)
                    == old(self).spec_tile(q, r),
    {
        let mut out: Vec<TileChangedEvent> = Vec::new();
        core::mem::swap(&mut out, &mut self.changes);
        proof {
            assert(self.changes@ =~= Seq::<TileChangedEvent>::empty());
            assert forall|q: int, r: int|
                in_bounds(self.radius as int, q, r) && #[trigger] has_change(
                    self.changes@,
                    q,
                    r,
                ) implies last_change(self.changes@, q, r) == self.spec_tile(q, r) by {
                assert(!has_change(self.changes@, q, r));
            }
        }
        out
    }
}

/// Law: a well-formed map's queue never contradicts its tiles — the most
/// recent queued record for a cell wrote the kind the cell now holds, so a
/// consumer that replays a flushed queue ends at the map's current state.
pub proof fn lemma_pending_matches_tiles(w: HexWorld, q: int, r: int)
    requires
        w.wf(),
        in_bounds(w.spec_radius() as int, q, r),
        has_change(w.pending(), q, r),
    ensures
        last_change(w.pending(), q, r) == w.spec_tile(q, r),
{
}

} // verus!
