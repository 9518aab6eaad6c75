//! Views of the map: independent coordinate-to-handle mappings that keep a
//! per-cell visibility state in sync with the map by consuming its change
//! records.
//!
//! A view does not own the map.  It is built once from the map's coordinate
//! range (or a smaller concentric range) and a caller-supplied handle for
//! each cell, and from then on it only consumes `TileChangedEvent`s.  A
//! record for a cell the view does not cover, or whose handle the caller
//! reports as gone, is skipped as a per-event soft failure; the view's own
//! state is never damaged by one.

use vstd::prelude::*;

use crate::coords::HexPosition;
use crate::grid::{
    HexWorld, Tile, TileChangedEvent, cell_index, has_change, hex_cell_count, hex_coordinates,
    in_bounds, last_change, checked_cell_index, lemma_cell_index_range,
    lemma_cell_index_injective, lemma_hexagon_nested, lemma_pending_matches_tiles,
};

verus! {

/// The two-state visibility a view drives on each handle.
#[derive(Copy, Clone, PartialEq, Eq, Structural, Debug)]
pub enum TileVisibility {
    Shown,
    Hidden,
}

/// The visibility a tile kind maps to: ground is shown, water hidden.  This
/// is the one place tile semantics reach presentation.
pub open spec fn visibility_of(t: Tile) -> TileVisibility {
    match t {
        Tile::Ground => TileVisibility::Shown,
        Tile::Water => TileVisibility::Hidden,
    }
}

/// Executable form of `visibility_of`.
pub fn visibility_for(t: Tile) -> (v: TileVisibility)
    ensures
        v == visibility_of(t),
{
    match t {
        Tile::Ground => TileVisibility::Shown,
        Tile::Water => TileVisibility::Hidden,
    }
}

/// Per-event failures of a view: a record for a cell the view does not
/// cover, or for a handle that no longer resolves.  Both are soft: the event
/// is skipped for this view only.
#[derive(Copy, Clone, PartialEq, Eq, Structural, Debug)]
pub enum ViewSyncError {
    MissingViewEntry,
    StaleHandle,
}

/// One cell of a view: the external handle it was built with and the
/// visibility the view last drove on it.
#[derive(Copy, Clone, PartialEq, Eq, Structural, Debug)]
pub struct ViewCell {
    pub handle: u64,
    pub visibility: TileVisibility,
}

/// An independent visual representation of the map: a fixed mapping from
/// cell to external handle, plus the visibility state the view maintains for
/// each handle.  At most one view per session is flagged primary, a lookup
/// aid for external framing logic with no effect inside the view.
pub struct WorldView {
    radius: u16,
    cells: Vec<ViewCell>,
    primary: bool,
}

/// The visibility a cell ends at after replaying `events` in order from the
/// initial visibility `v0`: that of the most recent record about the cell,
/// or `v0` when there is none.
pub open spec fn vis_after(
    events: Seq<TileChangedEvent>,
    q: int,
    r: int,
    v0: TileVisibility,
) -> TileVisibility
    decreases events.len(),
{
    if events.len() == 0 {
        v0
    } else if events.last().position.q == q && events.last().position.r == r {
        visibility_of(events.last().new_tile)
    } else {
        vis_after(events.drop_last(), q, r, v0)
    }
}

impl WorldView {
    /// The radius of the (concentric) region this view covers.
    pub closed spec fn spec_radius(self) -> u16 {
        self.radius
    }

    /// Whether this view is the primary one.
    pub closed spec fn spec_primary(self) -> bool {
        self.primary
    }

    /// The handle associated with cell `(q, r)`; meaningful for covered
    /// cells.
    pub closed spec fn handle_at(self, q: int, r: int) -> u64 {
        self.cells@[cell_index(self.radius as int, q, r)].handle
    }

    /// The visibility last driven on cell `(q, r)`; meaningful for covered
    /// cells.
    pub closed spec fn vis_at(self, q: int, r: int) -> TileVisibility {
        self.cells@[cell_index(self.radius as int, q, r)].visibility
    }

    /// Well-formedness: a positive radius and one cell slot per covered
    /// coordinate.
    pub closed spec fn wf(self) -> bool {
        &&& 1 <= self.radius
        &&& self.cells@.len() == hex_cell_count(self.radius as int)
    }

    /// The view's radius.
    pub fn size(&self) -> (radius: u16)
        ensures
            radius == self.spec_radius(),
    {
        self.radius
    }

    /// Whether this view is the primary one.
    pub fn is_primary(&self) -> (primary: bool)
        ensures
            primary == self.spec_primary(),
    {
        self.primary
    }

    /// The handle the view associates with `pos`, or `MissingViewEntry` when
    /// the view does not cover that cell.
    pub fn lookup(&self, pos: HexPosition) -> (res: Result<u64, ViewSyncError>)
        requires
            self.wf(),
        ensures
            res is Ok <==> in_bounds(self.spec_radius() as int, pos.q as int, pos.r as int),
            res matches Ok(h) ==> h == self.handle_at(pos.q as int, pos.r as int),
            res is Err ==> res == Err::<u64, ViewSyncError>(ViewSyncError::MissingViewEntry),
    {
        // learn that the cell count fits in usize: the array has one slot per cell
        let _ = self.cells.len();
        match checked_cell_index(self.radius, pos) {
            Some(i) => Ok(self.cells[i].handle),
            None => Err(ViewSyncError::MissingViewEntry),
        }
    }

    /// The visibility the view currently holds for `pos`, or
    /// `MissingViewEntry` when the view does not cover that cell.
    pub fn visibility(&self, pos: HexPosition) -> (res: Result<TileVisibility, ViewSyncError>)
        requires
            self.wf(),
        ensures
            res is Ok <==> in_bounds(self.spec_radius() as int, pos.q as int, pos.r as int),
            res matches Ok(v) ==> v == self.vis_at(pos.q as int, pos.r as int),
            res is Err ==> res == Err::<TileVisibility, ViewSyncError>(
                ViewSyncError::MissingViewEntry,
            ),
    {
        // learn that the cell count fits in usize: the array has one slot per cell
        let _ = self.cells.len();
        match checked_cell_index(self.radius, pos) {
            Some(i) => Ok(self.cells[i].visibility),
            None => Err(ViewSyncError::MissingViewEntry),
        }
    }

    /// Consumes one change record.  `handle_alive` is the caller's report of
    /// whether the cell's handle still resolves externally; the view itself
    /// cannot know.  A covered, alive cell is driven to the visibility of
    /// the record's new kind and its handle is returned so the caller can
    /// apply that state externally.  Otherwise the record is skipped and the
    /// view is left exactly as it was; a stale mapping entry is kept, not
    /// removed.
    pub fn on_change(&mut self, event: &TileChangedEvent, handle_alive: bool) -> (res: Result<
        u64,
        ViewSyncError,
    >)
        requires
            old(self).wf(),
        ensures
            final(self).wf(),
            final(self).spec_radius() == old(self).spec_radius(),
            final(self).spec_primary() == old(self).spec_primary(),
            !in_bounds(
                old(self).spec_radius() as int,
                event.position.q as int,
                event.position.r as int,
            ) ==> res == Err::<u64, ViewSyncError>(ViewSyncError::MissingViewEntry) && *final(self)
                == *old(self),
            in_bounds(
                old(self).spec_radius() as int,
                event.position.q as int,
                event.position.r as int,
            ) && !handle_alive ==> res == Err::<u64, ViewSyncError>(ViewSyncError::StaleHandle)
                && *final(self) == *old(self),
            in_bounds(
                old(self).spec_radius() as int,
                event.position.q as int,
                event.position.r as int,
            ) && handle_alive ==> res == Ok::<u64, ViewSyncError>(
                old(self).handle_at(event.position.q as int, event.position.r as int),
            ) && (forall|q: int, r: int|
                in_bounds(old(self).spec_radius() as int, q, r) ==> #[trigger] final(self).handle_at(q, r) == old(self).handle_at(q, r)) && (forall|q: int, r: int|
                in_bounds(old(self).spec_radius() as int, q, r) ==> #[trigger] final(self).vis_at(
                    q,
                    r,
                ) == (if q == event.position.q as int && r == event.position.r as int {
                    visibility_of(event.new_tile)
                } else {
                    old(self).vis_at(q, r)
                })),
    {
        // learn that the cell count fits in usize: the array has one slot per cell
        let _ = self.cells.len();
        let idx = match checked_cell_index(self.radius, event.position) {
            Some(i) => i,
            None => {
                return Err(ViewSyncError::MissingViewEntry);
            },
        };
        if !handle_alive {
            return Err(ViewSyncError::StaleHandle);
        }
        let ghost pre = *self;
        let ghost radi = self.radius as int;
        let h = self.cells[idx].handle;
        let vis = visibility_for(event.new_tile);
        self.cells[idx] = ViewCell { handle: h, visibility: vis };
        proof {
            let pq = event.position.q as int;
            let pr = event.position.r as int;
            assert forall|q: int, r: int| in_bounds(radi, q, r) implies #[trigger] self.handle_at(
                q,
                r,
            ) == pre.handle_at(q, r) by {
                lemma_cell_index_range(radi, q, r);
                if (q != pq || r != pr) && cell_index(radi, q, r) == cell_index(radi, pq, pr) {
                    lemma_cell_index_injective(radi, q, r, pq, pr);
                }
            }
            assert forall|q: int, r: int| in_bounds(radi, q, r) implies #[trigger] self.vis_at(
                q,
                r,
            ) == (if q == pq && r == pr {
                visibility_of(event.new_tile)
            } else {
                pre.vis_at(q, r)
            }) by {
                lemma_cell_index_range(radi, q, r);
                if (q != pq || r != pr) && cell_index(radi, q, r) == cell_index(radi, pq, pr) {
                    lemma_cell_index_injective(radi, q, r, pq, pr);
                }
            }
        }
        Ok(h)
    }

    /// Consumes a whole flushed queue in order, treating every handle as
    /// alive and skipping records for cells the view does not cover.  Every
    /// covered cell ends at the visibility of the most recent record about
    /// it, or keeps its visibility when the queue has none.
    pub fn apply_events(&mut self, events: &Vec<TileChangedEvent>)
        requires
            old(self).wf(),
        ensures
            final(self).wf(),
            final(self).spec_radius() == old(self).spec_radius(),
            final(self).spec_primary() == old(self).spec_primary(),
            forall|q: int, r: int|
                in_bounds(old(self).spec_radius() as int, q, r) ==> #[trigger] final(self).handle_at(q, r) == old(self).handle_at(q, r),
            forall|q: int, r: int|
                in_bounds(old(self).spec_radius() as int, q, r) ==> #[trigger] final(self).vis_at(
                    q,
                    r,
                ) == vis_after(events@, q, r, old(self).vis_at(q, r)),
    {
        let ghost pre = *self;
        let ghost radi = self.radius as int;
        let n = events.len();
        let mut i: usize = 0;
        while i < n
            invariant
                i <= n,
                n == events@.len(),
                self.wf(),
                self.spec_radius() == pre.spec_radius(),
                self.spec_primary() == pre.spec_primary(),
                radi == pre.spec_radius() as int,
                forall|q: int, r: int|
                    in_bounds(radi, q, r) ==> #[trigger] self.handle_at(q, r) == pre.handle_at(
                        q,
                        r,
                    ),
                forall|q: int, r: int|
                    in_bounds(radi, q, r) ==> #[trigger] self.vis_at(q, r) == vis_after(
                        events@.take(i as int),
                        q,
                        r,
                        pre.vis_at(q, r),
                    ),
            decreases n - i,
        {
            let e = events[i];
            let _ = self.on_change(&e, true);
            proof {
                let taken = events@.take(i + 1);
                assert(taken.drop_last() =~= events@.take(i as int));
                assert(taken.last() == events@[i as int]);
                assert forall|q: int, r: int| in_bounds(radi, q, r) implies #[trigger] self.vis_at(
                    q,
                    r,
                ) == vis_after(taken, q, r, pre.vis_at(q, r)) by {
                    if e.position.q as int == q && e.position.r as int == r {
                        assert(vis_after(taken, q, r, pre.vis_at(q, r)) == visibility_of(
                            e.new_tile,
                        ));
                    } else {
                        assert(vis_after(taken, q, r, pre.vis_at(q, r)) == vis_after(
                            events@.take(i as int),
                            q,
                            r,
                            pre.vis_at(q, r),
                        ));
                    }
                }
            }
            i = i + 1;
        }
        proof {
            assert(events@.take(n as int) =~= events@);
        }
    }
}

impl HexWorld {
    /// Builds a view over this map's cells within `view_radius`, pairing the
    /// cell at each array position with the handle at the same position of
    /// `handles` (the order `hex_coordinates` yields).  Each cell starts at
    /// the visibility of the tile the map currently holds there.
    pub fn make_view(&self, view_radius: u16, handles: &Vec<u64>, primary: bool) -> (v: WorldView)
        requires
            self.wf(),
            1 <= view_radius <= self.spec_radius(),
            handles@.len() == hex_cell_count(view_radius as int),
        ensures
            v.wf(),
            v.spec_radius() == view_radius,
            v.spec_primary() == primary,
            forall|q: int, r: int|
                in_bounds(view_radius as int, q, r) ==> #[trigger] v.handle_at(q, r) == handles@[
                    cell_index(view_radius as int, q, r)
                ],
            forall|q: int, r: int|
                in_bounds(view_radius as int, q, r) ==> #[trigger] v.vis_at(q, r) == visibility_of(
                    self.spec_tile(q, r),
                ),
    {
        let n = handles.len();
        let coords = hex_coordinates(view_radius);
        let ghost vri = view_radius as int;
        let mut cells: Vec<ViewCell> = Vec::new();
        let mut i: usize = 0;
        while i < n
            invariant
                i <= n,
                n == hex_cell_count(vri),
                vri == view_radius as int,
                1 <= view_radius <= self.spec_radius(),
                self.wf(),
                handles@.len() == n,
                coords@.len() == n,
                forall|j: int|
                    0 <= j < n ==> in_bounds(vri, #[trigger] coords@[j].q as int, coords@[j].r as int)
                        && cell_index(vri, coords@[j].q as int, coords@[j].r as int) == j,
                cells@.len() == i,
                forall|j: int|
                    0 <= j < i ==> #[trigger] cells@[j] == (ViewCell {
                        handle: handles@[j],
                        visibility: visibility_of(
                            self.spec_tile(coords@[j].q as int, coords@[j].r as int),
                        ),
                    }),
            decreases n - i,
        {
            let pos = coords[i];
            proof {
                lemma_hexagon_nested(vri, self.spec_radius() as int, pos.q as int, pos.r as int);
            }
            let t = match self.tile_at(pos) {
                Ok(t) => t,
                Err(_) => {
                    proof {
                        assert(false);
                    }
                    Tile::Water
                },
            };
            cells.push(ViewCell { handle: handles[i], visibility: visibility_for(t) });
            i = i + 1;
        }
        let v = WorldView { radius: view_radius, cells, primary };
        proof {
            assert forall|q: int, r: int| in_bounds(vri, q, r) implies #[trigger] v.handle_at(q, r)
                == handles@[cell_index(vri, q, r)] by {
                lemma_cell_index_range(vri, q, r);
                let j = cell_index(vri, q, r);
                lemma_cell_index_injective(vri, coords@[j].q as int, coords@[j].r as int, q, r);
            }
            assert forall|q: int, r: int| in_bounds(vri, q, r) implies #[trigger] v.vis_at(q, r)
                == visibility_of(self.spec_tile(q, r)) by {
                lemma_cell_index_range(vri, q, r);
                let j = cell_index(vri, q, r);
                lemma_cell_index_injective(vri, coords@[j].q as int, coords@[j].r as int, q, r);
            }
        }
        v
    }
}

/// Replaying records leaves a cell at the visibility of the most recent
/// record about it, whatever visibility it started from.
pub proof fn lemma_vis_after_last_change(
    events: Seq<TileChangedEvent>,
    q: int,
    r: int,
    v0: TileVisibility,
)
    requires
        has_change(events, q, r),
    ensures
        vis_after(events, q, r, v0) == visibility_of(last_change(events, q, r)),
    decreases events.len(),
{
    if events.last().position.q == q && events.last().position.r == r {
    } else {
        lemma_vis_after_last_change(events.drop_last(), q, r, v0);
    }
}

/// Law: a view that replays a map's pending queue shows every cell the
/// queue mentions with the visibility of the tile the map now holds there,
/// whatever the view showed before — so views that consume the same flush
/// agree with the map and with each other on every changed cell.
pub proof fn lemma_view_matches_world(w: HexWorld, q: int, r: int, v0: TileVisibility)
    requires
        w.wf(),
        in_bounds(w.spec_radius() as int, q, r),
        has_change(w.pending(), q, r),
    ensures
        vis_after(w.pending(), q, r, v0) == visibility_of(w.spec_tile(q, r)),
{
    lemma_pending_matches_tiles(w, q, r);
    lemma_vis_after_last_change(w.pending(), q, r, v0);
}

} // verus!
