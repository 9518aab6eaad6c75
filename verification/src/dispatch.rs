//! The per-tick change pipeline: once per tick, after all of the tick's
//! mutations and before any view update, the dispatcher drains the map's
//! pending queue and republishes it, unchanged and in order, as the tick's
//! event stream.  Every view then consumes that same stream, so all views of
//! one map observe the same mutations in the same order, and none observes a
//! partial tick.

use vstd::prelude::*;

use crate::grid::{HexWorld, TileChangedEvent, in_bounds};
use crate::view::{WorldView, vis_after};

verus! {

/// Relays the map's flushed changes to the tick's consumers.  Holds exactly
/// the records of the most recent tick: no transformation, no carry-over.
pub struct ChangeDispatcher {
    events: Vec<TileChangedEvent>,
}

impl ChangeDispatcher {
    /// The event stream of the most recent tick, in mutation order.
    pub closed spec fn stream(self) -> Seq<TileChangedEvent> {
        self.events@
    }

    /// A dispatcher that has not yet run a tick: an empty stream.
    pub fn new() -> (d: ChangeDispatcher)
        ensures
            d.stream() == Seq::<TileChangedEvent>::empty(),
    {
        let d = ChangeDispatcher { events: Vec::new() };
        proof {
            assert(d.events@ =~= Seq::<TileChangedEvent>::empty());
        }
        d
    }

    /// Runs the tick's dispatch phase: takes the whole pending queue out of
    /// the map and makes it this tick's stream, replacing the previous
    /// tick's.  The map's tiles are untouched and its queue is left empty.
    pub fn dispatch(&mut self, world: &mut HexWorld)
        requires
            old(world).wf(),
        ensures
            final(world).wf(),
            final(world).spec_radius() == old(world).spec_radius(),
            final(world).pending() == Seq::<TileChangedEvent>::empty(),
            forall|q: int, r: int|
                in_bounds(old(world).spec_radius() as int, q, r) ==> #[trigger] final(world).spec_tile(q, r) == old(world).spec_tile(q, r),
            final(self).stream() == old(world).pending(),
    {
        self.events = world.flush_changes();
    }

    /// The tick's stream, for consumers that walk it record by record.
    pub fn events(&self) -> (events: &Vec<TileChangedEvent>)
        ensures
            events@ == self.stream(),
    {
        &self.events
    }

    /// Publishes the tick's stream to one view: the view replays every
    /// record in order, so each of its covered cells ends at the visibility
    /// of the most recent record about it.  Delivering to each registered
    /// view in turn completes the tick.
    pub fn deliver(&self, view: &mut WorldView)
        requires
            old(view).wf(),
        ensures
            final(view).wf(),
            final(view).spec_radius() == old(view).spec_radius(),
            final(view).spec_primary() == old(view).spec_primary(),
            forall|q: int, r: int|
                in_bounds(old(view).spec_radius() as int, q, r) ==> #[trigger] final(view).handle_at(q, r) == old(view).handle_at(q, r),
            forall|q: int, r: int|
                in_bounds(old(view).spec_radius() as int, q, r) ==> #[trigger] final(view).vis_at(
                    q,
                    r,
                ) == vis_after(self.stream(), q, r, old(view).vis_at(q, r)),
    {
        view.apply_events(&self.events);
    }
}

} // verus!
