//! The placement gesture: the pointer-driven state that decides what a
//! press–drag–release sequence places on the grid.
//!
//! A gesture begins on the tile under the cursor, tracks the cursor while
//! the button is held — always snapped to the dominant axis, so only
//! straight wires can be drawn — and on release either places a single pin
//! (when the cursor never left the starting tile) or a wire between the
//! two tiles. The event loop that feeds it cursor positions, and the
//! preview records it keeps in an instance store meanwhile, live outside
//! this module.

use vstd::prelude::*;

use crate::wire::GridVec;
use crate::wire::coord_abs;
use crate::wire::in_grid;
use crate::wire::snap_to_axis;

verus! {

/// What a finished gesture places: a pin on its starting tile, or a
/// straight wire from the starting tile to the snapped end tile.
#[derive(Clone, Copy, Debug, PartialEq, Eq, Structural)]
pub enum PlaceAction {
    PlacePin { position: GridVec },
    PlaceWire { start: GridVec, end: GridVec },
}

/// A placement gesture in progress: the tile it started on and the
/// axis-snapped tile it currently ends on.
#[derive(Clone, Copy, Debug, PartialEq, Eq, Structural)]
pub struct PlaceGesture {
    start: GridVec,
    end: GridVec,
}

impl PlaceGesture {
    /// The tile the gesture started on.
    pub closed spec fn start(self) -> GridVec {
        self.start
    }

    /// The axis-snapped tile the gesture currently ends on.
    pub closed spec fn end(self) -> GridVec {
        self.end
    }

    /// Both corners of the gesture lie on the grid, and its span is
    /// straight: the end differs from the start along one axis at most.
    pub closed spec fn wf(self) -> bool {
        &&& in_grid(self.start)
        &&& in_grid(self.end)
        &&& (self.end.x == self.start.x || self.end.y == self.start.y)
    }

    /// Begins a gesture on the tile under the cursor. Until the first
    /// drag, the gesture ends where it starts.
    pub fn begin(at: GridVec) -> (g: Self)
        requires
            in_grid(at),
        ensures
            g.wf(),
            g.start() == at,
            g.end() == at,
    {
        PlaceGesture { start: at, end: at }
    }

    /// Tracks the cursor: the gesture's end becomes the cursor's tile
    /// snapped to the dominant axis of the drag, so the span stays
    /// straight. The start never moves.
    pub fn drag(&mut self, cursor: GridVec)
        requires
            old(self).wf(),
            in_grid(cursor),
        ensures
            final(self).wf(),
            final(self).start() == old(self).start(),
            coord_abs(cursor.x - old(self).start().x) > coord_abs(cursor.y - old(self).start().y)
                ==> final(self).end() == (GridVec { x: cursor.x, y: old(self).start().y }),
            coord_abs(cursor.x - old(self).start().x) <= coord_abs(cursor.y - old(self).start().y)
                ==> final(self).end() == (GridVec { x: old(self).start().x, y: cursor.y }),
    {
        let delta = GridVec { x: cursor.x - self.start.x, y: cursor.y - self.start.y };
        let size = snap_to_axis(delta);
        self.end = GridVec { x: self.start.x + size.x, y: self.start.y + size.y };
    }

    /// Finishes the gesture: a pin when it never left its starting tile,
    /// else a wire from start to end.
    pub fn finish(&self) -> (action: PlaceAction)
        ensures
            self.start() == self.end() ==> action == (PlaceAction::PlacePin {
                position: self.start(),
            }),
            self.start() != self.end() ==> action == (PlaceAction::PlaceWire {
                start: self.start(),
                end: self.end(),
            }),
    {
        if self.start.x == self.end.x && self.start.y == self.end.y {
            PlaceAction::PlacePin { position: self.start }
        } else {
            PlaceAction::PlaceWire { start: self.start, end: self.end }
        }
    }
}

} // verus!
