//! Wires and pins on the integer tile grid.
//!
//! A wire runs between two tile corners; a pin sits on one tile. Before a
//! renderer turns either into an instance record it needs the wire's span
//! in normalized form — a corner and a non-negative extent — so that a
//! fixed radius offset can be applied in either direction. That
//! normalization, and the snapping of a drag to its dominant axis, are the
//! grid-level rules here; scaling to world units is the renderer's business.

use vstd::prelude::*;

verus! {

/// The largest coordinate magnitude the grid admits. Differences of two
/// in-range coordinates then still fit in an `i32`.
pub const GRID_LIMIT: i32 = 0x3FFF_FFFF;

/// A point or extent on the integer tile grid.
#[derive(Clone, Copy, Debug, PartialEq, Eq, Structural)]
pub struct GridVec {
    pub x: i32,
    pub y: i32,
}

/// Whether a grid vector lies within the grid's coordinate range.
pub open spec fn in_grid(v: GridVec) -> bool {
    &&& -GRID_LIMIT <= v.x <= GRID_LIMIT
    &&& -GRID_LIMIT <= v.y <= GRID_LIMIT
}

/// The absolute value of a coordinate.
pub open spec fn coord_abs(a: int) -> int {
    if a < 0 {
        -a
    } else {
        a
    }
}

/// The smaller of two coordinates.
pub open spec fn coord_min(a: int, b: int) -> int {
    if a <= b {
        a
    } else {
        b
    }
}

/// A wire segment between two tile corners. The endpoints carry no order:
/// a wire from `a` to `b` spans the same tiles as one from `b` to `a`.
#[derive(Clone, Copy, Debug, PartialEq, Eq, Structural)]
pub struct Wire {
    pub start: GridVec,
    pub end: GridVec,
    pub is_powered: bool,
}

/// A connection pin on one tile corner.
#[derive(Clone, Copy, Debug, PartialEq, Eq, Structural)]
pub struct Pin {
    pub position: GridVec,
    pub is_powered: bool,
}

impl Wire {
    /// The wire's span in normalized form: the componentwise minimum of
    /// the two endpoints, and the componentwise absolute difference. The
    /// extent is never negative, so a renderer can pad the span by a fixed
    /// radius without caring which way the wire was drawn.
    pub fn span(&self) -> (r: (GridVec, GridVec))
        requires
            in_grid(self.start),
            in_grid(self.end),
        ensures
            r.0.x == coord_min(self.start.x as int, self.end.x as int),
            r.0.y == coord_min(self.start.y as int, self.end.y as int),
            r.1.x == coord_abs(self.end.x - self.start.x),
            r.1.y == coord_abs(self.end.y - self.start.y),
    {
        let size_x = self.end.x - self.start.x;
        let size_y = self.end.y - self.start.y;
        let abs_x = if size_x < 0 {
            -size_x
        } else {
            size_x
        };
        let abs_y = if size_y < 0 {
            -size_y
        } else {
            size_y
        };
        let origin = GridVec {
            x: if size_x < 0 {
                self.end.x
            } else {
                self.start.x
            },
            y: if size_y < 0 {
                self.end.y
            } else {
                self.start.y
            },
        };
        (origin, GridVec { x: abs_x, y: abs_y })
    }
}

/// Snaps a drag delta to its dominant axis: strictly horizontal when the
/// horizontal magnitude exceeds the vertical one, else strictly vertical
/// (ties fall to the vertical axis).
pub fn snap_to_axis(delta: GridVec) -> (r: GridVec)
    requires
        delta.x != i32::MIN,
        delta.y != i32::MIN,
    ensures
        coord_abs(delta.x as int) > coord_abs(delta.y as int) ==> r == (GridVec {
            x: delta.x,
            y: 0,
        }),
        coord_abs(delta.x as int) <= coord_abs(delta.y as int) ==> r == (GridVec {
            x: 0,
            y: delta.y,
        }),
{
    let abs_x = if delta.x < 0 {
        -delta.x
    } else {
        delta.x
    };
    let abs_y = if delta.y < 0 {
        -delta.y
    } else {
        delta.y
    };
    if abs_x > abs_y {
        GridVec { x: delta.x, y: 0 }
    } else {
        GridVec { x: 0, y: delta.y }
    }
}

} // verus!
