//! World-space points and axis-aligned hitbox rectangles.

use vstd::prelude::*;

verus! {

/// A world-space point, used for the pointer position and rectangle corners.
/// Coordinates are integral world units.
#[derive(Clone, Copy, PartialEq, Eq, Structural, Debug)]
pub struct CursorLocation {
    pub x: i64,
    pub y: i64,
}

impl CursorLocation {
    /// The origin, used as the neutral value of an idle draft.
    pub fn zero() -> (r: CursorLocation)
        ensures
            r == (CursorLocation { x: 0, y: 0 }),
    {
        CursorLocation { x: 0, y: 0 }
    }
}

/// An axis-aligned rectangle held as its two extreme corners.
/// Every stored rectangle is normalized: `min <= max` on each axis.
#[derive(Clone, Copy, PartialEq, Eq, Structural, Debug)]
pub struct Rect {
    pub min_x: i64,
    pub min_y: i64,
    pub max_x: i64,
    pub max_y: i64,
}

/// The normalized rectangle spanned by two arbitrary corner points:
/// per-axis minimum and maximum, so geometry is drag-direction-independent.
pub open spec fn norm_rect(a: CursorLocation, b: CursorLocation) -> Rect {
    Rect {
        min_x: if a.x <= b.x { a.x } else { b.x },
        min_y: if a.y <= b.y { a.y } else { b.y },
        max_x: if a.x <= b.x { b.x } else { a.x },
        max_y: if a.y <= b.y { b.y } else { a.y },
    }
}

impl Rect {
    /// A rectangle is well formed when its corners are ordered on both axes.
    pub open spec fn is_normalized(self) -> bool {
        self.min_x <= self.max_x && self.min_y <= self.max_y
    }

    /// Builds the rectangle spanned by two corners given in any order.
    pub fn from_corners(a: CursorLocation, b: CursorLocation) -> (r: Rect)
        ensures
            r == norm_rect(a, b),
            r.is_normalized(),
    {
        Rect {
            min_x: if a.x <= b.x { a.x } else { b.x },
            min_y: if a.y <= b.y { a.y } else { b.y },
            max_x: if a.x <= b.x { b.x } else { a.x },
            max_y: if a.y <= b.y { b.y } else { a.y },
        }
    }
}

/// Normalization ignores the order in which the two corners are supplied:
/// dragging from either corner of a span stores the same geometry, and the
/// result is always normalized.
pub proof fn lemma_norm_rect_corner_order(a: CursorLocation, b: CursorLocation)
    ensures
        norm_rect(a, b) == norm_rect(b, a),
        norm_rect(a, b).is_normalized(),
{
}

} // verus!
