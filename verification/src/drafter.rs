//! The pointer-drag drafting state machine: pointer-down anchors a corner,
//! dragging tracks the second corner, pointer-up commits the normalized
//! rectangle to the atlas.

use vstd::prelude::*;
use crate::hitboxes::HitboxAtlas;
use crate::rect::{norm_rect, CursorLocation, Rect};

verus! {

/// The draft state: the anchor corner recorded at pointer-down and the
/// corner tracking the live pointer. Both rest at the origin while idle.
pub struct BoxCreation {
    pub init_location: CursorLocation,
    pub curr_location: CursorLocation,
}

/// The corner the draft tracks after one tick: the live pointer while the
/// button is held, otherwise the last tracked position.
pub open spec fn tracked_corner(
    state: BoxCreation,
    cursor: CursorLocation,
    pressed: bool,
) -> CursorLocation {
    if pressed {
        cursor
    } else {
        state.curr_location
    }
}

/// The anchor corner after one tick: the live pointer on the tick the
/// button went down, otherwise the recorded anchor.
pub open spec fn anchor_corner(
    state: BoxCreation,
    cursor: CursorLocation,
    just_pressed: bool,
) -> CursorLocation {
    if just_pressed {
        cursor
    } else {
        state.init_location
    }
}

impl BoxCreation {
    /// An idle drafter, both corners at the origin.
    pub fn new() -> (r: BoxCreation)
        ensures
            r.init_location == (CursorLocation { x: 0, y: 0 }),
            r.curr_location == (CursorLocation { x: 0, y: 0 }),
    {
        BoxCreation {
            init_location: CursorLocation::zero(),
            curr_location: CursorLocation::zero(),
        }
    }

    /// One input tick. While the pointer is captured by other interface
    /// panels nothing moves. Otherwise the draft corners follow the
    /// pointer, and the tick the button is released commits the rectangle
    /// spanned by anchor and tracked corner to the addressed frame and
    /// category, then resets both corners to the origin.
    pub fn box_creation(
        &mut self,
        atlas: &mut HitboxAtlas,
        frame_index: usize,
        color_index: usize,
        cursor: CursorLocation,
        pressed: bool,
        just_pressed: bool,
        just_released: bool,
        ui_captured: bool,
    )
        requires
            old(atlas).wf(),
            frame_index < old(atlas)@.len(),
            color_index < old(atlas).spec_category_count(),
        ensures
            final(atlas).wf(),
            final(atlas).spec_category_count() == old(atlas).spec_category_count(),
            ui_captured ==> *final(self) == *old(self) && *final(atlas) == *old(atlas),
            !ui_captured && !just_released ==> *final(atlas) == *old(atlas)
                && final(self).curr_location == tracked_corner(*old(self), cursor, pressed)
                && final(self).init_location == anchor_corner(*old(self), cursor, just_pressed),
            !ui_captured && just_released ==> final(atlas)@ == old(atlas)@.update(
                frame_index as int,
                old(atlas)@[frame_index as int].update(
                    color_index as int,
                    old(atlas)@[frame_index as int][color_index as int].push(
                        norm_rect(
                            anchor_corner(*old(self), cursor, just_pressed),
                            tracked_corner(*old(self), cursor, pressed),
                        ),
                    ),
                ),
            ) && final(self).init_location == (CursorLocation { x: 0, y: 0 })
                && final(self).curr_location == (CursorLocation { x: 0, y: 0 }),
    {
        if ui_captured {
            return ;
        }
        if pressed {
            self.curr_location = cursor;
        }
        if just_pressed {
            self.init_location = cursor;
        }
        if just_released {
            let rect = Rect::from_corners(self.init_location, self.curr_location);
            atlas.add_hitbox(rect, frame_index, color_index);
            self.curr_location = CursorLocation::zero();
            self.init_location = CursorLocation::zero();
        }
    }
}

} // verus!
