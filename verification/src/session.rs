//! One editing session: the active atlas (if any), the frame and category
//! selection, the drafter, and the hover reference, with every mutation
//! going through the operations defined here.

use vstd::prelude::*;
use crate::codec::{decode, encode, load_hitboxes, save_hitboxes};
use crate::cycler::{dec_spec, inc_spec};
use crate::drafter::{anchor_corner, tracked_corner, BoxCreation};
use crate::errors::HitboxError;
use crate::hitboxes::{HitboxAtlas, HitboxIndex, DEFAULT_CATEGORY_COUNT};
use crate::rect::{norm_rect, CursorLocation, Rect};
use crate::selection::{change_index, color_index_incrementer, ColorIndex, TextureAtlasState};

verus! {

/// All session-wide state the editor mutates, owned in one place instead
/// of ambient globals.
pub struct EditorSession {
    pub atlas: Option<HitboxAtlas>,
    pub texture_atlas_state: TextureAtlasState,
    pub color_index: ColorIndex,
    pub box_creation: BoxCreation,
    pub hitbox_index: HitboxIndex,
    pub category_count: usize,
}

impl EditorSession {
    /// The frames the active atlas holds, if one is loaded.
    pub open spec fn atlas_view(self) -> Option<Seq<Seq<Seq<Rect>>>> {
        match self.atlas {
            Option::Some(a) => Some(a@),
            Option::None => None,
        }
    }

    /// The grid is valid, the category selection is in range, and the
    /// active atlas (if any) matches the grid's frame count and the
    /// session's category count.
    pub open spec fn wf(self) -> bool {
        &&& self.texture_atlas_state.wf()
        &&& self.category_count >= 1
        &&& self.color_index.0 < self.category_count
        &&& match self.atlas {
            Option::Some(a) => a.wf() && a@.len() == self.texture_atlas_state.spec_length()
                && a.spec_category_count() == self.category_count,
            Option::None => true,
        }
    }

    /// A fresh session: no atlas, a one-frame grid, first category active.
    pub fn new(category_count: usize) -> (r: EditorSession)
        requires
            category_count >= 1,
        ensures
            r.atlas is None,
            r.category_count == category_count,
            r.color_index.0 == 0,
            r.texture_atlas_state.index == 0,
            r.hitbox_index.0 is None,
            r.wf(),
    {
        EditorSession {
            atlas: None,
            texture_atlas_state: TextureAtlasState::default(),
            color_index: ColorIndex(0),
            box_creation: BoxCreation::new(),
            hitbox_index: HitboxIndex(None),
            category_count,
        }
    }

    /// Replaces the session's atlas with a fresh one for a newly picked
    /// sprite sheet, and resets the frame and category selection to the
    /// first slot.
    pub fn create_atlas(&mut self, rows: usize, columns: usize)
        requires
            old(self).wf(),
            rows >= 1,
            columns >= 1,
            rows * columns <= usize::MAX,
        ensures
            final(self).wf(),
            final(self).category_count == old(self).category_count,
            final(self).texture_atlas_state.rows == rows,
            final(self).texture_atlas_state.columns == columns,
            final(self).texture_atlas_state.index == 0,
            final(self).color_index.0 == 0,
            final(self).hitbox_index.0 is None,
            ({
                let v = final(self).atlas_view();
                &&& v matches Some(fs)
                &&& fs.len() == rows * columns
                &&& forall|f: int, c: int|
                    0 <= f < fs.len() && 0 <= c < old(self).category_count ==> (
                    #[trigger] fs[f][c]).len() == 0
            }),
    {
        let atlas = HitboxAtlas::create(rows, columns, self.category_count);
        self.texture_atlas_state = TextureAtlasState::new(rows, columns);
        self.color_index = ColorIndex(0);
        self.hitbox_index = HitboxIndex(None);
        self.atlas = Some(atlas);
    }

    /// Steps the shown frame forward or backward, wrapping around the
    /// grid; the hover reference is invalidated. Without an atlas there is
    /// nothing to page through and the call fails.
    pub fn select_frame(&mut self, forward: bool) -> (r: Result<(), HitboxError>)
        requires
            old(self).wf(),
        ensures
            final(self).wf(),
            old(self).atlas is None ==> r == Err::<(), HitboxError>(HitboxError::NoActiveAtlas)
                && *final(self) == *old(self),
            old(self).atlas is Some ==> {
                &&& r == Ok::<(), HitboxError>(())
                &&& final(self).texture_atlas_state.index == (if forward {
                    inc_spec(
                        old(self).texture_atlas_state.index as int,
                        old(self).texture_atlas_state.spec_length(),
                    )
                } else {
                    dec_spec(
                        old(self).texture_atlas_state.index as int,
                        old(self).texture_atlas_state.spec_length(),
                    )
                })
                &&& final(self).texture_atlas_state.rows == old(self).texture_atlas_state.rows
                &&& final(self).texture_atlas_state.columns == old(self).texture_atlas_state.columns
                &&& final(self).atlas == old(self).atlas
                &&& final(self).color_index == old(self).color_index
                &&& final(self).category_count == old(self).category_count
                &&& final(self).box_creation == old(self).box_creation
                &&& final(self).hitbox_index.0 is None
            },
    {
        if self.atlas.is_none() {
            return Err(HitboxError::NoActiveAtlas);
        }
        change_index(&mut self.texture_atlas_state, forward);
        self.hitbox_index = HitboxIndex(None);
        Ok(())
    }

    /// Steps the active category forward or backward, wrapping around the
    /// session's category count.
    pub fn select_category(&mut self, forward: bool)
        requires
            old(self).wf(),
        ensures
            final(self).wf(),
            final(self).color_index.0 == (if forward {
                inc_spec(old(self).color_index.0 as int, old(self).category_count as int)
            } else {
                dec_spec(old(self).color_index.0 as int, old(self).category_count as int)
            }),
            final(self).atlas == old(self).atlas,
            final(self).texture_atlas_state == old(self).texture_atlas_state,
            final(self).category_count == old(self).category_count,
            final(self).box_creation == old(self).box_creation,
            final(self).hitbox_index == old(self).hitbox_index,
    {
        color_index_incrementer(&mut self.color_index, self.category_count, forward);
    }

    /// One pointer tick. A tick captured by other interface panels changes
    /// nothing. Otherwise the draft corners follow the pointer and the
    /// release tick commits the drafted rectangle to the active frame and
    /// category of the active atlas; a release without an atlas only
    /// resets the draft.
    pub fn pointer_tick(
        &mut self,
        cursor: CursorLocation,
        pressed: bool,
        just_pressed: bool,
        just_released: bool,
        ui_captured: bool,
    )
        requires
            old(self).wf(),
        ensures
            final(self).wf(),
            final(self).texture_atlas_state == old(self).texture_atlas_state,
            final(self).color_index == old(self).color_index,
            final(self).category_count == old(self).category_count,
            final(self).hitbox_index == old(self).hitbox_index,
            ui_captured ==> *final(self) == *old(self),
            !ui_captured && !just_released ==> final(self).atlas == old(self).atlas
                && final(self).box_creation.curr_location == tracked_corner(old(self).box_creation, cursor, pressed)
                && final(self).box_creation.init_location == anchor_corner(
                old(self).box_creation,
                cursor,
                just_pressed,
            ),
            !ui_captured && just_released ==> final(self).box_creation.init_location == (
            CursorLocation { x: 0, y: 0 }) && final(self).box_creation.curr_location == (
            CursorLocation { x: 0, y: 0 }) && match old(self).atlas_view() {
                Option::Some(fs) => final(self).atlas_view() matches Some(fs2) && fs2 == fs.update(
                    old(self).texture_atlas_state.index as int,
                    fs[old(self).texture_atlas_state.index as int].update(
                        old(self).color_index.0 as int,
                        fs[old(self).texture_atlas_state.index as int][old(
                            self,
                        ).color_index.0 as int].push(
                            norm_rect(
                                anchor_corner(old(self).box_creation, cursor, just_pressed),
                                tracked_corner(old(self).box_creation, cursor, pressed),
                            ),
                        ),
                    ),
                ),
                Option::None => final(self).atlas is None,
            },
    {
        if ui_captured {
            return ;
        }
        match &mut self.atlas {
            Option::Some(a) => {
                let frame_index = self.texture_atlas_state.index;
                let color_index = self.color_index.0;
                self.box_creation.box_creation(
                    a,
                    frame_index,
                    color_index,
                    cursor,
                    pressed,
                    just_pressed,
                    just_released,
                    false,
                );
            },
            Option::None => {
                if pressed {
                    self.box_creation.curr_location = cursor;
                }
                if just_pressed {
                    self.box_creation.init_location = cursor;
                }
                if just_released {
                    self.box_creation.curr_location = CursorLocation::zero();
                    self.box_creation.init_location = CursorLocation::zero();
                }
            },
        }
    }

    /// Points the hover reference at a (category, rectangle) position of
    /// the shown frame, or clears it.
    pub fn set_hitbox_index(&mut self, reference: Option<(usize, usize)>)
        requires
            old(self).wf(),
        ensures
            final(self).wf(),
            final(self).hitbox_index.0 == reference,
            final(self).atlas == old(self).atlas,
            final(self).texture_atlas_state == old(self).texture_atlas_state,
            final(self).color_index == old(self).color_index,
            final(self).category_count == old(self).category_count,
            final(self).box_creation == old(self).box_creation,
    {
        self.hitbox_index = HitboxIndex(reference);
    }

    /// The hovered rectangle of the shown frame and its category, for
    /// highlighted drawing: present exactly when an atlas is loaded and
    /// the hover reference addresses an existing entry.
    pub fn hovered_rect(&self) -> (r: Option<(Rect, usize)>)
        requires
            self.wf(),
        ensures
            ({
                match (self.atlas_view(), self.hitbox_index.0) {
                    (Option::Some(fs), Option::Some((c, h))) => {
                        let frame = fs[self.texture_atlas_state.index as int];
                        if c < frame.len() && h < frame[c as int].len() {
                            r == Some((frame[c as int][h as int], c))
                        } else {
                            r is None
                        }
                    },
                    _ => r is None,
                }
            }),
    {
        match &self.atlas {
            Option::None => None,
            Option::Some(a) => match self.hitbox_index.0 {
                Option::None => None,
                Option::Some((c, h)) => {
                    let frame = a.get_frame(self.texture_atlas_state.index);
                    if c < frame.category_count() && h < frame.hitbox_count(c) {
                        Some((frame.get_hitbox(c, h), c))
                    } else {
                        None
                    }
                },
            },
        }
    }

    /// Removes one rectangle, addressed as the panels address it. Fails
    /// without an atlas, on an out-of-range frame or category, or on a
    /// rectangle position that does not exist; no failure mutates
    /// anything. A successful removal invalidates the hover reference.
    pub fn remove_hitbox(&mut self, frame_index: usize, color_index: usize, hitbox_index: usize)
        -> (r: Result<Rect, HitboxError>)
        requires
            old(self).wf(),
        ensures
            final(self).wf(),
            final(self).texture_atlas_state == old(self).texture_atlas_state,
            final(self).color_index == old(self).color_index,
            final(self).category_count == old(self).category_count,
            final(self).box_creation == old(self).box_creation,
            ({
                match old(self).atlas_view() {
                    Option::None => r == Err::<Rect, HitboxError>(HitboxError::NoActiveAtlas)
                        && *final(self) == *old(self),
                    Option::Some(fs) => {
                        if frame_index >= fs.len() || color_index >= old(self).category_count {
                            r == Err::<Rect, HitboxError>(HitboxError::IndexOutOfRange)
                                && *final(self) == *old(self)
                        } else if hitbox_index >= fs[frame_index as int][color_index as int].len() {
                            r == Err::<Rect, HitboxError>(HitboxError::RectangleIndexInvalid)
                                && final(self).atlas_view() == old(self).atlas_view()
                                && final(self).hitbox_index == old(self).hitbox_index
                        } else {
                            r == Ok::<Rect, HitboxError>(
                                fs[frame_index as int][color_index as int][hitbox_index as int],
                            ) && (final(self).atlas_view() matches Some(fs2) && fs2 == fs.update(
                                frame_index as int,
                                fs[frame_index as int].update(
                                    color_index as int,
                                    fs[frame_index as int][color_index as int].remove(
                                        hitbox_index as int,
                                    ),
                                ),
                            )) && final(self).hitbox_index.0 is None
                        }
                    },
                }
            }),
    {
        match &mut self.atlas {
            Option::None => Err(HitboxError::NoActiveAtlas),
            Option::Some(a) => {
                if frame_index >= a.frame_count() || color_index >= a.category_count() {
                    return Err(HitboxError::IndexOutOfRange);
                }
                let res = a.remove_hitbox(frame_index, color_index, hitbox_index);
                match res {
                    Result::Ok(rect) => {
                        self.hitbox_index = HitboxIndex(None);
                        Ok(rect)
                    },
                    Result::Err(e) => Err(e),
                }
            },
        }
    }

    /// Serializes the active atlas for writing to storage.
    pub fn save(&self) -> (r: Result<Vec<u8>, HitboxError>)
        requires
            self.wf(),
        ensures
            ({
                match self.atlas_view() {
                    Option::Some(fs) => r matches Ok(bytes) && bytes@ == encode(
                        fs,
                        self.category_count as int,
                    ),
                    Option::None => r == Err::<Vec<u8>, HitboxError>(HitboxError::NoActiveAtlas),
                }
            }),
    {
        match &self.atlas {
            Option::None => Err(HitboxError::NoActiveAtlas),
            Option::Some(a) => Ok(save_hitboxes(a)),
        }
    }

    /// Replaces the active atlas wholesale with one read back from
    /// storage. Text that does not decode, dimensions that disagree with
    /// the shown grid or the session's category count, or a missing
    /// editing target each fail and leave the session untouched.
    pub fn load(&mut self, data: &Vec<u8>) -> (r: Result<(), HitboxError>)
        requires
            old(self).wf(),
        ensures
            final(self).wf(),
            final(self).texture_atlas_state == old(self).texture_atlas_state,
            final(self).color_index == old(self).color_index,
            final(self).category_count == old(self).category_count,
            final(self).box_creation == old(self).box_creation,
            ({
                match old(self).atlas_view() {
                    Option::None => r == Err::<(), HitboxError>(HitboxError::NoActiveAtlas)
                        && *final(self) == *old(self),
                    Option::Some(fs0) => match decode(data@) {
                        Option::None => r == Err::<(), HitboxError>(HitboxError::FormatParseFailure)
                            && *final(self) == *old(self),
                        Option::Some(p) => {
                            if p.0.len() == old(self).texture_atlas_state.spec_length() && p.1
                                == old(self).category_count {
                                r == Ok::<(), HitboxError>(()) && final(self).atlas_view()
                                    == Some(p.0) && final(self).hitbox_index.0 is None
                            } else {
                                r == Err::<(), HitboxError>(HitboxError::DimensionMismatch)
                                    && *final(self) == *old(self)
                            }
                        },
                    },
                }
            }),
    {
        if self.atlas.is_none() {
            return Err(HitboxError::NoActiveAtlas);
        }
        let loaded = match load_hitboxes(data) {
            Result::Err(_) => {
                return Err(HitboxError::FormatParseFailure);
            },
            Result::Ok(a) => a,
        };
        let expected_frames = self.texture_atlas_state.length();
        if loaded.frame_count() != expected_frames || loaded.category_count()
            != self.category_count {
            return Err(HitboxError::DimensionMismatch);
        }
        self.atlas = Some(loaded);
        self.hitbox_index = HitboxIndex(None);
        Ok(())
    }
}

impl Default for EditorSession {
    /// A fresh session with the default five categories.
    fn default() -> (r: EditorSession)
        ensures
            r.atlas is None,
            r.category_count == DEFAULT_CATEGORY_COUNT,
            r.wf(),
    {
        EditorSession::new(DEFAULT_CATEGORY_COUNT)
    }
}

} // verus!
