//! The hitbox atlas data model: per-frame, per-category ordered rectangle
//! collections, with add/remove/query operations.

use vstd::prelude::*;
use crate::errors::HitboxError;
use crate::rect::Rect;

verus! {

/// The number of hitbox categories in the default configuration.
pub const DEFAULT_CATEGORY_COUNT: usize = 5;

/// One frame's hitboxes: an ordered rectangle list per category.
/// The category count is fixed when the frame is created; rectangle order
/// within a category is insertion order and determines the removal index.
pub struct Hitboxes {
    categories: Vec<Vec<Rect>>,
}

impl View for Hitboxes {
    type V = Seq<Seq<Rect>>;

    closed spec fn view(&self) -> Seq<Seq<Rect>> {
        self.categories@.map(|i: int, v: Vec<Rect>| v@)
    }
}

impl Hitboxes {
    /// Every stored rectangle is normalized.
    pub open spec fn wf(self) -> bool {
        forall|c: int, j: int|
            0 <= c < self@.len() && 0 <= j < self@[c].len() ==> (#[trigger] self@[c][j]).is_normalized()
    }

    /// A frame with `category_count` empty rectangle lists.
    pub fn new(category_count: usize) -> (r: Hitboxes)
        ensures
            r@.len() == category_count,
            forall|c: int| 0 <= c < category_count ==> (#[trigger] r@[c]).len() == 0,
            r.wf(),
    {
        let mut categories: Vec<Vec<Rect>> = Vec::new();
        let mut i: usize = 0;
        while i < category_count
            invariant
                i <= category_count,
                categories@.len() == i,
                forall|c: int| 0 <= c < i ==> (#[trigger] categories@[c])@.len() == 0,
            decreases category_count - i,
        {
            categories.push(Vec::new());
            i = i + 1;
        }
        let r = Hitboxes { categories };
        assert(forall|c: int| 0 <= c < category_count ==> (#[trigger] r@[c]).len() == 0);
        r
    }

    /// A frame built from prepared category lists.
    pub fn from_categories(categories: Vec<Vec<Rect>>) -> (r: Hitboxes)
        ensures
            r@.len() == categories@.len(),
            forall|c: int| 0 <= c < categories@.len() ==> r@[c] == (#[trigger] categories@[c])@,
    {
        Hitboxes { categories }
    }

    /// How many categories this frame holds.
    pub fn category_count(&self) -> (r: usize)
        ensures
            r == self@.len(),
    {
        self.categories.len()
    }

    /// How many rectangles the addressed category holds.
    pub fn hitbox_count(&self, color_ind: usize) -> (r: usize)
        requires
            color_ind < self@.len(),
        ensures
            r == self@[color_ind as int].len(),
    {
        self.categories[color_ind].len()
    }

    /// The rectangle at `hitbox_ind` within category `color_ind`.
    pub fn get_hitbox(&self, color_ind: usize, hitbox_ind: usize) -> (r: Rect)
        requires
            color_ind < self@.len(),
            hitbox_ind < self@[color_ind as int].len(),
        ensures
            r == self@[color_ind as int][hitbox_ind as int],
    {
        self.categories[color_ind][hitbox_ind]
    }

    /// Appends `rect` at the end of category `color_ind`.
    pub fn add_hitbox(&mut self, rect: Rect, color_ind: usize)
        requires
            old(self).wf(),
            color_ind < old(self)@.len(),
            rect.is_normalized(),
        ensures
            final(self)@ == old(self)@.update(
                color_ind as int,
                old(self)@[color_ind as int].push(rect),
            ),
            final(self).wf(),
    {
        let mut list: Vec<Rect> = self.categories.remove(color_ind);
        list.push(rect);
        self.categories.insert(color_ind, list);
        assert(self@ =~= old(self)@.update(
            color_ind as int,
            old(self)@[color_ind as int].push(rect),
        ));
    }

    /// Removes and returns the rectangle at `hitbox_ind` of category
    /// `color_ind`, shifting later entries down by one. An invalid
    /// rectangle position is reported and mutates nothing.
    pub fn remove_hitbox(&mut self, color_ind: usize, hitbox_ind: usize) -> (r: Result<
        Rect,
        HitboxError,
    >)
        requires
            old(self).wf(),
            color_ind < old(self)@.len(),
        ensures
            hitbox_ind < old(self)@[color_ind as int].len() ==> r == Ok::<Rect, HitboxError>(
                old(self)@[color_ind as int][hitbox_ind as int],
            ) && final(self)@ == old(self)@.update(
                color_ind as int,
                old(self)@[color_ind as int].remove(hitbox_ind as int),
            ),
            hitbox_ind >= old(self)@[color_ind as int].len() ==> r == Err::<Rect, HitboxError>(
                HitboxError::RectangleIndexInvalid,
            ) && final(self)@ == old(self)@,
            final(self).wf(),
    {
        let len: usize = self.categories[color_ind].len();
        if hitbox_ind >= len {
            return Err(HitboxError::RectangleIndexInvalid);
        }
        let mut list: Vec<Rect> = self.categories.remove(color_ind);
        let rect = list.remove(hitbox_ind);
        self.categories.insert(color_ind, list);
        assert(self@ =~= old(self)@.update(
            color_ind as int,
            old(self)@[color_ind as int].remove(hitbox_ind as int),
        ));
        Ok(rect)
    }
}

/// Removing, at its appended position, the rectangle that `add_hitbox`
/// stores returns exactly that rectangle, and the removal restores every
/// category of every frame to its contents before the add.
pub proof fn lemma_add_then_remove(frames: Seq<Seq<Seq<Rect>>>, f: int, c: int, r: Rect)
    requires
        0 <= f < frames.len(),
        0 <= c < frames[f].len(),
    ensures
        ({
            let added = frames.update(f, frames[f].update(c, frames[f][c].push(r)));
            &&& added[f][c].len() == frames[f][c].len() + 1
            &&& added[f][c][frames[f][c].len() as int] == r
            &&& added.update(f, added[f].update(c, added[f][c].remove(frames[f][c].len() as int)))
                == frames
        }),
{
    let added = frames.update(f, frames[f].update(c, frames[f][c].push(r)));
    assert(added[f][c] == frames[f][c].push(r));
    assert(added[f][c].remove(frames[f][c].len() as int) =~= frames[f][c]);
    assert(added.update(f, added[f].update(c, added[f][c].remove(frames[f][c].len() as int)))
        =~~= frames);
}

/// A transient reference to "the rectangle under the pointer": the hovered
/// (category, rectangle) position within the shown frame, if any. It is a
/// lookup key, not ownership, and is invalidated when the referenced entry
/// is removed or the frame changes.
#[derive(Clone, Copy, Debug)]
pub struct HitboxIndex(pub Option<(usize, usize)>);

/// The whole per-sprite-sheet collection: one `Hitboxes` entry per frame,
/// every frame holding the same number of categories.
pub struct HitboxAtlas {
    frames: Vec<Hitboxes>,
    category_count: usize,
}

impl View for HitboxAtlas {
    type V = Seq<Seq<Seq<Rect>>>;

    closed spec fn view(&self) -> Seq<Seq<Seq<Rect>>> {
        self.frames@.map(|i: int, h: Hitboxes| h@)
    }
}

impl HitboxAtlas {
    /// Every frame has exactly the shared category count, the atlas is
    /// nonempty, and every stored rectangle is normalized.
    pub open spec fn wf(self) -> bool {
        &&& self@.len() >= 1
        &&& self.spec_category_count() >= 1
        &&& forall|f: int| 0 <= f < self@.len() ==> (#[trigger] self@[f]).len() == self.spec_category_count()
        &&& forall|f: int, c: int, j: int|
            0 <= f < self@.len() && 0 <= c < self@[f].len() && 0 <= j < self@[f][c].len() ==> (
            #[trigger] self@[f][c][j]).is_normalized()
    }

    /// The category count shared by all frames.
    pub closed spec fn spec_category_count(self) -> int {
        self.category_count as int
    }

    /// The category count shared by all frames.
    pub fn category_count(&self) -> (r: usize)
        ensures
            r == self.spec_category_count(),
    {
        self.category_count
    }

    /// How many frames the atlas holds.
    pub fn frame_count(&self) -> (r: usize)
        ensures
            r == self@.len(),
    {
        self.frames.len()
    }

    /// A fresh atlas for a `rows` x `columns` grid: `rows * columns` frames,
    /// each with `category_count` empty categories.
    pub fn create(rows: usize, columns: usize, category_count: usize) -> (r: HitboxAtlas)
        requires
            rows >= 1,
            columns >= 1,
            category_count >= 1,
            rows * columns <= usize::MAX,
        ensures
            r@.len() == rows * columns,
            r.spec_category_count() == category_count,
            forall|f: int, c: int|
                0 <= f < r@.len() && 0 <= c < category_count ==> (#[trigger] r@[f][c]).len() == 0,
            r.wf(),
    {
        let total: usize = rows * columns;
        let mut frames: Vec<Hitboxes> = Vec::new();
        let mut i: usize = 0;
        while i < total
            invariant
                i <= total,
                frames@.len() == i,
                forall|f: int| 0 <= f < i ==> (#[trigger] frames@[f])@.len() == category_count,
                forall|f: int, c: int|
                    0 <= f < i && 0 <= c < category_count ==> (#[trigger] frames@[f]@[c]).len()
                        == 0,
            decreases total - i,
        {
            frames.push(Hitboxes::new(category_count));
            i = i + 1;
        }
        assert(total >= 1) by {
            assert(rows * columns >= 1 * 1) by (nonlinear_arith)
                requires
                    rows >= 1,
                    columns >= 1,
            ;
        }
        HitboxAtlas { frames, category_count }
    }

    /// An atlas assembled from prepared frames, as the loader builds it.
    pub(crate) fn from_frames(frames: Vec<Hitboxes>, category_count: usize) -> (r: HitboxAtlas)
        ensures
            r@.len() == frames@.len(),
            forall|f: int| 0 <= f < frames@.len() ==> r@[f] == (#[trigger] frames@[f])@,
            r.spec_category_count() == category_count,
    {
        HitboxAtlas { frames, category_count }
    }

    /// Read-only access to one frame's hitboxes.
    pub fn get_frame(&self, frame_index: usize) -> (r: &Hitboxes)
        requires
            frame_index < self@.len(),
        ensures
            r@ == self@[frame_index as int],
    {
        &self.frames[frame_index]
    }

    /// Appends `rect` to category `color_index` of frame `frame_index`.
    /// Always succeeds given valid indices; no other entry moves.
    pub fn add_hitbox(&mut self, rect: Rect, frame_index: usize, color_index: usize)
        requires
            old(self).wf(),
            frame_index < old(self)@.len(),
            color_index < old(self).spec_category_count(),
            rect.is_normalized(),
        ensures
            final(self)@ == old(self)@.update(
                frame_index as int,
                old(self)@[frame_index as int].update(
                    color_index as int,
                    old(self)@[frame_index as int][color_index as int].push(rect),
                ),
            ),
            final(self).spec_category_count() == old(self).spec_category_count(),
            final(self).wf(),
    {
        let mut frame: Hitboxes = self.frames.remove(frame_index);
        assert(frame@ == old(self)@[frame_index as int]);
        assert(frame.wf());
        frame.add_hitbox(rect, color_index);
        self.frames.insert(frame_index, frame);
        assert(self@ =~~= old(self)@.update(
            frame_index as int,
            old(self)@[frame_index as int].update(
                color_index as int,
                old(self)@[frame_index as int][color_index as int].push(rect),
            ),
        ));
    }

    /// Removes and returns the rectangle at `hitbox_index` of the addressed
    /// category, preserving the relative order of the remaining entries.
    /// An invalid rectangle position is reported and mutates nothing.
    pub fn remove_hitbox(&mut self, frame_index: usize, color_index: usize, hitbox_index: usize)
        -> (r: Result<Rect, HitboxError>)
        requires
            old(self).wf(),
            frame_index < old(self)@.len(),
            color_index < old(self).spec_category_count(),
        ensures
            hitbox_index < old(self)@[frame_index as int][color_index as int].len() ==> r == Ok::<
                Rect,
                HitboxError,
            >(old(self)@[frame_index as int][color_index as int][hitbox_index as int])
                && final(self)@ == old(self)@.update(
                frame_index as int,
                old(self)@[frame_index as int].update(
                    color_index as int,
                    old(self)@[frame_index as int][color_index as int].remove(hitbox_index as int),
                ),
            ),
            hitbox_index >= old(self)@[frame_index as int][color_index as int].len() ==> r == Err::<
                Rect,
                HitboxError,
            >(HitboxError::RectangleIndexInvalid) && final(self)@ == old(self)@,
            final(self).spec_category_count() == old(self).spec_category_count(),
            final(self).wf(),
    {
        let mut frame: Hitboxes = self.frames.remove(frame_index);
        assert(frame@ == old(self)@[frame_index as int]);
        assert(frame.wf());
        let r = frame.remove_hitbox(color_index, hitbox_index);
        self.frames.insert(frame_index, frame);
        match r {
            Ok(rect) => {
                assert(self@ =~~= old(self)@.update(
                    frame_index as int,
                    old(self)@[frame_index as int].update(
                        color_index as int,
                        old(self)@[frame_index as int][color_index as int].remove(
                            hitbox_index as int,
                        ),
                    ),
                ));
                Ok(rect)
            },
            Err(e) => {
                assert(self@ =~~= old(self)@);
                Err(e)
            },
        }
    }
}

} // verus!
