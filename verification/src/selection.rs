//! Selection state: the active frame of the sprite-sheet grid and the
//! active hitbox category, both stepped cyclically by discrete input
//! events.

use vstd::prelude::*;
use crate::cycler::{cyclical_decrement, cyclical_increment, dec_spec, inc_spec};

verus! {

/// The sprite-sheet grid in use and the frame the editor is showing.
pub struct TextureAtlasState {
    pub rows: usize,
    pub columns: usize,
    pub index: usize,
}

impl TextureAtlasState {
    /// The number of frames in the grid.
    pub open spec fn spec_length(self) -> int {
        self.rows * self.columns
    }

    /// A nonempty grid whose frame count fits the machine, showing a
    /// frame inside it.
    pub open spec fn wf(self) -> bool {
        &&& self.rows >= 1
        &&& self.columns >= 1
        &&& self.spec_length() <= usize::MAX
        &&& self.index < self.spec_length()
    }

    /// A grid of the given dimensions, showing the first frame.
    pub fn new(rows: usize, columns: usize) -> (r: TextureAtlasState)
        requires
            rows >= 1,
            columns >= 1,
            rows * columns <= usize::MAX,
        ensures
            r.rows == rows,
            r.columns == columns,
            r.index == 0,
            r.wf(),
    {
        proof {
            assert(rows * columns >= 1 * 1) by (nonlinear_arith)
                requires
                    rows >= 1,
                    columns >= 1,
            ;
        }
        TextureAtlasState { rows, columns, index: 0 }
    }

    /// The number of frames in the grid.
    pub fn length(&self) -> (r: usize)
        requires
            self.wf(),
        ensures
            r == self.spec_length(),
    {
        self.rows * self.columns
    }
}

impl Default for TextureAtlasState {
    /// A single-frame grid, as the editor starts before any sheet loads.
    fn default() -> (r: TextureAtlasState)
        ensures
            r.rows == 1,
            r.columns == 1,
            r.index == 0,
            r.wf(),
    {
        TextureAtlasState { rows: 1, columns: 1, index: 0 }
    }
}

/// Steps the shown frame one to the right (`forward`) or left, wrapping
/// around the grid.
pub fn change_index(texture_atlas_state: &mut TextureAtlasState, forward: bool)
    requires
        old(texture_atlas_state).wf(),
    ensures
        final(texture_atlas_state).rows == old(texture_atlas_state).rows,
        final(texture_atlas_state).columns == old(texture_atlas_state).columns,
        forward ==> final(texture_atlas_state).index == inc_spec(
            old(texture_atlas_state).index as int,
            old(texture_atlas_state).spec_length(),
        ),
        !forward ==> final(texture_atlas_state).index == dec_spec(
            old(texture_atlas_state).index as int,
            old(texture_atlas_state).spec_length(),
        ),
        final(texture_atlas_state).wf(),
{
    let length = texture_atlas_state.length();
    if forward {
        texture_atlas_state.index = cyclical_increment(texture_atlas_state.index, length);
    } else {
        texture_atlas_state.index = cyclical_decrement(texture_atlas_state.index, length);
    }
}

/// The active hitbox category, an index into the atlas's category list.
pub struct ColorIndex(pub usize);

/// Steps the active category one forward or backward, wrapping around the
/// fixed category count.
pub fn color_index_incrementer(color_index: &mut ColorIndex, category_count: usize, forward: bool)
    requires
        category_count >= 1,
        old(color_index).0 < category_count,
    ensures
        forward ==> final(color_index).0 == inc_spec(
            old(color_index).0 as int,
            category_count as int,
        ),
        !forward ==> final(color_index).0 == dec_spec(
            old(color_index).0 as int,
            category_count as int,
        ),
        final(color_index).0 < category_count,
{
    if forward {
        color_index.0 = cyclical_increment(color_index.0, category_count);
    } else {
        color_index.0 = cyclical_decrement(color_index.0, category_count);
    }
}

} // verus!
