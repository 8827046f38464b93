//! Authoring library for per-frame hit-test rectangles over a sprite-sheet
//! texture atlas: the atlas data model keyed by (frame, category), the
//! pointer-drag drafting state machine, cyclic frame/category selection, and
//! a textual persistence format with a proved save/load round trip.

pub mod codec;
pub mod cycler;
pub mod drafter;
pub mod errors;
pub mod hitboxes;
pub mod rect;
pub mod selection;
pub mod session;
