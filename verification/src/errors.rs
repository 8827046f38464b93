//! Error kinds for atlas operations and persistence.

use vstd::prelude::*;

verus! {

/// Everything an atlas, session, or persistence operation can report.
/// Every operation that fails leaves the data it was given unchanged.
#[derive(Clone, Copy, PartialEq, Eq, Structural, Debug)]
pub enum HitboxError {
    /// A frame or category index outside the current bounds.
    IndexOutOfRange,
    /// A rectangle position not present in the addressed category.
    RectangleIndexInvalid,
    /// Loaded bytes do not decode into the expected structure.
    FormatParseFailure,
    /// A loaded atlas disagrees with the active grid's frame or
    /// category dimensions.
    DimensionMismatch,
    /// An operation that needs an atlas was issued while none is loaded.
    NoActiveAtlas,
    /// The chosen file could not be read. Raised only at the storage
    /// boundary; the parsing and replacing steps never see it.
    StorageReadFailure,
    /// The chosen file could not be written; the in-memory atlas is
    /// unaffected. Raised only at the storage boundary.
    StorageWriteFailure,
}

} // verus!
