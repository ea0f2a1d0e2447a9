use vstd::prelude::*;

verus! {

/// The failures of the edit engine. None of them leaves the buffer or the
/// log in an invalid state.
#[derive(Debug, Clone, Copy, PartialEq, Eq, Structural)]
pub enum EditError {
    /// A line or column index does not fit the current buffer shape.
    OutOfRange,
    /// The undo log holds no applied operation.
    NothingToUndo,
    /// The undo log holds no undone operation.
    NothingToRedo,
}

} // verus!
