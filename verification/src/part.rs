//! What every part has in common when it is closed.

use vstd::prelude::*;

verus! {

/// What is to be done with a part's file when the part is closed.
#[derive(Clone, Copy, Debug, PartialEq, Eq, Structural)]
pub enum CloseAction {
    /// The part's document is written back into the package.
    WriteBack,
    /// The part holds nothing: its file leaves the package, and with it
    /// the relationship that leads to it and its content type.
    Delete,
}

} // verus!
