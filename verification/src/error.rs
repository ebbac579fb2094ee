//! The ways a layout operation can fail.  Every failure is reported as an
//! explicit result value and leaves the window tree exactly as it was.

use vstd::prelude::*;
use crate::window::WinId;

verus! {

/// A layout operation's failure, carrying the identities involved so a
/// command layer can explain it to the user.
#[derive(Clone, Copy, Debug, PartialEq, Eq, Structural)]
pub enum WinError {
    /// The identity does not name a window that currently exists in the
    /// store — for example, a handle replayed after a remove.
    NodeNotFound(WinId),
    /// An expected parent-to-child split edge is missing.  With a well
    /// formed tree this never happens; it is reported rather than silently
    /// tolerated.
    EdgeNotFound(WinId, WinId),
    /// The window is the root: it has no parent to look up or to reparent
    /// a split under, and it cannot be removed.
    NoParent(WinId),
    /// A split edge carries a boundary coordinate outside its parent's
    /// region.  With a well formed tree this never happens.
    InvalidEdgeCoordinate(WinId, WinId),
}

} // verus!
