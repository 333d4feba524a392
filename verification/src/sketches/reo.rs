//! Freezing a waiting putter from the getter's side.
use vstd::prelude::*;

verus! {

/// What an attempt to freeze the putter found.
#[derive(Debug, Copy, Clone, PartialEq, Eq, Structural)]
pub enum FreezeOutcome {
    Frozen,
    PeerNotWaiting,
    PeerDropped,
    PutterCommitted,
}

/// A getter that can freeze a waiting put, then let it go.
pub trait Freezer {
    fn freeze(&mut self) -> FreezeOutcome;

    fn thaw(&mut self);
}

} // verus!
