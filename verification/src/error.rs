//! The ways in which a relay ends other than by a clean shutdown.

use vstd::prelude::*;

verus! {

/// A fatal condition: the relay that meets one stops, and nothing is retried.
#[derive(Clone, Copy, Debug, PartialEq, Eq, Structural)]
pub enum BridgeError {
    /// A frame or an engine line that does not have the agreed shape.
    ProtocolViolation,
    /// A position text that cannot be set up, or a move that is not legal in
    /// the tracked position.
    IllegalPosition,
    /// The engine closed its output while results were still expected.
    EngineStreamClosed,
}

} // verus!
