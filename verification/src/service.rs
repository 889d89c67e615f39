//! The session-level service protocol.

use vstd::prelude::*;

pub mod media;

verus! {

/// How the host's encoder heals a picture after a loss.
#[derive(Clone, Copy, Debug, PartialEq, Eq, Structural)]
pub enum LossRecovery {
    /// The encoder's own key interval.
    Normal,
    /// A rolling intra refresh, for a client that can resume on a partially refreshed picture.
    IntraRefresh,
    /// Short groups of pictures, for a client that needs whole key frames.
    ShortGop,
}

} // verus!
