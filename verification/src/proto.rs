//! What the relay protocol fixes.

use vstd::prelude::*;

verus! {

/// The port that a relay listens on unless its address says otherwise.
pub const DEFAULT_RELAY_PORT: u16 = 21116;

} // verus!
