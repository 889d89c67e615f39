//! What the streaming pipeline is asked to produce.

use vstd::prelude::*;

verus! {

/// A video codec the encoders and decoders know.
#[derive(Clone, Copy, Debug, PartialEq, Eq, Hash, Structural)]
pub enum VCodec {
    H264,
    H265,
    Av1,
}

} // verus!
