//! Audio capture: what is captured, from where, and how the host's settings say so.

use vstd::prelude::*;

verus! {

/// The system that a capture source is chosen for.
#[derive(Clone, Copy, Debug, PartialEq, Eq, Structural)]
pub enum Platform {
    Windows,
    MacOs,
    /// Linux and the rest: PulseAudio / PipeWire.
    Other,
}

/// Channel layout to capture and encode.
#[derive(Clone, Copy, Debug, Default, PartialEq, Eq, Structural)]
pub enum ChannelLayout {
    #[default]
    Stereo,
    Surround51,
    Surround71,
}

/// The audio toggles, for policy resolution.
#[derive(Clone, Copy, Debug, PartialEq, Eq, Structural)]
pub struct AudioSettings {
    pub transmit: bool,
    pub mute_host: bool,
    pub layout: ChannelLayout,
}

/// Where audio is captured from.
#[derive(Clone, Debug, PartialEq, Eq)]
pub enum AudioInput {
    /// Whatever the platform captures by default.
    PlatformDefault,
    /// A DirectShow device.
    Dshow(String),
    /// An AVFoundation device index.
    AvFoundation(u32),
    /// A PulseAudio / PipeWire source.
    Pulse(String),
}

} // verus!
