//! The shared core of the Pulsar remote-desktop and game-streaming apps.

pub mod adapt;
pub mod audio;
pub mod capture;
pub mod config;
pub mod math;
pub mod pipeline;
pub mod proto;
pub mod service;
pub mod text;
