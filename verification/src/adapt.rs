//! Adaptive streaming — the shared client-side controller.
//!
//! * [`Controller`] — one pure decision per 2 s window: target wire rate, operating point
//!   (resolution × fps from the codec's [`ladder`]), encoder bitrate (net of FEC), and the host's
//!   loss-recovery mode. Fed with loss / keepalive RTT / per-frame arrival times. What a window
//!   does is stated in [`rules`], what follows from that over all windows in [`laws`].
//! * [`delay`] — the one-way delay-gradient estimator (trendline + over-use detector).
//! * [`fec_policy`] — how many packets one XOR parity covers for a measured loss.
//!
//! No I/O anywhere in here: the apps measure, call, and actuate.

mod controller;
pub mod delay;
pub mod fec_policy;
pub mod ladder;
pub mod laws;
pub mod rules;

pub use controller::{codec_from_wire, Config, Controller, Decision, Sample};
pub use delay::DelayState;
pub use ladder::Point;
pub use rules::{Signals, FLOOR_KBPS};
