//! Wayland screen capture for the host: XDG ScreenCast portal → PipeWire → an in-process
//! GStreamer pipeline (`pipewiresrc ! … ! encoder ! rtp payloader ! udpsink`).
//!
//! With the pipeline inside the app the encoder's bitrate changes live, a keyframe can be forced
//! on request, and a short-GOP recovery mode is a timer that forces key units — no restart, no
//! portal churn. What is decided about a capture is here; the pipeline and the portal session
//! themselves are driven by the app.

use crate::text;
use vstd::prelude::*;
use vstd::string::{StrSliceExecFns, StringExecFns};

verus! {

/// Are we on a Wayland session (so `x11grab` would be black)? From the values of
/// `XDG_SESSION_TYPE` and `WAYLAND_DISPLAY`.
pub fn is_wayland(session_type: Option<&str>, display: Option<&str>) -> (b: bool)
    ensures
        b == ((session_type matches Some(t) && text::lowered(t@) == "wayland"@) || (display matches
            Some(d) && d@.len() > 0)),
{
    proof {
        reveal_strlit("wayland");
        assert(text::lowered("wayland"@) =~= "wayland"@);
    }
    let by_type: bool = match session_type {
        Some(t) => text::same_but_case(t, "wayland"),
        None => false,
    };
    let by_display: bool = match display {
        Some(d) => d.unicode_len() > 0,
        None => false,
    };
    by_type || by_display
}

/// Name the encoder element carries inside the pipeline (`… name=venc …`), so the live controls
/// can find it.
pub const ENCODER_NAME: &'static str = "venc";

/// How often the bus is drained, and how often a key unit is forced in recovery mode (ms).
pub const BUS_POLL_MS: u64 = 250;

pub const KEY_UNIT_MS: u64 = 500;

/// How long a pipeline may take to reach PLAYING (s).
pub const PLAYING_WAIT_S: u64 = 3;

/// Which rate properties the encoder element has.
#[derive(Clone, Copy, Debug, PartialEq, Eq, Structural)]
pub struct EncoderProperties {
    /// `bitrate`, in kbit/s (x264enc / vaapih26xenc / nvh26xenc).
    pub bitrate: bool,
    /// `bps`, in bit/s (the Rockchip mpp encoders).
    pub bps: bool,
}

/// A property of the encoder element and the value to give it.
#[derive(Clone, Debug, PartialEq, Eq)]
pub struct PropertySetting {
    pub name: &'static str,
    pub value: String,
}

/// What the pipeline's bus reports.
#[derive(Clone, Copy, Debug, PartialEq, Eq, Structural)]
pub enum BusMessage {
    Error,
    Eos,
    Other,
}

/// A running Wayland capture: what its live controls and helper tasks go by.
#[derive(Clone, Copy, Debug, PartialEq, Eq, Structural)]
pub struct WaylandCapture {
    /// The encoder element, if the pipeline has one of that name.
    pub encoder: Option<EncoderProperties>,
    /// Set when the bus reported an error / EOS (the pipeline is dead).
    pub dead: bool,
    /// Short-GOP recovery: a timer forces a key unit every 500 ms while set.
    pub short_gop: bool,
    /// Set on stop/drop so the helper tasks exit.
    pub stopped: bool,
}

/// At least 1.
pub open spec fn at_least_one(kbps: u32) -> int {
    if kbps < 1 {
        1
    } else {
        kbps as int
    }
}

/// `kbps` in bit/s, as far as 32 bits go.
pub open spec fn bits_per_second(kbps: u32) -> int {
    if at_least_one(kbps) * 1000 > u32::MAX {
        u32::MAX as int
    } else {
        at_least_one(kbps) * 1000
    }
}

impl WaylandCapture {
    /// A capture whose pipeline just reached PLAYING.
    pub fn new(encoder: Option<EncoderProperties>) -> (c: WaylandCapture)
        ensures
            c == (WaylandCapture { encoder, dead: false, short_gop: false, stopped: false }),
    {
        WaylandCapture { encoder, dead: false, short_gop: false, stopped: false }
    }

    /// Whether the pipeline is still running (no bus error / EOS seen).
    pub fn is_alive(&self) -> (b: bool)
        ensures
            b == !self.dead,
    {
        !self.dead
    }

    /// Change the encoder's target bitrate (kbit/s) **live** — no restart: which property takes
    /// which value. `None` when the element has no such property.
    pub fn set_bitrate(&self, kbps: u32) -> (setting: Option<PropertySetting>)
        ensures
            match self.encoder {
                Some(e) => if e.bitrate {
                    setting matches Some(p) && p.name@ == "bitrate"@ && p.value@ == text::decimal(
                        at_least_one(kbps) as nat,
                    )
                } else if e.bps {
                    setting matches Some(p) && p.name@ == "bps"@ && p.value@ == text::decimal(
                        bits_per_second(kbps) as nat,
                    )
                } else {
                    setting is None
                },
                None => setting is None,
            },
            // At least 1 kbit/s; a thousand times that in bit/s, as far as 32 bits go.
            self.encoder matches Some(e) ==> (setting matches Some(p) ==> {
                let asked = if kbps == 0 {
                    1
                } else {
                    kbps as int
                };
                text::number(p.value@, u32::MAX as int) == Some(
                    if e.bitrate {
                        asked
                    } else if asked * 1000 <= 4_294_967_295 {
                        asked * 1000
                    } else {
                        4_294_967_295
                    },
                )
            }),
    {
        proof {
            text::laws::law_decimals_read_back(at_least_one(kbps) as nat, u32::MAX as int);
            text::laws::law_decimals_read_back(bits_per_second(kbps) as nat, u32::MAX as int);
        }
        match self.encoder {
            Some(e) => {
                let kbps: u32 = if kbps < 1 {
                    1
                } else {
                    kbps
                };
                let mut value: String = String::new();
                if e.bitrate {
                    text::push_decimal(&mut value, kbps);
                    assert(value@ =~= text::decimal(kbps as nat));
                    Some(PropertySetting { name: "bitrate", value })
                } else if e.bps {
                    let bps: u32 = if kbps > u32::MAX / 1000 {
                        u32::MAX
                    } else {
                        kbps * 1000
                    };
                    text::push_decimal(&mut value, bps);
                    assert(value@ =~= text::decimal(bps as nat));
                    Some(PropertySetting { name: "bps", value })
                } else {
                    None
                }
            },
            None => None,
        }
    }

    /// Whether a client keyframe request (after an unrepaired loss) can go into the encoder.
    pub fn request_keyframe(&self) -> (b: bool)
        ensures
            b == self.encoder is Some,
    {
        self.encoder.is_some()
    }

    /// Loss-recovery mode: `true` = force a key unit every ~0.5 s (the client asked for the
    /// short GOP / intra refresh; gst encoders can't change their GOP live, so the keyframes are
    /// forced instead), `false` = the element's own key interval.
    pub fn set_short_gop(&mut self, on: bool)
        ensures
            *final(self) == (WaylandCapture { short_gop: on, ..*old(self) }),
    {
        self.short_gop = on;
    }

    /// A message came over the bus: an error or EOS means that the pipeline is dead.
    pub fn on_bus_message(&mut self, message: BusMessage)
        ensures
            *final(self) == (WaylandCapture {
                dead: old(self).dead || message != BusMessage::Other,
                ..*old(self)
            }),
    {
        match message {
            BusMessage::Error => {
                self.dead = true;
            },
            BusMessage::Eos => {
                self.dead = true;
            },
            BusMessage::Other => {},
        }
    }

    /// Stop the capture.
    pub fn stop(&mut self)
        ensures
            *final(self) == (WaylandCapture { stopped: true, ..*old(self) }),
    {
        self.stopped = true;
    }

    /// Whether the helper tasks go on.
    pub fn is_watched(&self) -> (b: bool)
        ensures
            b == !self.stopped,
    {
        !self.stopped
    }

    /// A key unit is forced in recovery mode, while the pipeline is not dead.
    pub open spec fn forces_key_unit(self) -> bool {
        self.short_gop && !self.dead
    }

    /// Whether the short-GOP timer forces a key unit now.
    pub fn key_unit_due(&self) -> (b: bool)
        ensures
            b == self.forces_key_unit(),
            b == (self.short_gop && !self.dead),
    {
        self.short_gop && !self.dead
    }
}

// ── Starting ──────────────────────────────────────────────────────────────────────────

/// How often a pipeline start is tried.
pub const START_ATTEMPTS: u32 = 3;

/// The attempts to start the pipeline. The PipeWire node can lag the portal reply by a moment:
/// the start is tried a few times, each time after a longer wait.
#[derive(Clone, Copy, Debug, PartialEq, Eq, Structural)]
pub struct StartAttempts {
    pub made: u32,
}

impl StartAttempts {
    pub fn new() -> (a: StartAttempts)
        ensures
            a.made == 0,
    {
        StartAttempts { made: 0 }
    }

    /// The wait (ms) before the next attempt, or `None` when no more are made.
    pub fn next_wait(&mut self) -> (wait_ms: Option<u64>)
        ensures
            old(self).made < START_ATTEMPTS ==> wait_ms == Some((300 * old(self).made) as u64)
                && final(self).made == old(self).made + 1,
            old(self).made >= START_ATTEMPTS ==> wait_ms is None && *final(self) == *old(self),
            // Three attempts: at once, after 300 ms, after 600 ms.
            wait_ms is Some <==> old(self).made < 3,
            wait_ms matches Some(ms) ==> ms == 300 * old(self).made,
    {
        if self.made < START_ATTEMPTS {
            let wait: u64 = 300 * self.made as u64;
            self.made = self.made + 1;
            Some(wait)
        } else {
            None
        }
    }
}

/// Whether a pipeline really got to PLAYING, from how its state change ended, whether it is
/// PLAYING now, what the bus says is wrong, and the state it is in. The failure in words.
pub fn playing_verdict(
    change_failed: bool,
    playing: bool,
    bus_error: Option<&str>,
    state: &str,
) -> (verdict: Result<(), String>)
    ensures
        !change_failed && playing ==> verdict is Ok,
        change_failed || !playing ==> {
            &&& verdict is Err
            &&& verdict->Err_0@
                == "gst pipeline failed to reach PLAYING (pipewire/portal node not ready?): "@ + (
            match bus_error {
                Some(e) => e@,
                None => "state "@ + state@,
            })
        },
{
    if !change_failed && playing {
        return Ok(());
    }
    let mut message: String =
        "gst pipeline failed to reach PLAYING (pipewire/portal node not ready?): ".to_owned();
    match bus_error {
        Some(e) => {
            message.append(e);
        },
        None => {
            message.append("state ");
            message.append(state);
            assert(message@
                =~= "gst pipeline failed to reach PLAYING (pipewire/portal node not ready?): "@ + (
            "state "@ + state@));
        },
    }
    Err(message)
}

/// The screencast stream to capture: the first one the portal returned.
pub fn first_stream(nodes: &[u32]) -> (node: Result<u32, &'static str>)
    ensures
        nodes@.len() > 0 ==> node == Ok::<u32, &'static str>(nodes@[0]),
        nodes@.len() == 0 ==> node is Err && node->Err_0@
            == "portal returned no screencast stream"@,
{
    if nodes.len() > 0 {
        Ok(nodes[0])
    } else {
        Err("portal returned no screencast stream")
    }
}

/// The descriptor flags without close-on-exec, so that the PipeWire descriptor survives; `None`
/// when the flags could not be read (a negative value).
pub fn without_cloexec(flags: i32, cloexec: i32) -> (kept: Option<i32>)
    ensures
        flags < 0 ==> kept is None,
        flags >= 0 ==> kept == Some(flags & !cloexec),
{
    if flags < 0 {
        None
    } else {
        Some(flags & !cloexec)
    }
}

// ── Laws ──────────────────────────────────────────────────────────────────────────────

/// What can happen to a capture.
pub enum CaptureEvent {
    Bus(BusMessage),
    ShortGop(bool),
    Stop,
}

/// A capture after an event.
pub open spec fn after_event(c: WaylandCapture, e: CaptureEvent) -> WaylandCapture {
    match e {
        CaptureEvent::Bus(m) => WaylandCapture { dead: c.dead || m != BusMessage::Other, ..c },
        CaptureEvent::ShortGop(on) => WaylandCapture { short_gop: on, ..c },
        CaptureEvent::Stop => WaylandCapture { stopped: true, ..c },
    }
}

/// A capture after a run of events.
pub open spec fn after_events(c: WaylandCapture, events: Seq<CaptureEvent>) -> WaylandCapture
    decreases events.len(),
{
    if events.len() == 0 {
        c
    } else {
        after_event(after_events(c, events.drop_last()), events.last())
    }
}

/// A dead pipeline stays dead and a stopped capture stays stopped, whatever happens; and no key
/// unit is forced into a dead pipeline.
pub proof fn law_dead_stays_dead(c: WaylandCapture, events: Seq<CaptureEvent>)
    ensures
        c.dead ==> after_events(c, events).dead,
        c.stopped ==> after_events(c, events).stopped,
        after_events(c, events).encoder == c.encoder,
        c.dead ==> !after_events(c, events).forces_key_unit(),
    decreases events.len(),
{
    if events.len() > 0 {
        law_dead_stays_dead(c, events.drop_last());
    }
}

/// A message that ends a pipeline.
pub open spec fn ends(e: CaptureEvent) -> bool {
    e == CaptureEvent::Bus(BusMessage::Error) || e == CaptureEvent::Bus(BusMessage::Eos)
}

/// A pipeline is dead exactly when the bus has reported an error or the end of the stream, and key
/// units are forced exactly while it is alive and short groups were asked for last.
pub proof fn law_what_a_run_of_events_leaves(c: WaylandCapture, events: Seq<CaptureEvent>)
    ensures
        after_events(c, events).dead <==> c.dead || exists|i: int|
            0 <= i < events.len() && ends(#[trigger] events[i]),
        after_events(c, events).stopped <==> c.stopped || exists|i: int|
            0 <= i < events.len() && #[trigger] events[i] == CaptureEvent::Stop,
        events.len() > 0 ==> (events.last() matches CaptureEvent::ShortGop(on) ==> after_events(
            c,
            events,
        ).forces_key_unit() == (on && !after_events(c, events).dead)),
        events.len() > 0 && !(events.last() is ShortGop) ==> after_events(c, events).short_gop
            == after_events(c, events.drop_last()).short_gop,
    decreases events.len(),
{
    if events.len() > 0 {
        let before = events.drop_last();
        let n = events.len() - 1;
        law_what_a_run_of_events_leaves(c, before);
        if exists|i: int| 0 <= i < before.len() && ends(#[trigger] before[i]) {
            let i = choose|i: int| 0 <= i < before.len() && ends(#[trigger] before[i]);
            assert(ends(events[i]));
        }
        if exists|i: int| 0 <= i < events.len() && ends(#[trigger] events[i]) {
            let i = choose|i: int| 0 <= i < events.len() && ends(#[trigger] events[i]);
            if i < n {
                assert(ends(before[i]));
            }
        }
        if exists|i: int| 0 <= i < before.len() && #[trigger] before[i] == CaptureEvent::Stop {
            let i = choose|i: int|
                0 <= i < before.len() && #[trigger] before[i] == CaptureEvent::Stop;
            assert(events[i] == CaptureEvent::Stop);
        }
        if exists|i: int| 0 <= i < events.len() && #[trigger] events[i] == CaptureEvent::Stop {
            let i = choose|i: int|
                0 <= i < events.len() && #[trigger] events[i] == CaptureEvent::Stop;
            if i < n {
                assert(before[i] == CaptureEvent::Stop);
            }
        }
        assert(events[n] == events.last());
    }
}

/// The flags keep every bit but those of close-on-exec, and lose those.
pub proof fn law_only_cloexec_is_cleared(flags: i32, cloexec: i32)
    ensures
        (flags & !cloexec) & cloexec == 0,
        (flags & !cloexec) | (flags & cloexec) == flags,
{
    assert((flags & !cloexec) & cloexec == 0) by (bit_vector);
    assert((flags & !cloexec) | (flags & cloexec) == flags) by (bit_vector);
}

} // verus!
