//! The shared client-side adaptive controller. One pure decision function over 2 s windows of
//! measurements, used by the desktop and mobile apps alike — the transport (LAN / P2P / relay)
//! only contributes a hard cap.
//!
//! Per window it produces a **target wire rate** (kbit/s) from loss, keepalive RTT and the
//! delay-gradient estimator, then picks an **operating point** (resolution × fps) from the
//! codec's ladder so that the target buys a clean picture, and the **encoder bitrate** (the
//! target minus the FEC parity share). It also flips the host's loss-recovery mode once, on
//! the first sustained loss.
//!
//! Rate rules:
//!
//! * **Delay first.** The trendline estimator's `Overuse` (queue filling) cuts ×0.85 right
//!   away — before loss; a keepalive-RTT excess over its baseline of ≥ 35 ms cuts ×0.7, ≥ 90
//!   ms halves. No climb while either says the link is queued.
//! * **Loss.** Raw loss > 15 % halves at once. Sustained loss > 3 % (after the learned noise
//!   floor) with a queued link cuts ×0.7; with a *flat* link it is probed once (×0.8) and, if
//!   the loss does not follow the rate, learned as random loss that no longer drives the rate.
//! * **No sawtooth.** A rate that produced loss/bloat becomes a punished ceiling (×0.85).
//!   Climbing back to the ceiling is free (after 20 s clean), going past it is a probe allowed
//!   only after 60 s clean at the ceiling; every failed probe doubles that wait.
//! * **Startup fast.** For the first `startup_windows` a clean window climbs ×1.5 at once.
//!
//! Ladder rules: pick the highest point whose minimum fits `target × 0.85`; go **down** as
//! soon as the target is under the current point's minimum (resolution changes restart an
//! encoder, so at most one change per 2 windows unless the shortfall is severe); go **up**
//! only after 20 s clean at the current point, to the best rung with `target ≥ min × 1.2`.
//!
//! Times are in microseconds, ratios in parts per billion. What each window does is stated in
//! [`super::rules`].

use super::delay::{DelayState, Trendline};
use super::fec_policy::FecLoad;
use super::ladder::Point;
use super::rules::{
    ControlView, Outcome, ProbeDown, Reason, SampleView, Signals, CLEAN_WINDOWS_UP,
    COOLDOWN_WINDOWS, DEADBAND_LEARN_WINDOWS, FAST_COOLDOWN_US, FAST_OVERUSE_US, FLOOR_KBPS,
    LAST_GOOD_WINDOWS, LOSS_CLEAN, LOSS_DOWN, LOSS_SEVERE, POINT_DEBOUNCE, POINT_MARGIN_DEN,
    POINT_MARGIN_NUM, PROBE_DOWN_WINDOWS, PROBE_PUNISH_WINDOWS, PROBE_WAIT_MAX, PROBE_WAIT_MIN,
    RECOVERY_LOSS, RECOVERY_WINDOWS, RTT_BAD_US, RTT_EXCESS_US, RTT_OK_US, UP_HEADROOM_DEN,
    UP_HEADROOM_NUM,
};
use crate::adapt::delay;
use crate::adapt::ladder;
use crate::adapt::laws;
use crate::adapt::rules;
use crate::math;
use crate::pipeline::VCodec;
use crate::service::LossRecovery;
use crate::text;
use vstd::prelude::*;

verus! {

/// One window's measurements.
#[derive(Clone, Debug)]
pub struct Sample {
    /// Video RTP packets received in the window (incl. repaired ones).
    pub recv: u32,
    /// Video RTP packets still missing at the end of the window.
    pub lost: u32,
    /// Keepalive RTT samples that arrived during the window (µs), oldest first.
    pub rtt_us: Vec<u64>,
    /// NACKs sent / answered in time (diagnostic, forwarded to the host).
    pub nack_sent: u32,
    pub nack_ok: u32,
    /// Packets rebuilt from FEC parity (diagnostic).
    pub fec_ok: u32,
}

impl Default for Sample {
    fn default() -> (s: Self)
        ensures
            s@ == (SampleView {
                recv: 0,
                lost: 0,
                rtt_us: Seq::empty(),
                nack_sent: 0,
                nack_ok: 0,
                fec_ok: 0,
            }),
    {
        Sample { recv: 0, lost: 0, rtt_us: Vec::new(), nack_sent: 0, nack_ok: 0, fec_ok: 0 }
    }
}

impl View for Sample {
    type V = SampleView;

    open spec fn view(&self) -> SampleView {
        SampleView {
            recv: self.recv,
            lost: self.lost,
            rtt_us: self.rtt_us@,
            nack_sent: self.nack_sent,
            nack_ok: self.nack_ok,
            fec_ok: self.fec_ok,
        }
    }
}

/// What to actuate after a window. All `None` = hold.
#[derive(Clone, Copy, Debug, PartialEq)]
pub struct Decision {
    /// New encoder bitrate (kbit/s) — already net of the FEC share.
    pub bitrate: Option<u32>,
    /// New operating point (resolution × fps).
    pub point: Option<Point>,
    pub recovery: Option<LossRecovery>,
    pub reason: &'static str,
}

impl Default for Decision {
    fn default() -> (d: Self)
        ensures
            d.tells(Outcome::hold()),
    {
        Decision { bitrate: None, point: None, recovery: None, reason: "" }
    }
}

impl Decision {
    /// The decision that an outcome comes to, its reason in words.
    pub open spec fn tells(self, out: Outcome) -> bool {
        &&& self.bitrate == out.bitrate
        &&& self.point == out.point
        &&& self.recovery == out.recovery
        &&& self.reason@ == out.reason.words()
    }

    fn of(out: Outcome) -> (d: Decision)
        ensures
            d.tells(out),
    {
        Decision {
            bitrate: out.bitrate,
            point: out.point,
            recovery: out.recovery,
            reason: out.reason.text(),
        }
    }

    pub fn is_change(&self) -> (b: bool)
        ensures
            b == (self.bitrate is Some || self.point is Some || self.recovery is Some),
    {
        self.bitrate.is_some() || self.point.is_some() || self.recovery.is_some()
    }
}

/// Controller configuration for one session.
#[derive(Clone, Copy, Debug)]
pub struct Config {
    pub codec: VCodec,
    /// Host native capture `(w, h, fps)`; 0 = unknown (1920×1080@60 assumed).
    pub native: (u32, u32, u32),
    /// Hard cap (kbit/s): the user's pick, already clamped to a relay cap.
    pub cap_kbps: u32,
    /// Starting target (kbit/s); 0 = the cap. Seed with 60 % of the peer's last good rate.
    pub start_kbps: u32,
    /// Whether this client can resume on a partially intra-refreshed picture.
    pub ir_capable: bool,
    /// Run the resolution/fps ladder (false = bitrate only, e.g. a user-pinned size).
    pub ladder: bool,
    /// Windows of aggressive startup probing.
    pub startup_windows: u32,
}

impl Config {
    pub fn new(codec: VCodec, cap_kbps: u32) -> (c: Config)
        ensures
            c.codec == codec,
            c.native == (0u32, 0u32, 0u32),
            c.cap_kbps == cap_kbps,
            c.start_kbps == 0,
            !c.ir_capable,
            c.ladder,
            c.startup_windows == 5,
    {
        Config {
            codec,
            native: (0, 0, 0),
            cap_kbps,
            start_kbps: 0,
            ir_capable: false,
            ladder: true,
            startup_windows: 5,
        }
    }

    /// The cap that holds: not under the floor.
    pub open spec fn cap(self) -> u32 {
        if self.cap_kbps > FLOOR_KBPS {
            self.cap_kbps
        } else {
            FLOOR_KBPS
        }
    }

    /// The target to start from: the cap, or the start asked for within floor and cap.
    pub open spec fn start(self) -> u32 {
        if self.start_kbps == 0 {
            self.cap()
        } else {
            math::clamped(self.start_kbps as int, FLOOR_KBPS as int, self.cap() as int) as u32
        }
    }

    /// The rungs to choose from, best first.
    pub open spec fn points(self) -> Seq<Point> {
        ladder::ladder_of(
            self.codec,
            ladder::or_default(self.native.0, 1920),
            ladder::or_default(self.native.1, 1080),
            ladder::or_default(self.native.2, 60),
        )
    }

    /// The state that a controller of this configuration starts from.
    pub open spec fn fresh(self) -> ControlView {
        ControlView {
            ir_capable: self.ir_capable,
            target: self.start(),
            cap: self.cap(),
            ceiling: self.cap(),
            clean: 0,
            at_ceiling: 0,
            probe_wait: PROBE_WAIT_MIN,
            probe_age: None,
            since_step: COOLDOWN_WINDOWS,
            over: 0,
            lossy: 0,
            noise_loss: 0,
            probe_down: None,
            rtt_base: 0,
            rtt_ema: 0,
            rtt_last: 0,
            deadband: 0,
            recovery: LossRecovery::Normal,
            startup_left: self.startup_windows,
            windows: 0,
            last: Signals::none(),
            points: self.points(),
            point_idx: if self.ladder {
                ladder::first_fit(
                    self.points(),
                    self.start(),
                    POINT_MARGIN_NUM,
                    POINT_MARGIN_DEN,
                    0,
                )
            } else {
                0
            },
            point_age: POINT_DEBOUNCE,
            clean_at_point: 0,
            manual_point: !self.ladder,
            encoder_kbps: self.start(),
            fec: FecLoad::Off,
            delay: delay::TrendView::fresh(),
            last_fast_cut_us: None,
            clean_at_target: 0,
            last_good: 0,
        }
    }
}

/// The codec that a wire id names.
pub open spec fn wire_codec(id: Seq<char>) -> VCodec {
    let name = text::lowered(text::trimmed(id));
    if name == "h265"@ || name == "hevc"@ {
        VCodec::H265
    } else if name == "av1"@ {
        VCodec::Av1
    } else {
        VCodec::H264
    }
}

/// Map a wire codec id (`h264` / `h265` / `hevc` / `av1`) to the ladder's codec.
pub fn codec_from_wire(id: &str) -> (codec: VCodec)
    ensures
        codec == wire_codec(id@),
        codec == VCodec::H265 <==> text::lowered(text::trimmed(id@)) == "h265"@ || text::lowered(
            text::trimmed(id@),
        ) == "hevc"@,
        codec == VCodec::Av1 <==> text::lowered(text::trimmed(id@)) == "av1"@,
{
    let name: &str = text::trim(id);
    proof {
        reveal_strlit("h265");
        reveal_strlit("hevc");
        reveal_strlit("av1");
        assert(text::lowered("h265"@) =~= "h265"@);
        assert(text::lowered("hevc"@) =~= "hevc"@);
        assert(text::lowered("av1"@) =~= "av1"@);
    }
    if text::same_but_case(name, "h265") || text::same_but_case(name, "hevc") {
        VCodec::H265
    } else if text::same_but_case(name, "av1") {
        VCodec::Av1
    } else {
        VCodec::H264
    }
}

/// The controller state, carried across windows.
#[derive(Clone, Debug)]
pub struct Controller {
    ir_capable: bool,
    /// Target wire rate (kbit/s).
    target: u32,
    cap: u32,
    ceiling: u32,
    clean: u32,
    at_ceiling: u32,
    probe_wait: u32,
    probe_age: Option<u32>,
    since_step: u32,
    over: u32,
    lossy: u32,
    noise_loss: u32,
    probe_down: Option<ProbeDown>,
    rtt_base: u64,
    rtt_ema: u64,
    rtt_last: u64,
    /// Consecutive deadband windows (mild loss, flat link).
    deadband: u32,
    recovery: LossRecovery,
    startup_left: u32,
    windows: u32,
    last: Signals,
    // Ladder.
    points: Vec<Point>,
    point_idx: usize,
    point_age: u32,
    clean_at_point: u32,
    manual_point: bool,
    /// The encoder bitrate last decided (net of FEC).
    encoder_kbps: u32,
    fec: FecLoad,
    // Delay estimator + fast reflex.
    delay: Trendline,
    last_fast_cut_us: Option<u64>,
    // Memory.
    clean_at_target: u32,
    last_good: u32,
}

impl View for Controller {
    type V = ControlView;

    closed spec fn view(&self) -> ControlView {
        ControlView {
            ir_capable: self.ir_capable,
            target: self.target,
            cap: self.cap,
            ceiling: self.ceiling,
            clean: self.clean,
            at_ceiling: self.at_ceiling,
            probe_wait: self.probe_wait,
            probe_age: self.probe_age,
            since_step: self.since_step,
            over: self.over,
            lossy: self.lossy,
            noise_loss: self.noise_loss,
            probe_down: self.probe_down,
            rtt_base: self.rtt_base,
            rtt_ema: self.rtt_ema,
            rtt_last: self.rtt_last,
            deadband: self.deadband,
            recovery: self.recovery,
            startup_left: self.startup_left,
            windows: self.windows,
            last: self.last,
            points: self.points@,
            point_idx: self.point_idx as int,
            point_age: self.point_age,
            clean_at_point: self.clean_at_point,
            manual_point: self.manual_point,
            encoder_kbps: self.encoder_kbps,
            fec: self.fec,
            delay: self.delay@,
            last_fast_cut_us: self.last_fast_cut_us,
            clean_at_target: self.clean_at_target,
            last_good: self.last_good,
        }
    }
}

impl Controller {
    /// A controller in a state that it can get into.
    pub open spec fn wf(&self) -> bool {
        self@.wf()
    }

    pub fn new(cfg: Config) -> (c: Controller)
        ensures
            c.wf(),
            c@ == cfg.fresh(),
    {
        let cap: u32 = if cfg.cap_kbps > FLOOR_KBPS {
            cfg.cap_kbps
        } else {
            FLOOR_KBPS
        };
        let start: u32 = if cfg.start_kbps == 0 {
            cap
        } else {
            clamp(cfg.start_kbps as u64, cap)
        };
        let points: Vec<Point> = ladder::build(
            cfg.codec,
            cfg.native.0,
            cfg.native.1,
            cfg.native.2,
        );
        let point_idx: usize = if cfg.ladder {
            ladder::pick(points.as_slice(), start, POINT_MARGIN_NUM, POINT_MARGIN_DEN)
        } else {
            0
        };
        let c = Controller {
            ir_capable: cfg.ir_capable,
            target: start,
            cap,
            ceiling: cap,
            clean: 0,
            at_ceiling: 0,
            probe_wait: PROBE_WAIT_MIN,
            probe_age: None,
            since_step: COOLDOWN_WINDOWS,
            over: 0,
            lossy: 0,
            noise_loss: 0,
            probe_down: None,
            rtt_base: 0,
            rtt_ema: 0,
            rtt_last: 0,
            deadband: 0,
            recovery: LossRecovery::Normal,
            startup_left: cfg.startup_windows,
            windows: 0,
            last: Signals::default(),
            points,
            point_idx,
            point_age: POINT_DEBOUNCE,
            clean_at_point: 0,
            manual_point: !cfg.ladder,
            encoder_kbps: start,
            fec: FecLoad::Off,
            delay: Trendline::new(),
            last_fast_cut_us: None,
            clean_at_target: 0,
            last_good: 0,
        };
        assert(c.points.len() == c@.points.len());
        assert(c@ =~= cfg.fresh());
        c
    }

    // ── Read-only views ──

    pub fn target_kbps(&self) -> (kbps: u32)
        ensures
            kbps == self@.target,
    {
        self.target
    }

    /// Encoder bitrate currently requested (net of the FEC share).
    pub fn encoder_kbps(&self) -> (kbps: u32)
        ensures
            kbps == self@.encoder_kbps,
    {
        self.encoder_kbps
    }

    pub fn point(&self) -> (p: Point)
        requires
            self.wf(),
        ensures
            p == self@.points[self@.point_idx],
    {
        self.points[self.point_idx]
    }

    pub fn points(&self) -> (points: &[Point])
        ensures
            points@ == self@.points,
    {
        self.points.as_slice()
    }

    pub fn ceiling(&self) -> (kbps: u32)
        ensures
            kbps == self@.ceiling,
    {
        self.ceiling
    }

    pub fn probe_wait(&self) -> (windows: u32)
        ensures
            windows == self@.probe_wait,
    {
        self.probe_wait
    }

    pub fn noise_loss(&self) -> (loss: u32)
        ensures
            loss == self@.noise_loss,
    {
        self.noise_loss
    }

    pub fn recovery(&self) -> (r: LossRecovery)
        ensures
            r == self@.recovery,
    {
        self.recovery
    }

    pub fn windows(&self) -> (n: u32)
        ensures
            n == self@.windows,
    {
        self.windows
    }

    pub fn last(&self) -> (s: Signals)
        ensures
            s == self@.last,
    {
        self.last
    }

    /// The host's FEC group size (0 = none, or parity that does not come in groups).
    pub fn fec_n(&self) -> (n: u8)
        ensures
            n == (match self@.fec {
                FecLoad::Group(n) => n,
                _ => 0u8,
            }),
    {
        match self.fec {
            FecLoad::Group(n) => n,
            _ => 0,
        }
    }

    /// The most recent rate that stayed clean for `LAST_GOOD_WINDOWS` (0 = none yet). The app
    /// persists it per peer and seeds the next session with 60 % of it.
    pub fn last_good_kbps(&self) -> (kbps: u32)
        ensures
            kbps == self@.last_good,
    {
        self.last_good
    }

    /// The recovery mode this client asks for once the path proves lossy.
    pub fn preferred_recovery(&self) -> (r: LossRecovery)
        ensures
            r == self@.preferred(),
    {
        if self.ir_capable {
            LossRecovery::IntraRefresh
        } else {
            LossRecovery::ShortGop
        }
    }

    // ── Inputs between windows ──

    /// One received video frame: its RTP timestamp (90 kHz) and the local arrival time of its
    /// last packet (µs, any monotonic clock) — feeds the delay-gradient estimator.
    pub fn on_frame(&mut self, send_ts_90k: u32, arrival_us: u64)
        requires
            old(self).wf(),
        ensures
            final(self).wf(),
            final(self)@ == (ControlView {
                delay: old(self)@.delay.after_frame(send_ts_90k, arrival_us),
                ..old(self)@
            }),
    {
        self.delay.on_frame(send_ts_90k, arrival_us);
        assert(self@ =~= (ControlView { delay: self.delay@, ..old(self)@ }));
    }

    /// The host's current FEC group size as observed from parity packets (0 = none): the
    /// encoder gets `n/(n+1)` of the target so the wire rate stays at the target.
    pub fn set_fec_n(&mut self, n: u8)
        ensures
            final(self)@ == (ControlView {
                fec: if n == 0 {
                    FecLoad::Off
                } else {
                    FecLoad::Group(n)
                },
                ..old(self)@
            }),
    {
        self.fec = if n == 0 {
            FecLoad::Off
        } else {
            FecLoad::Group(n)
        };
        assert(self@ =~= (ControlView { fec: self.fec, ..old(self)@ }));
    }

    /// The host's current parity overhead (parity bytes / media bytes, 0 = none): the encoder
    /// gets `1/(1+r)` of the target.
    pub fn set_fec_overhead(&mut self, overhead: u32)
        ensures
            final(self)@ == (ControlView {
                fec: if overhead == 0 {
                    FecLoad::Off
                } else {
                    FecLoad::Overhead(overhead)
                },
                ..old(self)@
            }),
    {
        self.fec = if overhead == 0 {
            FecLoad::Off
        } else {
            FecLoad::Overhead(overhead)
        };
        assert(self@ =~= (ControlView { fec: self.fec, ..old(self)@ }));
    }

    /// The user pinned (or unpinned) the bitrate: resync the target without punishment.
    pub fn set_target(&mut self, kbps: u32)
        requires
            old(self).wf(),
        ensures
            final(self).wf(),
            final(self)@ == old(self)@.retargeted(kbps),
            final(self)@.target == laws::session::within(kbps, old(self)@.cap),
            final(self)@.encoder_kbps == laws::point::net_of(old(self)@.fec, final(self)@.target),
    {
        proof {
            laws::session::law_a_set_rate_is_the_target(self@, kbps);
        }
        let target: u32 = clamp(kbps as u64, self.cap);
        if target != self.target {
            self.clean_at_target = 0;
        }
        self.target = target;
        self.since_step = 0;
        self.encoder_kbps = self.encoder_rate();
        assert(self@ =~= old(self)@.retargeted(kbps));
    }

    /// The user pinned a resolution/fps (`true`) or went back to automatic (`false`).
    pub fn set_manual_point(&mut self, manual: bool)
        requires
            old(self).wf(),
        ensures
            final(self).wf(),
            final(self)@ == old(self)@.pinned(manual),
            final(self)@.manual_point == manual,
            manual ==> final(self)@.point_idx == old(self)@.point_idx,
            !manual ==> laws::session::is_best_buy(final(self)@),
    {
        proof {
            laws::session::law_pinning_and_unpinning(self@);
        }
        self.manual_point = manual;
        if !manual {
            self.point_idx = ladder::pick(
                self.points.as_slice(),
                self.target,
                POINT_MARGIN_NUM,
                POINT_MARGIN_DEN,
            );
            self.point_age = 0;
            self.clean_at_point = 0;
        }
        assert(self@ =~= old(self)@.pinned(manual));
    }

    /// A stream restart re-based the host's clocks: forget the delay history.
    pub fn on_stream_restart(&mut self)
        requires
            old(self).wf(),
        ensures
            final(self).wf(),
            final(self)@ == (ControlView { delay: delay::TrendView::fresh(), ..old(self)@ }),
    {
        self.delay.reset();
        assert(self@ =~= (ControlView { delay: delay::TrendView::fresh(), ..old(self)@ }));
    }

    /// Fast reflex between windows (call every ≤ 200 ms with the same clock as `on_frame`): a
    /// sustained Overuse hypothesis cuts ×0.85 without waiting for the tick.
    pub fn poll_fast(&mut self, now_us: u64) -> (d: Option<Decision>)
        requires
            old(self).wf(),
        ensures
            final(self).wf(),
            !old(self)@.reflex_due(now_us) ==> d is None && final(self)@ == old(self)@,
            old(self)@.reflex_due(now_us) ==> {
                &&& d is Some
                &&& d->0.tells(old(self)@.reflexed(now_us).1)
                &&& final(self)@ == old(self)@.reflexed(now_us).0
            },
            d is Some <==> laws::session::must_react(old(self)@, now_us),
            d is None ==> final(self)@ == old(self)@,
            d is Some ==> {
                &&& final(self)@.target == laws::decision::floored(old(self)@.target * 85 / 100)
                &&& final(self)@.ceiling == final(self)@.target
                &&& final(self)@.encoder_kbps == laws::point::net_of(
                    old(self)@.fec,
                    final(self)@.target,
                )
                &&& d->0.bitrate == (if final(self)@.encoder_kbps == old(self)@.encoder_kbps {
                    None
                } else {
                    Some(final(self)@.encoder_kbps)
                })
                &&& old(self)@.manual_point ==> d->0.point is None
                &&& d->0.recovery is None
            },
    {
        proof {
            if laws::session::must_react(self@, now_us) {
                laws::session::law_a_poll_reacts_to_sustained_overuse(self@, now_us);
                laws::session::law_a_poll_may_step_down(self@, now_us);
            } else {
                laws::session::law_any_other_poll_does_nothing(self@, now_us);
            }
        }
        let cooled: bool = match self.last_fast_cut_us {
            Some(last) => now_us >= last && now_us - last >= FAST_COOLDOWN_US,
            None => true,
        };
        if self.delay.overuse_ms(now_us) < FAST_OVERUSE_US || !cooled || self.target
            <= FLOOR_KBPS {
            return None;
        }
        self.last_fast_cut_us = Some(now_us);
        assert(self@ =~= (ControlView { last_fast_cut_us: Some(now_us), ..old(self)@ }));
        let mut out = Outcome { bitrate: None, point: None, recovery: None, reason: Reason::Hold };
        self.cut(85, 100, Reason::DelayOveruseFast, &mut out);
        self.apply_ladder(&mut out);
        Some(Decision::of(out))
    }

    // ── The window decision ──

    /// The window decision.
    pub fn tick(&mut self, s: &Sample) -> (d: Decision)
        requires
            old(self).wf(),
            old(self)@.windows < u32::MAX,
            s.recv + s.lost <= u32::MAX,
        ensures
            final(self).wf(),
            final(self)@ == old(self)@.ticked(s@).0,
            d.tells(old(self)@.ticked(s@).1),
            final(self)@.windows == old(self)@.windows + 1,
            final(self)@.cap == old(self)@.cap,
    {
        proof {
            laws::law_windows_keep_the_session(self@, s@);
        }
        let total: u32 = s.recv + s.lost;
        self.measure(s, total);
        let mut out: Outcome = self.update_recovery(total);
        self.apply_rules(total, &mut out);
        let done: Outcome = self.finish(out);
        Decision::of(done)
    }

    /// Takes one window's measurements in.
    fn measure(&mut self, s: &Sample, total: u32)
        requires
            old(self).wf(),
            old(self)@.windows < u32::MAX,
            total == s@.total(),
        ensures
            final(self)@.in_window(),
            final(self)@.lossy < final(self)@.windows,
            final(self)@ == old(self)@.measured(s@),
    {
        self.windows = self.windows + 1;
        self.since_step = self.since_step.saturating_add(1);
        self.point_age = self.point_age.saturating_add(1);
        if let Some(age) = self.probe_age {
            self.probe_age = Some(age + 1);
        }
        let loss: u32 = loss_of(s.lost, total);
        let (rtt, excess, jitter): (u64, u64, u64) = self.update_rtt(s.rtt_us.as_slice());
        if loss < self.noise_loss {
            self.noise_loss = loss;
        }
        self.last = Signals {
            loss,
            eff_loss: loss - self.noise_loss,
            rtt_us: rtt,
            excess_us: excess,
            jitter_us: jitter,
            delay: self.delay.state(),
            trend: self.delay.trend(),
        };
        proof {
            reveal(ControlView::measured);
        }
        assert(self@ =~= old(self)@.measured(s@));
    }

    /// The window's RTT samples: the mean RTT, its excess over the baseline, the jitter.
    fn update_rtt(&mut self, samples: &[u64]) -> (r: (u64, u64, u64))
        requires
            old(self).wf(),
        ensures
            final(self).wf(),
            ({
                let run = rules::rtt_run(samples@, old(self)@.rtt_base, old(self)@.rtt_last);
                let ema = old(self)@.next_ema(run);
                let base = ControlView::rebased(run.base, ema);
                &&& final(self)@ == ControlView {
                    rtt_base: base as u64,
                    rtt_ema: ema as u64,
                    rtt_last: run.last,
                    ..old(self)@
                }
                &&& r.0 == ema
                &&& r.1 == ControlView::over_base(ema, base)
                &&& r.2 == run.jitter()
                &&& 0 <= ema <= u64::MAX
                &&& 0 <= base <= u64::MAX
            }),
    {
        let mut jitter_sum: u128 = 0;
        let mut jitter_n: u64 = 0;
        let mut sum: u128 = 0;
        let mut n: u64 = 0;
        let mut base: u64 = self.rtt_base;
        let mut last: u64 = self.rtt_last;
        let mut i: usize = 0;
        proof {
            assert(samples@.take(0).len() == 0);
        }
        while i < samples.len()
            invariant
                i <= samples@.len(),
                n <= i,
                jitter_n <= i,
                sum <= n * u64::MAX,
                jitter_sum <= jitter_n * u64::MAX,
                rules::rtt_run(samples@.take(i as int), self.rtt_base, self.rtt_last) == (
                rules::RttRun {
                    base,
                    last,
                    sum: sum as int,
                    n: n as nat,
                    jitter_sum: jitter_sum as int,
                    jitter_n: jitter_n as nat,
                }),
            decreases samples@.len() - i,
        {
            let x: u64 = samples[i];
            proof {
                let next = samples@.take(i + 1);
                assert(next.drop_last() =~= samples@.take(i as int));
                assert(next.last() == x);
            }
            i = i + 1;
            if x > 0 {
                sum = sum + x as u128;
                n = n + 1;
                if base == 0 || x < base {
                    base = x;
                }
                if last > 0 {
                    let step: u64 = if x < last {
                        last - x
                    } else {
                        x - last
                    };
                    jitter_sum = jitter_sum + step as u128;
                    jitter_n = jitter_n + 1;
                }
                last = x;
            }
        }
        proof {
            assert(samples@.take(samples@.len() as int) =~= samples@);
            lemma_mean(sum as int, n as int);
            lemma_mean(jitter_sum as int, jitter_n as int);
        }
        // The window's mean RTT. With a single sample the previous value is blended in to damp
        // one-off spikes.
        let ema: u64 = if n == 0 {
            self.rtt_ema
        } else {
            let mean: u64 = (sum / n as u128) as u64;
            if self.rtt_ema == 0 || n >= 2 {
                mean
            } else {
                ((self.rtt_ema as u128 + mean as u128) / 2) as u64
            }
        };
        // Slow upward re-baseline: a path whose floor really moved stops looking "bloated"
        // after a few minutes.
        if base > 0 && ema > base {
            base = base + (ema - base) / 50;
        }
        let excess: u64 = if base > 0 && ema > base {
            ema - base
        } else {
            0
        };
        let jitter: u64 = if jitter_n > 0 {
            (jitter_sum / jitter_n as u128) as u64
        } else {
            0
        };
        self.rtt_base = base;
        self.rtt_ema = ema;
        self.rtt_last = last;
        assert(self@ =~= (ControlView {
            rtt_base: base,
            rtt_ema: ema,
            rtt_last: last,
            ..old(self)@
        }));
        (ema, excess, jitter)
    }

    /// Loss-recovery mode: flip once, on the first sustained loss.
    fn update_recovery(&mut self, total: u32) -> (out: Outcome)
        requires
            old(self)@.in_window(),
            old(self)@.lossy < old(self)@.windows,
        ensures
            final(self)@.in_window(),
            (final(self)@, out) == old(self)@.recovering(total as int),
    {
        let mut out = Outcome { bitrate: None, point: None, recovery: None, reason: Reason::Hold };
        if total > 50 && self.last.loss > RECOVERY_LOSS {
            self.lossy = self.lossy + 1;
        } else {
            self.lossy = 0;
        }
        if self.recovery == LossRecovery::Normal && total > 50 && (self.lossy >= RECOVERY_WINDOWS
            || self.last.loss > LOSS_DOWN) {
            self.recovery = self.preferred_recovery();
            out.recovery = Some(self.recovery);
            out.reason = Reason::RecoveryMode;
        }
        assert(self@ =~= old(self)@.recovering(total as int).0);
        out
    }

    /// Applies the rule that the measured window comes under.
    fn apply_rules(&mut self, total: u32, out: &mut Outcome)
        requires
            old(self)@.in_window(),
        ensures
            final(self).wf(),
            (final(self)@, *final(out)) == old(self)@.applied(total as int, *old(out)),
    {
        proof {
            reveal(ControlView::applied);
        }
        if let Some(pd) = self.probe_down {
            self.judge_probe(pd, total, out);
            return;
        }
        let loss: u32 = self.last.loss;
        let eff: u32 = self.last.eff_loss;
        let excess: u64 = self.last.excess_us;
        let delay: DelayState = self.last.delay;
        // "Now" excess: the window's LAST sample over the baseline.
        let excess_now: u64 = if self.rtt_base > 0 && self.rtt_last > self.rtt_base {
            self.rtt_last - self.rtt_base
        } else {
            0
        };
        let draining: bool = delay == DelayState::Underuse || (excess >= RTT_OK_US && excess_now
            < RTT_OK_US);
        let queued: bool = !draining && (excess >= RTT_OK_US || delay == DelayState::Overuse);
        let above_floor: bool = self.target > FLOOR_KBPS;
        if delay == DelayState::Overuse && above_floor {
            self.cut(85, 100, Reason::DelayOveruse, out);
        } else if excess >= RTT_EXCESS_US && !draining && above_floor {
            if excess >= RTT_BAD_US {
                self.cut(1, 2, Reason::RttSevere, out);
            } else {
                self.cut(7, 10, Reason::RttBloat, out);
            }
        } else if total > 100 && loss > LOSS_SEVERE && above_floor {
            self.cut(1, 2, Reason::SevereLoss, out);
        } else if total > 100 && eff > LOSS_DOWN {
            self.on_mild_loss(total, queued, out);
        } else if total > 0 && eff < LOSS_CLEAN && !queued && delay == DelayState::Normal {
            self.on_clean(out);
        } else {
            self.on_deadband(total, queued, out);
        }
    }

    /// A probe-down is being judged: did the loss follow the rate?
    fn judge_probe(&mut self, pd: ProbeDown, total: u32, out: &mut Outcome)
        requires
            old(self)@.in_window(),
            old(self)@.probe_down == Some(pd),
        ensures
            final(self).wf(),
            (final(self)@, *final(out)) == old(self)@.applied(total as int, *old(out)),
    {
        proof {
            reveal(ControlView::applied);
        }
        let mut seen = pd;
        seen.windows = seen.windows + 1;
        seen.loss_acc = seen.loss_acc + self.last.loss as u64;
        assert(seen == pd.observing(self@.last.loss));
        assert(seen.windows == 2 ==> seen.loss_acc <= 2_000_000_000);
        self.deadband = 0;
        self.clean_at_target = 0;
        if seen.windows < PROBE_DOWN_WINDOWS {
            self.probe_down = Some(seen);
            assert(self@ =~= old(self)@.applied(total as int, *old(out)).0);
            return;
        }
        self.probe_down = None;
        assert(self@ =~= (ControlView {
            probe_down: None,
            deadband: 0,
            clean_at_target: 0,
            ..old(self)@
        }));
        let after: u32 = (seen.loss_acc / seen.windows as u64) as u32;
        assert(seen.windows == 2 && after == seen.loss_acc / 2 && after <= 1_000_000_000);
        if pd.fec != self.fec {
            // FEC changed under the probe: inconclusive — restore, judge again later.
            self.apply_rate(pd.from as u64, out);
            out.reason = Reason::ProbeInconclusive;
        } else if after as u64 * 10 <= pd.pre_loss as u64 * 6 {
            self.punish(pd.from);
            out.reason = Reason::ProbeFollowed;
        } else {
            if after > self.noise_loss {
                self.noise_loss = after;
            }
            assert(self@ =~= (ControlView {
                probe_down: None,
                noise_loss: rules::larger(old(self)@.noise_loss as int, after as int) as u32,
                deadband: 0,
                clean_at_target: 0,
                ..old(self)@
            }));
            self.apply_rate(pd.from as u64, out);
            out.reason = Reason::ProbeNoise;
        }
    }

    /// Sustained mild loss.
    fn on_mild_loss(&mut self, total: u32, queued: bool, out: &mut Outcome)
        requires
            old(self)@.in_window(),
            queued == old(self)@.queued(),
            old(self)@.rule(total as int) is MildLoss || old(self)@.rule(total as int) is QueuedLoss
                || old(self)@.rule(total as int) is ProbeDown,
        ensures
            final(self).wf(),
            (final(self)@, *final(out)) == old(self)@.applied(total as int, *old(out)),
    {
        proof {
            reveal(ControlView::applied);
        }
        self.over = self.over + 1;
        self.clean = 0;
        self.at_ceiling = 0;
        self.deadband = 0;
        self.clean_at_point = 0;
        self.clean_at_target = 0;
        assert(self@ =~= old(self)@.in_mild_loss());
        if self.over >= 2 && self.since_step >= COOLDOWN_WINDOWS && self.target > FLOOR_KBPS {
            if queued {
                self.cut(7, 10, Reason::QueuedLoss, out);
            } else {
                let before: u32 = self.target;
                self.over = 0;
                self.probe_down = Some(
                    ProbeDown {
                        from: before,
                        pre_loss: self.last.loss,
                        windows: 0,
                        loss_acc: 0,
                        fec: self.fec,
                    },
                );
                assert(self@ =~= (ControlView {
                    over: 0,
                    probe_down: self.probe_down,
                    ..old(self)@.in_mild_loss()
                }));
                self.apply_rate(before as u64 * 4 / 5, out);
                out.reason = Reason::ProbeDown;
            }
        }
    }

    /// Clean window on an unqueued link: climb / probe.
    fn on_clean(&mut self, out: &mut Outcome)
        requires
            old(self)@.in_window(),
            old(self)@.probe_down is None,
        ensures
            final(self).wf(),
            (final(self)@, *final(out)) == old(self)@.after_clean(*old(out)),
    {
        self.count_clean();
        if self.target < self.ceiling {
            self.climb(out);
        } else {
            self.probe_up(out);
        }
    }

    fn count_clean(&mut self)
        requires
            old(self)@.in_window(),
            old(self)@.probe_down is None,
        ensures
            final(self).wf(),
            final(self)@.clean < final(self)@.windows,
            final(self)@.at_ceiling < final(self)@.windows,
            final(self)@ == old(self)@.counted_clean(),
    {
        self.over = 0;
        self.deadband = 0;
        if let Some(age) = self.probe_age {
            if age >= PROBE_PUNISH_WINDOWS {
                self.probe_age = None;
                let half: u32 = self.probe_wait / 2;
                self.probe_wait = if half > PROBE_WAIT_MIN {
                    half
                } else {
                    PROBE_WAIT_MIN
                };
            }
        }
        self.clean_at_point = self.clean_at_point + 1;
        self.clean_at_target = self.clean_at_target + 1;
        if self.clean_at_target >= LAST_GOOD_WINDOWS {
            self.last_good = self.target;
        }
        assert(self@ =~= old(self)@.counted_clean());
    }

    /// Toward the ceiling.
    fn climb(&mut self, out: &mut Outcome)
        requires
            old(self).wf(),
            old(self)@.probe_down is None,
            old(self)@.clean < old(self)@.windows,
        ensures
            final(self).wf(),
            (final(self)@, *final(out)) == old(self)@.below_ceiling(*old(out)),
    {
        self.clean = self.clean + 1;
        self.at_ceiling = 0;
        let startup: bool = self.startup_left > 0;
        let need: u32 = if startup {
            1
        } else {
            CLEAN_WINDOWS_UP
        };
        if self.clean >= need {
            self.clean = 0;
            let up: u64 = if startup {
                self.target as u64 * 3 / 2
            } else {
                self.target as u64 * 5 / 4
            };
            let next: u64 = if up < self.ceiling as u64 {
                up
            } else {
                self.ceiling as u64
            };
            assert(self@ =~= (ControlView { clean: 0, at_ceiling: 0, ..old(self)@ }));
            self.apply_rate(next, out);
            out.reason = if startup {
                Reason::StartupProbe
            } else {
                Reason::Climb
            };
        } else {
            assert(self@ =~= old(self)@.below_ceiling(*old(out)).0);
        }
    }

    /// At the ceiling: wait, then past it.
    fn probe_up(&mut self, out: &mut Outcome)
        requires
            old(self).wf(),
            old(self)@.probe_down is None,
            old(self)@.at_ceiling < old(self)@.windows,
        ensures
            final(self).wf(),
            (final(self)@, *final(out)) == old(self)@.at_the_ceiling(*old(out)),
    {
        self.clean = 0;
        self.at_ceiling = self.at_ceiling + 1;
        if self.at_ceiling >= self.probe_wait && self.ceiling < self.cap {
            self.at_ceiling = 0;
            let up: u64 = self.target as u64 * 11 / 10;
            let next: u32 = if up < self.cap as u64 {
                up as u32
            } else {
                self.cap
            };
            if next > self.ceiling {
                self.ceiling = next;
            }
            self.probe_age = Some(0);
            assert(self@ =~= (ControlView {
                clean: 0,
                at_ceiling: 0,
                ceiling: rules::larger(
                    old(self)@.probe_goal(),
                    old(self)@.ceiling as int,
                ) as u32,
                probe_age: Some(0),
                ..old(self)@
            }));
            self.apply_rate(next as u64, out);
            out.reason = Reason::ProbeUp;
        } else {
            assert(self@ =~= old(self)@.at_the_ceiling(*old(out)).0);
        }
    }

    /// Deadband: hold. Mild loss that persists on a FLAT link is not congestion (the residual
    /// after FEC / NACK on a noisy path): learn it as the noise floor so the climb can resume.
    fn on_deadband(&mut self, total: u32, queued: bool, out: &mut Outcome)
        requires
            old(self)@.in_window(),
            queued == old(self)@.queued(),
        ensures
            final(self).wf(),
            (final(self)@, *final(out)) == old(self)@.after_deadband(total as int, *old(out)),
    {
        let eff: u32 = self.last.eff_loss;
        self.over = 0;
        self.clean = 0;
        self.at_ceiling = 0;
        self.clean_at_point = 0;
        self.clean_at_target = 0;
        if total > 100 && eff > 0 && eff <= LOSS_DOWN && !queued && self.last.delay
            != DelayState::Underuse {
            self.deadband = self.deadband + 1;
            if self.deadband >= DEADBAND_LEARN_WINDOWS {
                self.deadband = 0;
                if self.last.loss > self.noise_loss {
                    self.noise_loss = self.last.loss;
                }
                out.reason = Reason::MildNoise;
            }
        } else {
            self.deadband = 0;
        }
        assert(self@ =~= old(self)@.after_deadband(total as int, *old(out)).0);
    }

    // ── Internals ──

    fn finish(&mut self, out: Outcome) -> (done: Outcome)
        requires
            old(self).wf(),
        ensures
            final(self).wf(),
            (final(self)@, done) == old(self)@.finished(out),
    {
        proof {
            reveal(ControlView::finished);
        }
        let mut out = out;
        self.startup_left = self.startup_left.saturating_sub(1);
        assert(self@ =~= (ControlView {
            startup_left: old(self)@.startup_left.saturating_sub(1),
            ..old(self)@
        }));
        self.apply_ladder(&mut out);
        // The encoder's part may change with FEC even when the target holds.
        let encoder: u32 = self.encoder_rate();
        let ghost before = self@;
        if encoder != self.encoder_kbps {
            self.encoder_kbps = encoder;
            if out.bitrate.is_none() {
                out.bitrate = Some(encoder);
                if out.reason == Reason::Hold {
                    out.reason = Reason::FecShare;
                }
            }
        }
        assert(self@ =~= (ControlView { encoder_kbps: encoder, ..before }));
        out
    }

    fn encoder_rate(&self) -> (kbps: u32)
        requires
            self.target >= FLOOR_KBPS,
        ensures
            kbps == self@.encoder_rate(),
            FLOOR_KBPS <= kbps <= self.target,
    {
        proof {
            reveal(rules::encoder_rate_of);
        }
        let part: u32 = self.fec.encoder_part(self.target);
        if part > FLOOR_KBPS {
            part
        } else {
            FLOOR_KBPS
        }
    }

    /// A rate produced loss/bloat: remember it as a punished ceiling and, if it was a probe,
    /// double the wait before the next one.
    fn punish(&mut self, bad_rate: u32)
        requires
            old(self).wf(),
        ensures
            final(self).wf(),
            final(self)@ == old(self)@.punished(bad_rate),
    {
        self.ceiling = clamp(bad_rate as u64 * 85 / 100, self.cap);
        if let Some(age) = self.probe_age {
            if age <= PROBE_PUNISH_WINDOWS {
                let doubled: u32 = self.probe_wait * 2;
                self.probe_wait = if doubled < PROBE_WAIT_MAX {
                    doubled
                } else {
                    PROBE_WAIT_MAX
                };
            }
        }
        self.probe_age = None;
        self.clean = 0;
        self.at_ceiling = 0;
        self.over = 0;
        self.deadband = 0;
        self.clean_at_point = 0;
        self.clean_at_target = 0;
        self.startup_left = 0;
        assert(self@ =~= old(self)@.punished(bad_rate));
    }

    /// Punish the current target and cut it.
    fn cut(&mut self, num: u64, den: u64, reason: Reason, out: &mut Outcome)
        requires
            old(self).wf(),
            num <= 100,
            0 < den,
        ensures
            final(self).wf(),
            (final(self)@, *final(out)) == old(self)@.cut(num as int, den as int, reason, *old(out)),
    {
        let before: u32 = self.target;
        self.punish(before);
        proof {
            let (b, n) = (before as int, num as int);
            assert(0 <= b * n <= u32::MAX * 100) by (nonlinear_arith)
                requires
                    0 <= b <= u32::MAX,
                    0 <= n <= 100,
            ;
        }
        self.apply_rate(before as u64 * num / den, out);
        out.reason = reason;
    }

    fn apply_rate(&mut self, kbps: u64, out: &mut Outcome)
        requires
            old(self).wf(),
        ensures
            final(self).wf(),
            (final(self)@, *final(out)) == old(self)@.rated(kbps as int, *old(out)),
    {
        let kbps: u32 = clamp(kbps, self.cap);
        self.since_step = 0;
        if kbps != self.target {
            self.clean_at_target = 0;
        }
        self.target = kbps;
        let encoder: u32 = self.encoder_rate();
        if encoder != self.encoder_kbps {
            self.encoder_kbps = encoder;
            out.bitrate = Some(encoder);
        }
        assert(self@ =~= old(self)@.rated(kbps as int, *old(out)).0);
    }

    /// Move along the ladder for the current target. An urgent move (a fast cut) ignores the
    /// debounce when the shortfall is severe, as any other does.
    fn apply_ladder(&mut self, out: &mut Outcome)
        requires
            old(self).wf(),
        ensures
            final(self).wf(),
            (final(self)@, *final(out)) == old(self)@.laddered(*old(out)),
    {
        if self.manual_point || self.points.len() < 2 {
            return;
        }
        let need_kbps: u32 = self.points[self.point_idx].min_kbps;
        // Down: the target no longer buys a clean picture at this point.
        if self.target < need_kbps && self.point_idx + 1 < self.points.len() {
            let severe: bool = (self.target as u64) * 10 < (need_kbps as u64) * 7;
            if self.point_age >= POINT_DEBOUNCE || severe {
                let fit: usize = ladder::pick(
                    self.points.as_slice(),
                    self.target,
                    POINT_MARGIN_NUM,
                    POINT_MARGIN_DEN,
                );
                let want: usize = if fit > self.point_idx + 1 {
                    fit
                } else {
                    self.point_idx + 1
                };
                self.go_to(want, Reason::StepDown, out);
            }
            return;
        }
        // Up: after a clean stretch here (short during startup), to the best rung whose
        // minimum sits under the target with headroom — several rungs at once when the budget
        // clearly allows it (a 20 Mbit path must not crawl up 20 s per rung).
        let want: usize = ladder::pick(
            self.points.as_slice(),
            self.target,
            UP_HEADROOM_NUM,
            UP_HEADROOM_DEN,
        );
        if self.point_idx > 0 {
            let need: u32 = if self.startup_left > 0 {
                2
            } else {
                CLEAN_WINDOWS_UP
            };
            if want < self.point_idx && self.clean_at_point >= need && self.point_age
                >= POINT_DEBOUNCE {
                self.go_to(want, Reason::StepUp, out);
            }
        }
    }

    fn go_to(&mut self, idx: usize, reason: Reason, out: &mut Outcome)
        requires
            old(self).wf(),
            idx < old(self)@.points.len(),
        ensures
            final(self).wf(),
            (final(self)@, *final(out)) == old(self)@.at_point(idx as int, reason, *old(out)),
    {
        self.point_idx = idx;
        self.point_age = 0;
        self.clean_at_point = 0;
        out.point = Some(self.points[idx]);
        if out.reason == Reason::Hold {
            out.reason = reason;
        }
        assert(self@ =~= old(self)@.at_point(idx as int, reason, *old(out)).0);
    }
}

/// A rate within floor and cap.
fn clamp(kbps: u64, cap: u32) -> (r: u32)
    requires
        FLOOR_KBPS <= cap,
    ensures
        r == math::clamped(kbps as int, FLOOR_KBPS as int, cap as int),
{
    if kbps < FLOOR_KBPS as u64 {
        FLOOR_KBPS
    } else if kbps > cap as u64 {
        cap
    } else {
        kbps as u32
    }
}

/// The share of `lost` in `total`, in parts per billion.
fn loss_of(lost: u32, total: u32) -> (loss: u32)
    requires
        lost <= total,
    ensures
        loss == rules::loss_ratio(lost as int, total as int),
        loss <= rules::ONE,
{
    if total > 0 {
        proof {
            let (l, t) = (lost as int, total as int);
            assert(0 <= (l * 1_000_000_000 + t / 2) / t <= 1_000_000_000) by (nonlinear_arith)
                requires
                    0 <= l <= t,
                    0 < t,
            ;
        }
        ((lost as u64 * 1_000_000_000 + (total / 2) as u64) / total as u64) as u32
    } else {
        0
    }
}

/// The mean of `n` values is one of their size.
proof fn lemma_mean(sum: int, n: int)
    requires
        0 <= sum <= n * u64::MAX,
    ensures
        n > 0 ==> 0 <= sum / n <= u64::MAX,
{
    if n > 0 {
        assert(0 <= sum / n <= u64::MAX) by (nonlinear_arith)
            requires
                0 <= sum <= n * u64::MAX,
                n > 0,
        ;
    }
}

} // verus!
