//! The controller's rules, stated over plain values: what one window of measurements does to
//! the state, and which decision comes out.
//!
//! [`ControlView::ticked`] puts a window together from its stages. The stages are opaque, so
//! that proofs take them one at a time: `reveal` them to work a concrete window out.

use super::delay::{DelayState, TrendView};
use super::fec_policy::FecLoad;
use super::ladder::Point;
use crate::adapt::ladder;
use crate::math;
use crate::service::LossRecovery;
use vstd::prelude::*;

verus! {

/// Bitrate floor (kbit/s): what the lowest rung still needs to look like anything.
pub const FLOOR_KBPS: u32 = 300;

/// "Clean" window: loss below this (after the noise floor) counts toward a climb. Ratios are
/// in parts per billion: 0.5 %.
pub const LOSS_CLEAN: u32 = 5_000_000;

/// Sustained loss above this (after the noise floor) steps the rate down: 3 %.
pub const LOSS_DOWN: u32 = 30_000_000;

/// Raw loss above this halves at once: 15 %.
pub const LOSS_SEVERE: u32 = 150_000_000;

/// RTT excess (µs) under which the link counts as unqueued (climb allowed).
pub const RTT_OK_US: u64 = 25_000;

/// RTT excess that cuts ×0.7 even at zero loss.
pub const RTT_EXCESS_US: u64 = 35_000;

/// RTT excess that halves at once.
pub const RTT_BAD_US: u64 = 90_000;

/// Consecutive clean windows before a climb toward the ceiling (20 s).
pub const CLEAN_WINDOWS_UP: u32 = 10;

/// Clean windows at the ceiling before the first probe past it (60 s).
pub const PROBE_WAIT_MIN: u32 = 30;

/// Upper bound for the doubled probe wait (16 min).
pub const PROBE_WAIT_MAX: u32 = 480;

/// A probe that draws loss/bloat within this many windows counts as failed.
pub const PROBE_PUNISH_WINDOWS: u32 = 10;

/// Minimum windows between gentle steps.
pub const COOLDOWN_WINDOWS: u32 = 3;

/// Raw loss above which a window is "lossy" for the recovery-mode flip: 0.5 %.
pub const RECOVERY_LOSS: u32 = 5_000_000;

/// Consecutive lossy windows that flip the recovery mode (a window over `LOSS_DOWN` flips at
/// once).
pub const RECOVERY_WINDOWS: u32 = 2;

/// Windows a probe-down is observed before judging whether the loss followed the rate.
pub const PROBE_DOWN_WINDOWS: u32 = 2;

/// Consecutive windows of mild loss (between clean and down) on a flat, unqueued link before
/// that loss is learned as the path's noise floor (the residual after FEC/NACK).
pub const DEADBAND_LEARN_WINDOWS: u32 = 5;

/// Clean windows at a rate before it is remembered as the peer's "last good" rate (30 s).
pub const LAST_GOOD_WINDOWS: u32 = 15;

/// Ladder: margin under the target a point's minimum must fit: 85 %.
pub const POINT_MARGIN_NUM: u32 = 85;

pub const POINT_MARGIN_DEN: u32 = 100;

/// Ladder: going up, the point's minimum must be under the target / 1.2.
pub const UP_HEADROOM_NUM: u32 = 100;

pub const UP_HEADROOM_DEN: u32 = 120;

/// Ladder: windows between resolution changes (each restarts an encoder).
pub const POINT_DEBOUNCE: u32 = 2;

/// Fast reflex: Overuse must persist this long (µs) before an out-of-window cut.
pub const FAST_OVERUSE_US: u64 = 500_000;

/// Fast reflex: at most one cut per this many µs.
pub const FAST_COOLDOWN_US: u64 = 1_500_000;

/// One, in parts per billion.
pub const ONE: u32 = 1_000_000_000;

/// Why a decision was taken.
#[derive(Clone, Copy, Debug, PartialEq, Eq, Structural)]
pub enum Reason {
    /// Nothing to say.
    Hold,
    RecoveryMode,
    ProbeInconclusive,
    ProbeFollowed,
    ProbeNoise,
    DelayOveruse,
    DelayOveruseFast,
    RttSevere,
    RttBloat,
    SevereLoss,
    QueuedLoss,
    ProbeDown,
    StartupProbe,
    Climb,
    ProbeUp,
    MildNoise,
    FecShare,
    StepDown,
    StepUp,
}

impl Reason {
    /// The words for logs.
    pub open spec fn words(self) -> Seq<char> {
        match self {
            Reason::Hold => ""@,
            Reason::RecoveryMode => "loss → recovery mode"@,
            Reason::ProbeInconclusive => "probe down inconclusive (fec changed) — restored"@,
            Reason::ProbeFollowed => "sustained loss followed the rate — kept the lower rate"@,
            Reason::ProbeNoise =>
                "sustained loss did not follow the rate — learned as noise, restored"@,
            Reason::DelayOveruse => "delay overuse → ×0.85"@,
            Reason::DelayOveruseFast => "delay overuse (fast) → ×0.85"@,
            Reason::RttSevere => "rtt bloat severe → halve"@,
            Reason::RttBloat => "rtt bloat → ×0.7"@,
            Reason::SevereLoss => "severe loss → halve"@,
            Reason::QueuedLoss => "sustained loss with a queued link → ×0.7"@,
            Reason::ProbeDown => "sustained loss, flat link → probe down"@,
            Reason::StartupProbe => "startup probe ×1.5"@,
            Reason::Climb => "clean → climb toward ceiling"@,
            Reason::ProbeUp => "long clean stretch at ceiling → probe +10%"@,
            Reason::MildNoise => "steady mild loss on a flat link — learned as noise"@,
            Reason::FecShare => "fec share changed"@,
            Reason::StepDown => "target under the point's minimum → step down"@,
            Reason::StepUp => "clean with headroom → step up"@,
        }
    }

    /// The words for logs.
    pub fn text(self) -> (s: &'static str)
        ensures
            s@ == self.words(),
    {
        match self {
            Reason::Hold => "",
            Reason::RecoveryMode => "loss → recovery mode",
            Reason::ProbeInconclusive => "probe down inconclusive (fec changed) — restored",
            Reason::ProbeFollowed => "sustained loss followed the rate — kept the lower rate",
            Reason::ProbeNoise =>
                "sustained loss did not follow the rate — learned as noise, restored",
            Reason::DelayOveruse => "delay overuse → ×0.85",
            Reason::DelayOveruseFast => "delay overuse (fast) → ×0.85",
            Reason::RttSevere => "rtt bloat severe → halve",
            Reason::RttBloat => "rtt bloat → ×0.7",
            Reason::SevereLoss => "severe loss → halve",
            Reason::QueuedLoss => "sustained loss with a queued link → ×0.7",
            Reason::ProbeDown => "sustained loss, flat link → probe down",
            Reason::StartupProbe => "startup probe ×1.5",
            Reason::Climb => "clean → climb toward ceiling",
            Reason::ProbeUp => "long clean stretch at ceiling → probe +10%",
            Reason::MildNoise => "steady mild loss on a flat link — learned as noise",
            Reason::FecShare => "fec share changed",
            Reason::StepDown => "target under the point's minimum → step down",
            Reason::StepUp => "clean with headroom → step up",
        }
    }
}

/// A decision with its reason not yet put into words.
#[derive(Clone, Copy, Debug)]
pub struct Outcome {
    pub bitrate: Option<u32>,
    pub point: Option<Point>,
    pub recovery: Option<LossRecovery>,
    pub reason: Reason,
}

impl Outcome {
    pub open spec fn hold() -> Outcome {
        Outcome { bitrate: None, point: None, recovery: None, reason: Reason::Hold }
    }

    pub open spec fn because(self, reason: Reason) -> Outcome {
        Outcome { reason, ..self }
    }

    /// A reason that only stands where no other does.
    pub open spec fn otherwise(self, reason: Reason) -> Outcome {
        if self.reason == Reason::Hold {
            self.because(reason)
        } else {
            self
        }
    }
}

/// Derived per-window signals (logs, HUD, client→host stats).
#[derive(Clone, Copy, Debug, PartialEq, Structural)]
pub struct Signals {
    /// Raw loss, and what is left of it over the noise floor (parts per billion).
    pub loss: u32,
    pub eff_loss: u32,
    pub rtt_us: u64,
    pub excess_us: u64,
    pub jitter_us: u64,
    pub delay: DelayState,
    /// Gain-scaled delay trend (ms/ms × gain, in millionths) — for logs.
    pub trend: i128,
}

impl Signals {
    /// Nothing measured yet.
    pub open spec fn none() -> Signals {
        Signals {
            loss: 0,
            eff_loss: 0,
            rtt_us: 0,
            excess_us: 0,
            jitter_us: 0,
            delay: DelayState::Normal,
            trend: 0,
        }
    }
}

impl Default for Signals {
    fn default() -> (s: Self)
        ensures
            s == Signals::none(),
    {
        Signals {
            loss: 0,
            eff_loss: 0,
            rtt_us: 0,
            excess_us: 0,
            jitter_us: 0,
            delay: DelayState::Normal,
            trend: 0,
        }
    }
}

/// A rate that was lowered to see whether the loss follows.
#[derive(Clone, Copy, Debug)]
pub struct ProbeDown {
    pub from: u32,
    pub pre_loss: u32,
    pub windows: u32,
    pub loss_acc: u64,
    /// The parity load when the probe started: parity switching on/up mid-probe lowers the
    /// measured loss by itself, so the judgement is only valid when it stayed the same.
    pub fec: FecLoad,
}

impl ProbeDown {
    pub open spec fn wf(self) -> bool {
        &&& self.windows < PROBE_DOWN_WINDOWS
        &&& self.loss_acc <= self.windows * ONE
        &&& self.pre_loss <= ONE
    }

    /// One more window observed.
    pub open spec fn observing(self, loss: u32) -> ProbeDown {
        ProbeDown {
            windows: (self.windows + 1) as u32,
            loss_acc: (self.loss_acc + loss) as u64,
            ..self
        }
    }

    pub open spec fn mean_loss(self) -> int {
        self.loss_acc as int / self.windows as int
    }
}

/// One window's measurements. (The rules read the first three.)
pub struct SampleView {
    pub recv: u32,
    pub lost: u32,
    pub rtt_us: Seq<u64>,
    pub nack_sent: u32,
    pub nack_ok: u32,
    pub fec_ok: u32,
}

impl SampleView {
    pub open spec fn total(self) -> int {
        self.recv + self.lost
    }
}

/// The share of `lost` in `total`, in parts per billion to the nearest; 0 of nothing.
pub open spec fn loss_ratio(lost: int, total: int) -> int {
    if total > 0 {
        (lost * ONE + total / 2) / total
    } else {
        0
    }
}

pub open spec fn larger(a: int, b: int) -> int {
    if a > b {
        a
    } else {
        b
    }
}

pub open spec fn smaller(a: int, b: int) -> int {
    if a < b {
        a
    } else {
        b
    }
}

/// The encoder's part of a target under a parity load, not under the floor.
#[verifier::opaque]
pub open spec fn encoder_rate_of(fec: FecLoad, target: u32) -> int {
    larger(fec.encoder_part_spec(target), smaller(FLOOR_KBPS as int, target as int))
}

// ── Keepalive RTT ─────────────────────────────────────────────────────────────────────

/// What a run of RTT samples adds up to (samples of 0 do not count).
pub struct RttRun {
    /// The lowest RTT ever seen (0 = none yet), and the last one.
    pub base: u64,
    pub last: u64,
    pub sum: int,
    pub n: nat,
    /// Sum and number of the steps from one sample to the next.
    pub jitter_sum: int,
    pub jitter_n: nat,
}

pub open spec fn distance(a: u64, b: u64) -> int {
    if a < b {
        b - a
    } else {
        a - b
    }
}

pub open spec fn rtt_run(samples: Seq<u64>, base: u64, last: u64) -> RttRun
    decreases samples.len(),
{
    if samples.len() == 0 {
        RttRun { base, last, sum: 0, n: 0, jitter_sum: 0, jitter_n: 0 }
    } else {
        let r = rtt_run(samples.drop_last(), base, last);
        let x = samples.last();
        if x == 0 {
            r
        } else {
            RttRun {
                base: if r.base == 0 || x < r.base {
                    x
                } else {
                    r.base
                },
                last: x,
                sum: r.sum + x,
                n: r.n + 1,
                jitter_sum: if r.last > 0 {
                    r.jitter_sum + distance(x, r.last)
                } else {
                    r.jitter_sum
                },
                jitter_n: if r.last > 0 {
                    r.jitter_n + 1
                } else {
                    r.jitter_n
                },
            }
        }
    }
}

impl RttRun {
    /// The mean step from one sample to the next.
    pub open spec fn jitter(self) -> int {
        if self.jitter_n > 0 {
            self.jitter_sum / self.jitter_n as int
        } else {
            0
        }
    }
}

/// The rule that a window comes under. The first that applies, in this order.
pub enum Rule {
    /// A probe-down is still being observed.
    ProbePending,
    /// FEC changed under the probe: inconclusive — restore, judge again later.
    ProbeInconclusive,
    /// The loss followed the rate: keep the lower rate.
    ProbeFollowed,
    /// The loss did not follow the rate: it is noise — restore.
    ProbeNoise,
    /// The gradient says a queue is filling.
    DelayOveruse,
    /// Keepalive RTT over its baseline (and still over it at the end of the window).
    RttSevere,
    RttBloat,
    SevereLoss,
    /// Sustained mild loss: too early to act.
    MildLoss,
    /// … with a queued link.
    QueuedLoss,
    /// … with a flat link.
    ProbeDown,
    /// Clean window on a link that neither signal calls queued: climb / probe.
    Clean,
    /// A little loss, or the link slightly queued / draining.
    Deadband,
}

// ── The state ─────────────────────────────────────────────────────────────────────────

/// What the controller holds, as plain values.
#[verifier::ext_equal]
pub struct ControlView {
    pub ir_capable: bool,
    /// Target wire rate, its hard cap, and the punished ceiling (kbit/s).
    pub target: u32,
    pub cap: u32,
    pub ceiling: u32,
    /// Windows: clean ones in a row below the ceiling, and at it.
    pub clean: u32,
    pub at_ceiling: u32,
    /// Clean windows at the ceiling that the next probe past it waits for.
    pub probe_wait: u32,
    /// Windows since a probe past the ceiling that is still on probation.
    pub probe_age: Option<u32>,
    pub since_step: u32,
    pub over: u32,
    pub lossy: u32,
    /// The path's noise floor (parts per billion).
    pub noise_loss: u32,
    pub probe_down: Option<ProbeDown>,
    pub rtt_base: u64,
    pub rtt_ema: u64,
    pub rtt_last: u64,
    pub deadband: u32,
    pub recovery: LossRecovery,
    pub startup_left: u32,
    pub windows: u32,
    pub last: Signals,
    pub points: Seq<Point>,
    pub point_idx: int,
    pub point_age: u32,
    pub clean_at_point: u32,
    pub manual_point: bool,
    /// The encoder bitrate last decided (net of FEC).
    pub encoder_kbps: u32,
    pub fec: FecLoad,
    pub delay: TrendView,
    pub last_fast_cut_us: Option<u64>,
    pub clean_at_target: u32,
    pub last_good: u32,
}

impl ControlView {
    /// Rates stay between the floor and the cap, no counter runs ahead of the windows, the
    /// operating point is on the ladder.
    pub open spec fn wf(self) -> bool {
        &&& FLOOR_KBPS <= self.target <= self.cap
        &&& FLOOR_KBPS <= self.ceiling <= self.cap
        &&& PROBE_WAIT_MIN <= self.probe_wait <= PROBE_WAIT_MAX
        &&& self.clean <= self.windows
        &&& self.at_ceiling <= self.windows
        &&& self.over <= self.windows
        &&& self.lossy <= self.windows
        &&& self.deadband <= self.windows
        &&& self.clean_at_point <= self.windows
        &&& self.clean_at_target <= self.windows
        &&& self.probe_age matches Some(age) ==> age <= self.windows
        &&& self.noise_loss <= ONE
        &&& self.probe_down matches Some(pd) ==> {
            &&& pd.wf()
            &&& FLOOR_KBPS <= pd.from <= self.cap
            &&& self.clean == 0
            &&& self.at_ceiling == 0
            &&& self.clean_at_point == 0
        }
        &&& self.points.len() >= 1
        &&& 0 <= self.point_idx < self.points.len()
        &&& self.points.len() <= usize::MAX
        &&& ladder::is_ranked(self.points.skip(1))
        &&& self.delay.wf()
    }

    /// The state between measuring a window and applying its rule: no counter has counted this
    /// window yet.
    pub open spec fn in_window(self) -> bool {
        &&& self.wf()
        &&& self.clean < self.windows
        &&& self.at_ceiling < self.windows
        &&& self.over < self.windows
        &&& self.deadband < self.windows
        &&& self.clean_at_point < self.windows
        &&& self.clean_at_target < self.windows
        &&& self.since_step >= 1
        &&& self.last.loss <= ONE
    }

    // ── Rates ──

    /// The encoder's part of the target, not under the floor.
    pub open spec fn encoder_rate(self) -> int {
        encoder_rate_of(self.fec, self.target)
    }

    /// The target moved to `kbps` (within floor and cap).
    pub open spec fn rated(self, kbps: int, out: Outcome) -> (ControlView, Outcome) {
        let target = math::clamped(kbps, FLOOR_KBPS as int, self.cap as int) as u32;
        let moved = ControlView {
            target,
            since_step: 0,
            clean_at_target: if target != self.target {
                0
            } else {
                self.clean_at_target
            },
            ..self
        };
        let encoder = moved.encoder_rate() as u32;
        (
            ControlView { encoder_kbps: encoder, ..moved },
            if encoder != self.encoder_kbps {
                Outcome { bitrate: Some(encoder), ..out }
            } else {
                out
            },
        )
    }

    /// A rate produced loss/bloat: remember it as a punished ceiling (×0.85) and, if it was a
    /// probe, double the wait before the next one. Every count starts anew.
    pub open spec fn punished(self, bad_rate: u32) -> ControlView {
        ControlView {
            ceiling: math::clamped(bad_rate * 85 / 100, FLOOR_KBPS as int, self.cap as int) as u32,
            probe_wait: match self.probe_age {
                Some(age) if age <= PROBE_PUNISH_WINDOWS => smaller(
                    self.probe_wait * 2,
                    PROBE_WAIT_MAX as int,
                ) as u32,
                _ => self.probe_wait,
            },
            probe_age: None,
            clean: 0,
            at_ceiling: 0,
            over: 0,
            deadband: 0,
            clean_at_point: 0,
            clean_at_target: 0,
            startup_left: 0,
            ..self
        }
    }

    /// The current target is punished and cut to `num / den` of it.
    pub open spec fn cut(self, num: int, den: int, reason: Reason, out: Outcome) -> (
        ControlView,
        Outcome,
    ) {
        let (v, o) = self.punished(self.target).rated(self.target * num / den, out);
        (v, o.because(reason))
    }

    // ── The ladder ──

    /// The point that the target buys with the working margin.
    pub open spec fn affordable(self) -> int {
        ladder::first_fit(self.points, self.target, POINT_MARGIN_NUM, POINT_MARGIN_DEN, 0)
    }

    /// The point that the target buys with the headroom that going up asks for.
    pub open spec fn comfortable(self) -> int {
        ladder::first_fit(self.points, self.target, UP_HEADROOM_NUM, UP_HEADROOM_DEN, 0)
    }

    pub open spec fn at_point(self, idx: int, reason: Reason, out: Outcome) -> (
        ControlView,
        Outcome,
    ) {
        (
            ControlView { point_idx: idx, point_age: 0, clean_at_point: 0, ..self },
            (Outcome { point: Some(self.points[idx]), ..out }).otherwise(reason),
        )
    }

    /// The target no longer buys a clean picture at the current point, and there is a lower
    /// one.
    pub open spec fn starved(self) -> bool {
        &&& self.target < self.points[self.point_idx].min_kbps
        &&& self.point_idx + 1 < self.points.len()
    }

    /// Under 70 % of what the current point needs.
    pub open spec fn severely_starved(self) -> bool {
        self.target * 10 < self.points[self.point_idx].min_kbps * 7
    }

    /// Clean windows at a point before going up (fewer during startup).
    pub open spec fn windows_to_go_up(self) -> int {
        if self.startup_left > 0 {
            2
        } else {
            CLEAN_WINDOWS_UP as int
        }
    }

    /// Move along the ladder for the current target: down as soon as the point is starved (at
    /// most one change per debounce unless the shortfall is severe), up after a clean stretch
    /// with headroom, several rungs at once when the budget clearly allows it.
    pub open spec fn laddered(self, out: Outcome) -> (ControlView, Outcome) {
        if self.manual_point || self.points.len() < 2 {
            (self, out)
        } else if self.starved() {
            if self.point_age >= POINT_DEBOUNCE || self.severely_starved() {
                self.at_point(
                    smaller(
                        larger(self.affordable(), self.point_idx + 1),
                        self.points.len() - 1,
                    ),
                    Reason::StepDown,
                    out,
                )
            } else {
                (self, out)
            }
        } else if self.comfortable() < self.point_idx && self.clean_at_point
            >= self.windows_to_go_up() && self.point_age >= POINT_DEBOUNCE {
            self.at_point(self.comfortable(), Reason::StepUp, out)
        } else {
            (self, out)
        }
    }

    /// The end of every window: the ladder follows the target, and the encoder's part follows
    /// a changed parity load even when the target holds.
    #[verifier::opaque]
    pub open spec fn finished(self, out: Outcome) -> (ControlView, Outcome) {
        let (v, o) = (ControlView { startup_left: self.startup_left.saturating_sub(1), ..self }).laddered(
            out,
        );
        let encoder = v.encoder_rate() as u32;
        (
            ControlView { encoder_kbps: encoder, ..v },
            if encoder != v.encoder_kbps && o.bitrate is None {
                (Outcome { bitrate: Some(encoder), ..o }).otherwise(Reason::FecShare)
            } else {
                o
            },
        )
    }

    // ── Measuring ──

    /// The window's mean RTT. With a single sample the previous value is blended in to damp
    /// one-off spikes.
    pub open spec fn next_ema(self, run: RttRun) -> int {
        let mean = run.sum / run.n as int;
        if run.n == 0 {
            self.rtt_ema as int
        } else if self.rtt_ema == 0 || run.n >= 2 {
            mean
        } else {
            (self.rtt_ema + mean) / 2
        }
    }

    /// Slow upward re-baseline (2 % of the gap per window): a path whose floor really moved
    /// stops looking "bloated" after a few minutes.
    pub open spec fn rebased(base: u64, ema: int) -> int {
        if base > 0 && ema > base {
            base + (ema - base) / 50
        } else {
            base as int
        }
    }

    /// How far `rtt` is over the baseline (0 while either is unknown).
    pub open spec fn over_base(rtt: int, base: int) -> int {
        if base > 0 && rtt > base {
            rtt - base
        } else {
            0
        }
    }

    /// The state with one window's measurements taken in.
    #[verifier::opaque]
    pub open spec fn measured(self, s: SampleView) -> ControlView {
        let run = rtt_run(s.rtt_us, self.rtt_base, self.rtt_last);
        let ema = self.next_ema(run);
        let base = ControlView::rebased(run.base, ema);
        let loss = loss_ratio(s.lost as int, s.total());
        let noise = smaller(self.noise_loss as int, loss);
        ControlView {
            windows: (self.windows + 1) as u32,
            since_step: self.since_step.saturating_add(1),
            point_age: self.point_age.saturating_add(1),
            probe_age: match self.probe_age {
                Some(age) => Some((age + 1) as u32),
                None => None,
            },
            rtt_base: base as u64,
            rtt_ema: ema as u64,
            rtt_last: run.last,
            noise_loss: noise as u32,
            last: Signals {
                loss: loss as u32,
                eff_loss: (loss - noise) as u32,
                rtt_us: ema as u64,
                excess_us: ControlView::over_base(ema, base) as u64,
                jitter_us: run.jitter() as u64,
                delay: self.delay.state,
                trend: self.delay.modified_trend() as i128,
            },
            ..self
        }
    }

    // ── Loss recovery ──

    /// The recovery mode this client asks for once the path proves lossy.
    pub open spec fn preferred(self) -> LossRecovery {
        if self.ir_capable {
            LossRecovery::IntraRefresh
        } else {
            LossRecovery::ShortGop
        }
    }

    /// Consecutive lossy windows, this one included.
    pub open spec fn lossy_now(self, total: int) -> int {
        if total > 50 && self.last.loss > RECOVERY_LOSS {
            self.lossy + 1
        } else {
            0
        }
    }

    /// This window flips the recovery mode: the first sustained loss.
    pub open spec fn flips(self, total: int) -> bool {
        &&& self.recovery == LossRecovery::Normal
        &&& total > 50
        &&& self.lossy_now(total) >= RECOVERY_WINDOWS || self.last.loss > LOSS_DOWN
    }

    pub open spec fn recovering(self, total: int) -> (ControlView, Outcome) {
        let counted = ControlView { lossy: self.lossy_now(total) as u32, ..self };
        if self.flips(total) {
            (
                ControlView { recovery: self.preferred(), ..counted },
                Outcome {
                    recovery: Some(self.preferred()),
                    reason: Reason::RecoveryMode,
                    ..Outcome::hold()
                },
            )
        } else {
            (counted, Outcome::hold())
        }
    }

    // ── The rules ──

    /// "Now" excess: the window's LAST sample over the baseline. A queue that is draining
    /// (after a cut) leaves the window mean elevated while the tail is already flat — that
    /// must not read as a fresh queue.
    pub open spec fn excess_now(self) -> int {
        ControlView::over_base(self.rtt_last as int, self.rtt_base as int)
    }

    pub open spec fn draining(self) -> bool {
        ||| self.last.delay == DelayState::Underuse
        ||| self.last.excess_us >= RTT_OK_US && self.excess_now() < RTT_OK_US
    }

    pub open spec fn queued(self) -> bool {
        &&& !self.draining()
        &&& self.last.excess_us >= RTT_OK_US || self.last.delay == DelayState::Overuse
    }

    /// Which rule this (measured) window comes under.
    pub open spec fn rule(self, total: int) -> Rule {
        match self.probe_down {
            Some(pd) => {
                let seen = pd.observing(self.last.loss);
                if seen.windows < PROBE_DOWN_WINDOWS {
                    Rule::ProbePending
                } else if pd.fec != self.fec {
                    Rule::ProbeInconclusive
                } else if seen.mean_loss() * 10 <= pd.pre_loss * 6 {
                    Rule::ProbeFollowed
                } else {
                    Rule::ProbeNoise
                }
            },
            None => {
                let above_floor = self.target > FLOOR_KBPS;
                if self.last.delay == DelayState::Overuse && above_floor {
                    Rule::DelayOveruse
                } else if self.last.excess_us >= RTT_EXCESS_US && !self.draining() && above_floor {
                    if self.last.excess_us >= RTT_BAD_US {
                        Rule::RttSevere
                    } else {
                        Rule::RttBloat
                    }
                } else if total > 100 && self.last.loss > LOSS_SEVERE && above_floor {
                    Rule::SevereLoss
                } else if total > 100 && self.last.eff_loss > LOSS_DOWN {
                    if self.over + 1 >= 2 && self.since_step >= COOLDOWN_WINDOWS && above_floor {
                        if self.queued() {
                            Rule::QueuedLoss
                        } else {
                            Rule::ProbeDown
                        }
                    } else {
                        Rule::MildLoss
                    }
                } else if total > 0 && self.last.eff_loss < LOSS_CLEAN && !self.queued()
                    && self.last.delay == DelayState::Normal {
                    Rule::Clean
                } else {
                    Rule::Deadband
                }
            },
        }
    }

    /// Sustained loss starts every other count anew.
    pub open spec fn in_mild_loss(self) -> ControlView {
        ControlView {
            over: (self.over + 1) as u32,
            clean: 0,
            at_ceiling: 0,
            deadband: 0,
            clean_at_point: 0,
            clean_at_target: 0,
            ..self
        }
    }

    /// The judged probe is over; the rate goes back to where it came from.
    pub open spec fn restored(self, pd: ProbeDown, reason: Reason, out: Outcome) -> (
        ControlView,
        Outcome,
    ) {
        let (v, o) = self.rated(pd.from as int, out);
        (v, o.because(reason))
    }

    /// Startup climbs at once by half, later a clean stretch climbs by a quarter.
    pub open spec fn climb_wait(self) -> int {
        if self.startup_left > 0 {
            1
        } else {
            CLEAN_WINDOWS_UP as int
        }
    }

    pub open spec fn climb_goal(self) -> int {
        smaller(
            if self.startup_left > 0 {
                self.target * 3 / 2
            } else {
                self.target * 5 / 4
            },
            self.ceiling as int,
        )
    }

    /// A probe past the ceiling: +10 %.
    pub open spec fn probe_goal(self) -> int {
        smaller(self.target * 11 / 10, self.cap as int)
    }

    /// The counts of a clean window: a probe that outlived its probation halves the wait, and
    /// a rate that stayed clean long enough is remembered.
    pub open spec fn counted_clean(self) -> ControlView {
        let survived = self.probe_age matches Some(age) && age >= PROBE_PUNISH_WINDOWS;
        ControlView {
            over: 0,
            deadband: 0,
            probe_age: if survived {
                None
            } else {
                self.probe_age
            },
            probe_wait: if survived {
                larger((self.probe_wait / 2) as int, PROBE_WAIT_MIN as int) as u32
            } else {
                self.probe_wait
            },
            clean_at_point: (self.clean_at_point + 1) as u32,
            clean_at_target: (self.clean_at_target + 1) as u32,
            last_good: if self.clean_at_target + 1 >= LAST_GOOD_WINDOWS {
                self.target
            } else {
                self.last_good
            },
            ..self
        }
    }

    /// A clean window below the ceiling: climb when the stretch is long enough.
    pub open spec fn below_ceiling(self, out: Outcome) -> (ControlView, Outcome) {
        if self.clean + 1 >= self.climb_wait() {
            let (v, o) = (ControlView { clean: 0, at_ceiling: 0, ..self }).rated(
                self.climb_goal(),
                out,
            );
            (
                v,
                o.because(
                    if self.startup_left > 0 {
                        Reason::StartupProbe
                    } else {
                        Reason::Climb
                    },
                ),
            )
        } else {
            (ControlView { clean: (self.clean + 1) as u32, at_ceiling: 0, ..self }, out)
        }
    }

    /// A clean window at the ceiling: probe past it when the stretch is long enough.
    pub open spec fn at_the_ceiling(self, out: Outcome) -> (ControlView, Outcome) {
        if self.at_ceiling + 1 >= self.probe_wait && self.ceiling < self.cap {
            let (v, o) = (ControlView {
                clean: 0,
                at_ceiling: 0,
                ceiling: larger(self.probe_goal(), self.ceiling as int) as u32,
                probe_age: Some(0),
                ..self
            }).rated(self.probe_goal(), out);
            (v, o.because(Reason::ProbeUp))
        } else {
            (ControlView { clean: 0, at_ceiling: (self.at_ceiling + 1) as u32, ..self }, out)
        }
    }

    /// A clean window: climb toward the ceiling, or wait at it and probe past it.
    pub open spec fn after_clean(self, out: Outcome) -> (ControlView, Outcome) {
        let v = self.counted_clean();
        if v.target < v.ceiling {
            v.below_ceiling(out)
        } else {
            v.at_the_ceiling(out)
        }
    }

    /// Mild loss on a flat link, which may be the path's noise.
    pub open spec fn mild_on_flat_link(self, total: int) -> bool {
        &&& total > 100
        &&& 0 < self.last.eff_loss <= LOSS_DOWN
        &&& !self.queued()
        &&& self.last.delay != DelayState::Underuse
    }

    /// Hold. Mild loss that persists on a FLAT link is not congestion: learn it as the noise
    /// floor so the climb can resume. The window is not a clean one: every clean count starts
    /// anew.
    pub open spec fn after_deadband(self, total: int, out: Outcome) -> (ControlView, Outcome) {
        let v = ControlView {
            over: 0,
            clean: 0,
            at_ceiling: 0,
            clean_at_point: 0,
            clean_at_target: 0,
            ..self
        };
        if !self.mild_on_flat_link(total) {
            (ControlView { deadband: 0, ..v }, out)
        } else if self.deadband + 1 >= DEADBAND_LEARN_WINDOWS {
            (
                ControlView {
                    deadband: 0,
                    noise_loss: larger(self.noise_loss as int, self.last.loss as int) as u32,
                    ..v
                },
                out.because(Reason::MildNoise),
            )
        } else {
            (ControlView { deadband: (self.deadband + 1) as u32, ..v }, out)
        }
    }

    /// What a rule does.
    #[verifier::opaque]
    pub open spec fn applied(self, total: int, out: Outcome) -> (ControlView, Outcome) {
        let judged = ControlView { deadband: 0, clean_at_target: 0, ..self };
        let freed = ControlView { probe_down: None, ..judged };
        match self.rule(total) {
            Rule::ProbePending => (
                ControlView {
                    probe_down: Some(self.probe_down->0.observing(self.last.loss)),
                    ..judged
                },
                out,
            ),
            Rule::ProbeInconclusive => freed.restored(
                self.probe_down->0,
                Reason::ProbeInconclusive,
                out,
            ),
            Rule::ProbeFollowed => (
                freed.punished(self.probe_down->0.from),
                out.because(Reason::ProbeFollowed),
            ),
            Rule::ProbeNoise => (ControlView {
                noise_loss: larger(
                    self.noise_loss as int,
                    self.probe_down->0.observing(self.last.loss).mean_loss(),
                ) as u32,
                ..freed
            }).restored(self.probe_down->0, Reason::ProbeNoise, out),
            Rule::DelayOveruse => self.cut(85, 100, Reason::DelayOveruse, out),
            Rule::RttSevere => self.cut(1, 2, Reason::RttSevere, out),
            Rule::RttBloat => self.cut(7, 10, Reason::RttBloat, out),
            Rule::SevereLoss => self.cut(1, 2, Reason::SevereLoss, out),
            Rule::MildLoss => (self.in_mild_loss(), out),
            Rule::QueuedLoss => self.in_mild_loss().cut(7, 10, Reason::QueuedLoss, out),
            Rule::ProbeDown => {
                let (v, o) = (ControlView {
                    over: 0,
                    probe_down: Some(
                        ProbeDown {
                            from: self.target,
                            pre_loss: self.last.loss,
                            windows: 0,
                            loss_acc: 0,
                            fec: self.fec,
                        },
                    ),
                    ..self.in_mild_loss()
                }).rated(self.target * 4 / 5, out);
                (v, o.because(Reason::ProbeDown))
            },
            Rule::Clean => self.after_clean(out),
            Rule::Deadband => self.after_deadband(total, out),
        }
    }

    /// The rule that the window of a sample comes under.
    pub open spec fn window_rule(self, s: SampleView) -> Rule {
        self.measured(s).rule(s.total())
    }

    /// One window: measure, flip the recovery mode if it is due, apply the rule that the
    /// window comes under, let the ladder and the encoder's part follow.
    pub open spec fn ticked(self, s: SampleView) -> (ControlView, Outcome) {
        let (v, out) = self.measured(s).recovering(s.total());
        let (w, o) = v.applied(s.total(), out);
        w.finished(o)
    }

    // ── Between windows ──

    /// The target resynced to `kbps` without punishment; at another rate the clean windows
    /// count from 0.
    pub open spec fn retargeted(self, kbps: u32) -> ControlView {
        let target = math::clamped(kbps as int, FLOOR_KBPS as int, self.cap as int) as u32;
        let moved = ControlView {
            target,
            since_step: 0,
            clean_at_target: if target != self.target {
                0
            } else {
                self.clean_at_target
            },
            ..self
        };
        ControlView { encoder_kbps: moved.encoder_rate() as u32, ..moved }
    }

    /// The operating point pinned, or automatic again from what the target buys.
    pub open spec fn pinned(self, manual: bool) -> ControlView {
        if manual {
            ControlView { manual_point: true, ..self }
        } else {
            ControlView {
                manual_point: false,
                point_idx: self.affordable(),
                point_age: 0,
                clean_at_point: 0,
                ..self
            }
        }
    }

    /// The fast reflex is due: a sustained Overuse, no cut just before, and room above the
    /// floor.
    pub open spec fn reflex_due(self, now_us: u64) -> bool {
        &&& self.delay.overuse_us(now_us) >= FAST_OVERUSE_US
        &&& match self.last_fast_cut_us {
            Some(last) => now_us - last >= FAST_COOLDOWN_US,
            None => true,
        }
        &&& self.target > FLOOR_KBPS
    }

    /// The fast reflex: cut ×0.85 without waiting for the window, and let the ladder follow.
    pub open spec fn reflexed(self, now_us: u64) -> (ControlView, Outcome) {
        let (v, o) = (ControlView { last_fast_cut_us: Some(now_us), ..self }).cut(
            85,
            100,
            Reason::DelayOveruseFast,
            Outcome::hold(),
        );
        v.laddered(o)
    }
}

} // verus!
