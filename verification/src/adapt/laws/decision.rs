//! What a window decides about the rate, told by what it published, with every number written
//! out. A window is told apart by the signals in [`ControlView::last`] and the RTTs after it.

use crate::adapt::delay::DelayState;
use crate::adapt::laws;
use crate::adapt::laws::window;
use crate::adapt::rules::{ControlView, ProbeDown, Reason, SampleView};
use crate::service::LossRecovery;
use vstd::prelude::*;

verus! {

// ── Telling windows apart ─────────────────────────────────────────────────────────────

/// How far the last RTT sample is over the baseline.
pub open spec fn tail_excess(t: ControlView) -> int {
    if t.rtt_base > 0 && t.rtt_last > t.rtt_base {
        t.rtt_last - t.rtt_base
    } else {
        0
    }
}

/// A queue is emptying: the delay shrinks, or the mean RTT is high but the last one no longer is.
pub open spec fn drains(t: ControlView) -> bool {
    t.last.delay == DelayState::Underuse || (t.last.excess_us >= 25_000 && tail_excess(t) < 25_000)
}

/// A queue stands or fills.
pub open spec fn queues(t: ControlView) -> bool {
    !drains(t) && (t.last.excess_us >= 25_000 || t.last.delay == DelayState::Overuse)
}

/// The delay gradient says that a queue fills, and the rate can still be cut.
pub open spec fn overused(v: ControlView) -> bool {
    v.probe_down is None && v.delay.state == DelayState::Overuse && v.target > 300
}

/// The RTT is 35 ms or more over its baseline, at the end of the window too.
pub open spec fn bloated(v: ControlView, s: SampleView) -> bool {
    let t = window::after(v, s);
    &&& v.probe_down is None
    &&& !overused(v)
    &&& v.target > 300
    &&& t.last.excess_us >= 35_000
    &&& !drains(t)
}

/// More than 15 % of more than a hundred packets are missing.
pub open spec fn severe(v: ControlView, s: SampleView) -> bool {
    let t = window::after(v, s);
    &&& v.probe_down is None
    &&& !overused(v)
    &&& !bloated(v, s)
    &&& v.target > 300
    &&& s.recv + s.lost > 100
    &&& t.last.loss > 150_000_000
}

/// More than 3 % over the noise floor is missing, of more than a hundred packets.
pub open spec fn lossy(v: ControlView, s: SampleView) -> bool {
    let t = window::after(v, s);
    &&& v.probe_down is None
    &&& !overused(v)
    &&& !bloated(v, s)
    &&& !severe(v, s)
    &&& s.recv + s.lost > 100
    &&& t.last.eff_loss > 30_000_000
}

/// Less than 0.5 % over the noise floor is missing, and neither signal sees a queue.
pub open spec fn clean(v: ControlView, s: SampleView) -> bool {
    let t = window::after(v, s);
    &&& v.probe_down is None
    &&& !overused(v)
    &&& !bloated(v, s)
    &&& !severe(v, s)
    &&& !lossy(v, s)
    &&& s.recv + s.lost > 0
    &&& t.last.eff_loss < 5_000_000
    &&& !queues(t)
    &&& t.last.delay == DelayState::Normal
}

/// None of these, and no probe-down is being judged.
pub open spec fn undecided(v: ControlView, s: SampleView) -> bool {
    &&& v.probe_down is None
    &&& !overused(v)
    &&& !bloated(v, s)
    &&& !severe(v, s)
    &&& !lossy(v, s)
    &&& !clean(v, s)
}

/// What a window leaves as the rules made it: all but the ladder's and the encoder's part.
pub(crate) proof fn lemma_frame(v: ControlView, s: SampleView)
    requires
        laws::takes(v, s),
    ensures
        ({
            let (m, out) = v.measured(s).recovering(s.total());
            let (w, o) = m.applied(s.total(), out);
            let (t, d) = v.ticked(s);
            &&& t == ControlView {
                startup_left: w.startup_left.saturating_sub(1),
                point_idx: t.point_idx,
                point_age: t.point_age,
                clean_at_point: t.clean_at_point,
                encoder_kbps: t.encoder_kbps,
                ..w
            }
            &&& o.reason != Reason::Hold ==> d.reason == o.reason
            &&& m == ControlView { lossy: m.lossy, recovery: m.recovery, ..v.measured(s) }
            &&& t.last == v.measured(s).last
            &&& drains(t) == v.measured(s).draining()
            &&& queues(t) == v.measured(s).queued()
            &&& m.rule(s.total()) == v.window_rule(s)
        }),
{
    reveal(ControlView::finished);
    laws::lemma_rules_keep_the_measurements(v, s);
}

/// The rule that a window comes under is told by what it published.
pub(crate) proof fn lemma_rule(v: ControlView, s: SampleView)
    requires
        laws::takes(v, s),
    ensures
        overused(v) <==> v.window_rule(s) is DelayOveruse,
        bloated(v, s) <==> v.window_rule(s) is RttBloat || v.window_rule(s) is RttSevere,
        bloated(v, s) ==> (v.window_rule(s) is RttSevere <==> window::after(v, s).last.excess_us
            >= 90_000),
        severe(v, s) <==> v.window_rule(s) is SevereLoss,
        lossy(v, s) <==> v.window_rule(s) is MildLoss || v.window_rule(s) is QueuedLoss
            || v.window_rule(s) is ProbeDown,
        clean(v, s) <==> v.window_rule(s) is Clean,
        undecided(v, s) <==> v.window_rule(s) is Deadband,
{
    lemma_frame(v, s);
    laws::lemma_measured(v, s);
}

// ── Cuts ──────────────────────────────────────────────────────────────────────────────

/// `a`, but not under the floor of 300 kbit/s.
pub open spec fn floored(a: int) -> int {
    if a < 300 {
        300
    } else {
        a
    }
}

/// The rate was cut to `num / den` of it and punished: 85 % of it is the ceiling now, every count
/// starts anew, startup is over, and if the rate was a probe of at most ten windows ago the wait
/// before the next one doubles (up to 480 windows).
pub open spec fn is_cut_to(v: ControlView, t: ControlView, num: int, den: int) -> bool {
    &&& t.target == floored(v.target * num / den)
    &&& is_punished(v, t, v.target)
    &&& t.since_step == 0
    &&& t.noise_loss + t.last.eff_loss == t.last.loss
}

/// The rate `bad` was punished.
pub open spec fn is_punished(v: ControlView, t: ControlView, bad: u32) -> bool {
    &&& t.ceiling == floored(bad * 85 / 100)
    &&& t.probe_age is None
    &&& t.probe_wait == (match v.probe_age {
        Some(age) if age < 10 => if v.probe_wait <= 240 {
            2 * v.probe_wait
        } else {
            480
        },
        _ => v.probe_wait as int,
    })
    &&& t.clean == 0
    &&& t.at_ceiling == 0
    &&& t.over == 0
    &&& t.deadband == 0
    &&& t.clean_at_point == 0
    &&& t.clean_at_target == 0
    &&& t.startup_left == 0
    &&& t.probe_down is None
    &&& t.last_good == v.last_good
}

/// The age of a probe past the ceiling that is still on probation, a window later.
pub open spec fn aged(v: ControlView) -> Option<u32> {
    match v.probe_age {
        Some(age) => Some((age + 1) as u32),
        None => None,
    }
}

/// Delay first: a queue that fills cuts ×0.85, whatever else the window shows.
pub proof fn law_a_filling_queue_cuts(v: ControlView, s: SampleView)
    requires
        laws::takes(v, s),
        overused(v),
    ensures
        is_cut_to(v, window::after(v, s), 85, 100),
        v.ticked(s).1.reason == Reason::DelayOveruse,
{
    lemma_frame(v, s);
    lemma_rule(v, s);
    laws::lemma_measured(v, s);
    lemma_cut(v, s);
}

proof fn lemma_cut(v: ControlView, s: SampleView)
    requires
        laws::takes(v, s),
    ensures
        ({
            let t = window::after(v, s);
            let r = v.window_rule(s);
            &&& r is DelayOveruse ==> is_cut_to(v, t, 85, 100) && v.ticked(s).1.reason
                == Reason::DelayOveruse
            &&& r is RttSevere ==> is_cut_to(v, t, 1, 2) && v.ticked(s).1.reason
                == Reason::RttSevere
            &&& r is RttBloat ==> is_cut_to(v, t, 7, 10) && v.ticked(s).1.reason
                == Reason::RttBloat
            &&& r is SevereLoss ==> is_cut_to(v, t, 1, 2) && v.ticked(s).1.reason
                == Reason::SevereLoss
            &&& r is QueuedLoss ==> is_cut_to(v, t, 7, 10) && v.ticked(s).1.reason
                == Reason::QueuedLoss
        }),
{
    lemma_frame(v, s);
    laws::lemma_measured(v, s);
    reveal(ControlView::applied);
    let (m, out) = v.measured(s).recovering(s.total());
    let (w, o) = m.applied(s.total(), out);
    assert(laws::is_cut(v.window_rule(s)) ==> window::after(v, s).clean_at_point == 0) by {
        reveal(ControlView::finished);
    }
}

/// An RTT 35 ms or more over its baseline cuts ×0.7, one of 90 ms or more halves — at zero loss
/// too, but not while the queue empties.
pub proof fn law_a_bloated_rtt_cuts(v: ControlView, s: SampleView)
    requires
        laws::takes(v, s),
        bloated(v, s),
    ensures
        window::after(v, s).last.excess_us < 90_000 ==> is_cut_to(v, window::after(v, s), 7, 10)
            && v.ticked(s).1.reason == Reason::RttBloat,
        window::after(v, s).last.excess_us >= 90_000 ==> is_cut_to(v, window::after(v, s), 1, 2)
            && v.ticked(s).1.reason == Reason::RttSevere,
{
    lemma_rule(v, s);
    lemma_cut(v, s);
}

/// Raw loss over 15 % halves at once.
pub proof fn law_loss_over_fifteen_percent_halves(v: ControlView, s: SampleView)
    requires
        laws::takes(v, s),
        severe(v, s),
    ensures
        is_cut_to(v, window::after(v, s), 1, 2),
        v.ticked(s).1.reason == Reason::SevereLoss,
{
    lemma_rule(v, s);
    lemma_cut(v, s);
}

/// Loss over 3 % acts with its second window in a row, and only when the last step is three
/// windows back and the rate is above the floor: with a queue it cuts ×0.7; on a flat link the
/// rate is lowered to 80 %, without punishment, to see whether the loss follows. Until then it is
/// counted, and the rate holds.
pub proof fn law_sustained_loss_acts(v: ControlView, s: SampleView)
    requires
        laws::takes(v, s),
        lossy(v, s),
    ensures
        ({
            let t = window::after(v, s);
            let acts = v.over >= 1 && v.since_step >= 2 && v.target > 300;
            &&& acts && queues(t) ==> is_cut_to(v, t, 7, 10) && v.ticked(s).1.reason
                == Reason::QueuedLoss
            &&& acts && !queues(t) ==> {
                &&& t.target == floored(v.target * 4 / 5)
                &&& t.ceiling == v.ceiling
                &&& t.since_step == 0
                &&& t.over == 0
                &&& t.probe_down == Some(
                    ProbeDown {
                        from: v.target,
                        pre_loss: t.last.loss,
                        windows: 0,
                        loss_acc: 0,
                        fec: v.fec,
                    },
                )
                &&& v.ticked(s).1.reason == Reason::ProbeDown
            }
            &&& !acts ==> {
                &&& t.target == v.target
                &&& t.ceiling == v.ceiling
                &&& t.over == v.over + 1
                &&& t.probe_down is None
                &&& t.since_step == v.since_step + 1 || t.since_step == u32::MAX
            }
            &&& t.clean == 0 && t.at_ceiling == 0 && t.clean_at_target == 0 && t.clean_at_point == 0
            &&& t.deadband == 0
            &&& !(acts && queues(t)) ==> {
                &&& t.probe_wait == v.probe_wait
                &&& t.probe_age == aged(v)
                &&& t.startup_left == v.startup_left.saturating_sub(1)
            }
            &&& t.last_good == v.last_good
            &&& t.noise_loss + t.last.eff_loss == t.last.loss
        }),
{
    lemma_frame(v, s);
    lemma_rule(v, s);
    lemma_cut(v, s);
    laws::lemma_measured(v, s);
    assert(v.measured(s).since_step == v.since_step.saturating_add(1)) by {
        reveal(ControlView::measured);
    }
    reveal(ControlView::applied);
    assert(window::after(v, s).clean_at_point == 0) by {
        reveal(ControlView::finished);
    }
}

// ── A probe-down is judged ────────────────────────────────────────────────────────────

/// The first window after a probe-down only observes: the rate holds, and its loss is added up.
/// The second one judges, by the mean loss of the two against the loss before: at 60 % of it or
/// less the loss followed the rate, and the lower rate stays and the higher one is punished; else
/// it did not, is learned as noise, and the rate is given back exactly. If the parity load changed
/// meanwhile, the rate is given back and nothing is learned.
pub proof fn law_a_probe_down_is_judged(v: ControlView, s: SampleView)
    requires
        laws::takes(v, s),
        v.probe_down is Some,
    ensures
        ({
            let t = window::after(v, s);
            let pd = v.probe_down->0;
            let mean = (pd.loss_acc + t.last.loss) / 2;
            let floor = t.last.loss - t.last.eff_loss;
            &&& pd.windows == 0 ==> {
                &&& t.probe_down == Some(
                    ProbeDown {
                        windows: 1,
                        loss_acc: (pd.loss_acc + t.last.loss) as u64,
                        ..pd
                    },
                )
                &&& t.target == v.target
                &&& t.ceiling == v.ceiling
                &&& t.noise_loss == floor
                &&& t.since_step == v.since_step + 1 || t.since_step == u32::MAX
            }
            &&& pd.windows == 1 ==> t.probe_down is None
            &&& pd.windows == 1 && pd.fec != v.fec ==> {
                &&& t.target == pd.from
                &&& t.ceiling == v.ceiling
                &&& t.noise_loss == floor
                &&& t.since_step == 0
                &&& v.ticked(s).1.reason == Reason::ProbeInconclusive
            }
            &&& pd.windows == 1 && pd.fec == v.fec && mean * 10 <= pd.pre_loss * 6 ==> {
                &&& t.target == v.target
                &&& is_punished(v, t, pd.from)
                &&& t.noise_loss == floor
                &&& t.since_step == v.since_step + 1 || t.since_step == u32::MAX
                &&& v.ticked(s).1.reason == Reason::ProbeFollowed
            }
            &&& pd.windows == 1 && pd.fec == v.fec && mean * 10 > pd.pre_loss * 6 ==> {
                &&& t.target == pd.from
                &&& t.ceiling == v.ceiling
                &&& t.noise_loss == (if floor < mean {
                    mean
                } else {
                    floor
                })
                &&& t.since_step == 0
                &&& v.ticked(s).1.reason == Reason::ProbeNoise
            }
            &&& !(pd.windows == 1 && pd.fec == v.fec && mean * 10 <= pd.pre_loss * 6) ==> {
                &&& t.probe_wait == v.probe_wait
                &&& t.probe_age == aged(v)
                &&& t.over == v.over
                &&& t.startup_left == v.startup_left.saturating_sub(1)
            }
            &&& t.deadband == 0 && t.clean_at_target == 0
            &&& t.clean == 0 && t.at_ceiling == 0 && t.clean_at_point == 0
            &&& t.last_good == v.last_good
        }),
{
    lemma_frame(v, s);
    laws::lemma_measured(v, s);
    assert(v.measured(s).since_step == v.since_step.saturating_add(1)) by {
        reveal(ControlView::measured);
    }
    reveal(ControlView::applied);
    assert(window::after(v, s).clean_at_point == 0) by {
        reveal(ControlView::finished);
    }
}

// ── Climbing ──────────────────────────────────────────────────────────────────────────

/// The smaller of two rates.
pub open spec fn at_most(a: int, b: int) -> int {
    if a < b {
        a
    } else {
        b
    }
}

/// A clean window below the ceiling climbs, not past the ceiling: at once by half while startup
/// windows are left, later with the tenth in a row by a quarter. It does nothing else to the rate.
pub proof fn law_a_clean_window_below_the_ceiling(v: ControlView, s: SampleView)
    requires
        laws::takes(v, s),
        clean(v, s),
        v.target < v.ceiling,
    ensures
        ({
            let t = window::after(v, s);
            let climbs = v.startup_left > 0 || v.clean >= 9;
            &&& climbs ==> {
                &&& t.target == at_most(
                    if v.startup_left > 0 {
                        v.target * 3 / 2
                    } else {
                        v.target * 5 / 4
                    },
                    v.ceiling as int,
                )
                &&& t.clean == 0
                &&& t.since_step == 0
                &&& v.ticked(s).1.reason == (if v.startup_left > 0 {
                    Reason::StartupProbe
                } else {
                    Reason::Climb
                })
            }
            &&& !climbs ==> {
                &&& t.target == v.target
                &&& t.clean == v.clean + 1
                &&& t.since_step == v.since_step + 1 || t.since_step == u32::MAX
            }
            &&& t.at_ceiling == 0
            &&& t.ceiling == v.ceiling
        }),
{
    lemma_frame(v, s);
    lemma_rule(v, s);
    laws::lemma_measured(v, s);
    assert(v.measured(s).since_step == v.since_step.saturating_add(1)) by {
        reveal(ControlView::measured);
    }
    reveal(ControlView::applied);
    let (m, out) = v.measured(s).recovering(s.total());
    let c = m.counted_clean();
    assert(m.applied(s.total(), out) == c.below_ceiling(out));
}

/// A clean window at the ceiling waits, and after the whole wait probes past it (if the cap leaves
/// room): +10 %, which is the ceiling then, on probation from this window on.
pub proof fn law_a_clean_window_at_the_ceiling(v: ControlView, s: SampleView)
    requires
        laws::takes(v, s),
        clean(v, s),
        v.target >= v.ceiling,
    ensures
        ({
            let t = window::after(v, s);
            let probes = v.at_ceiling + 1 >= t.probe_wait && v.ceiling < v.cap;
            let goal = at_most(v.target * 11 / 10, v.cap as int);
            &&& probes ==> {
                &&& t.target == goal
                &&& t.ceiling == goal
                &&& t.at_ceiling == 0
                &&& t.probe_age == Some(0u32)
                &&& t.since_step == 0
                &&& v.ticked(s).1.reason == Reason::ProbeUp
            }
            &&& !probes ==> {
                &&& t.target == v.target
                &&& t.ceiling == v.ceiling
                &&& t.at_ceiling == v.at_ceiling + 1
                &&& t.since_step == v.since_step + 1 || t.since_step == u32::MAX
            }
            &&& t.clean == 0
        }),
{
    lemma_frame(v, s);
    lemma_rule(v, s);
    laws::lemma_measured(v, s);
    assert(v.measured(s).since_step == v.since_step.saturating_add(1)) by {
        reveal(ControlView::measured);
    }
    reveal(ControlView::applied);
    let (m, out) = v.measured(s).recovering(s.total());
    let c = m.counted_clean();
    assert(m.applied(s.total(), out) == c.at_the_ceiling(out));
}

/// What every clean window does: loss and mild loss are forgotten, nothing is learned, a probe
/// that has lasted ten windows is off probation and halves the wait before the next one (not under
/// thirty windows), a younger one ages.
pub proof fn law_what_every_clean_window_does(v: ControlView, s: SampleView)
    requires
        laws::takes(v, s),
        clean(v, s),
    ensures
        ({
            let t = window::after(v, s);
            let lasted = v.probe_age matches Some(age) && age >= 9;
            &&& t.over == 0
            &&& t.deadband == 0
            &&& t.probe_down is None
            &&& t.noise_loss + t.last.eff_loss == t.last.loss
            &&& t.probe_wait == (if !lasted {
                v.probe_wait as int
            } else if v.probe_wait < 60 {
                30
            } else {
                v.probe_wait as int / 2
            })
            &&& !(v.target >= v.ceiling && v.at_ceiling + 1 >= t.probe_wait && v.ceiling < v.cap)
                ==> t.probe_age == (if lasted {
                None
            } else {
                aged(v)
            })
            &&& t.startup_left == v.startup_left.saturating_sub(1)
            &&& t.clean_at_point == 0 || t.clean_at_point == v.clean_at_point + 1
            &&& t.clean_at_target == (if t.target == v.target {
                v.clean_at_target + 1
            } else {
                0
            })
            &&& t.last_good == (if v.clean_at_target >= 14 {
                v.target
            } else {
                v.last_good
            })
        }),
{
    lemma_frame(v, s);
    lemma_rule(v, s);
    laws::lemma_measured(v, s);
    reveal(ControlView::applied);
    let (m, out) = v.measured(s).recovering(s.total());
    let c = m.counted_clean();
    if c.target < c.ceiling {
        assert(m.applied(s.total(), out) == c.below_ceiling(out));
    } else {
        assert(m.applied(s.total(), out) == c.at_the_ceiling(out));
    }
    assert(window::after(v, s).clean_at_point == 0 || window::after(v, s).clean_at_point
        == c.clean_at_point) by {
        reveal(ControlView::finished);
    }
}

/// Any other window holds the rate. With mild loss (up to 3 % over the noise floor, of more than a
/// hundred packets) on a link that is neither queued nor draining it counts, and the fifth one in
/// a row makes the loss the noise floor.
pub proof fn law_any_other_window_holds(v: ControlView, s: SampleView)
    requires
        laws::takes(v, s),
        undecided(v, s),
    ensures
        ({
            let t = window::after(v, s);
            let mild = s.recv + s.lost > 100 && 0 < t.last.eff_loss <= 30_000_000 && !queues(t)
                && t.last.delay != DelayState::Underuse;
            let floor = t.last.loss - t.last.eff_loss;
            &&& t.target == v.target
            &&& t.ceiling == v.ceiling
            &&& t.probe_wait == v.probe_wait
            &&& t.probe_age == aged(v)
            &&& t.probe_down is None
            &&& t.over == 0 && t.clean == 0 && t.at_ceiling == 0
            &&& t.clean_at_target == 0 && t.clean_at_point == 0
            &&& !mild ==> t.deadband == 0 && t.noise_loss == floor
            &&& mild && v.deadband < 4 ==> t.deadband == v.deadband + 1 && t.noise_loss == floor
            &&& mild && v.deadband >= 4 ==> t.deadband == 0 && t.noise_loss == t.last.loss
                && v.ticked(s).1.reason == Reason::MildNoise
            &&& t.startup_left == v.startup_left.saturating_sub(1)
            &&& t.since_step == v.since_step + 1 || t.since_step == u32::MAX
            &&& t.last_good == v.last_good
        }),
{
    lemma_frame(v, s);
    lemma_rule(v, s);
    laws::lemma_measured(v, s);
    assert(v.measured(s).since_step == v.since_step.saturating_add(1)) by {
        reveal(ControlView::measured);
    }
    reveal(ControlView::applied);
    let (m, out) = v.measured(s).recovering(s.total());
    assert(m.applied(s.total(), out) == m.after_deadband(s.total(), out));
    assert(window::after(v, s).clean_at_point == 0) by {
        reveal(ControlView::finished);
    }
}

/// A window that does nothing about the rate, and learns nothing.
pub open spec fn quiet(v: ControlView, s: SampleView) -> bool {
    let t = window::after(v, s);
    ||| v.probe_down matches Some(pd) && pd.windows == 0
    ||| lossy(v, s) && !(v.over >= 1 && v.since_step >= 2 && v.target > 300)
    ||| clean(v, s) && v.target < v.ceiling && v.startup_left == 0 && v.clean < 9
    ||| clean(v, s) && v.target >= v.ceiling && !(v.at_ceiling + 1 >= t.probe_wait && v.ceiling
        < v.cap)
    ||| undecided(v, s) && t.noise_loss <= v.noise_loss
}

/// What a quiet window gives as its reason: that the recovery mode flips; else that the point goes
/// down or up; else that the parity load changed the encoder's part; else nothing.
pub proof fn law_the_reason_of_a_quiet_window(v: ControlView, s: SampleView)
    requires
        laws::takes(v, s),
        quiet(v, s),
    ensures
        ({
            let (t, d) = v.ticked(s);
            d.reason == (if d.recovery is Some {
                Reason::RecoveryMode
            } else if t.point_idx > v.point_idx {
                Reason::StepDown
            } else if t.point_idx < v.point_idx {
                Reason::StepUp
            } else if t.encoder_kbps != v.encoder_kbps {
                Reason::FecShare
            } else {
                Reason::Hold
            })
        }),
{
    lemma_frame(v, s);
    lemma_rule(v, s);
    laws::lemma_measured(v, s);
    law_the_first_sustained_loss_flips_the_recovery(v, s);
    assert(v.measured(s).since_step == v.since_step.saturating_add(1)) by {
        reveal(ControlView::measured);
    }
    if undecided(v, s) {
        law_any_other_window_holds(v, s);
    } else if clean(v, s) {
        law_what_every_clean_window_does(v, s);
    }
    let (m, out) = v.measured(s).recovering(s.total());
    let (w, o) = m.applied(s.total(), out);
    laws::lemma_rules_leave_the_rest(m, s.total(), out);
    assert(o == out && w.encoder_kbps == m.encoder_kbps) by {
        reveal(ControlView::applied);
        let c = m.counted_clean();
        if v.window_rule(s) is Clean {
            if c.target < c.ceiling {
                assert(m.applied(s.total(), out) == c.below_ceiling(out));
            } else {
                assert(m.applied(s.total(), out) == c.at_the_ceiling(out));
            }
        } else if v.window_rule(s) is Deadband {
            assert(m.applied(s.total(), out) == m.after_deadband(s.total(), out));
        }
    }
    reveal(ControlView::finished);
}

/// What the reasons say, for logs.
pub proof fn law_what_the_reasons_say()
    ensures
        Reason::Hold.words() == ""@,
        Reason::RecoveryMode.words() == "loss → recovery mode"@,
        Reason::ProbeInconclusive.words() == "probe down inconclusive (fec changed) — restored"@,
        Reason::ProbeFollowed.words()
            == "sustained loss followed the rate — kept the lower rate"@,
        Reason::ProbeNoise.words()
            == "sustained loss did not follow the rate — learned as noise, restored"@,
        Reason::DelayOveruse.words() == "delay overuse → ×0.85"@,
        Reason::DelayOveruseFast.words() == "delay overuse (fast) → ×0.85"@,
        Reason::RttSevere.words() == "rtt bloat severe → halve"@,
        Reason::RttBloat.words() == "rtt bloat → ×0.7"@,
        Reason::SevereLoss.words() == "severe loss → halve"@,
        Reason::QueuedLoss.words() == "sustained loss with a queued link → ×0.7"@,
        Reason::ProbeDown.words() == "sustained loss, flat link → probe down"@,
        Reason::StartupProbe.words() == "startup probe ×1.5"@,
        Reason::Climb.words() == "clean → climb toward ceiling"@,
        Reason::ProbeUp.words() == "long clean stretch at ceiling → probe +10%"@,
        Reason::MildNoise.words() == "steady mild loss on a flat link — learned as noise"@,
        Reason::FecShare.words() == "fec share changed"@,
        Reason::StepDown.words() == "target under the point's minimum → step down"@,
        Reason::StepUp.words() == "clean with headroom → step up"@,
{
}

// ── Loss recovery ─────────────────────────────────────────────────────────────────────

/// The recovery mode flips with the first window of more than 50 packets that misses more than
/// 3 %, or with the second one in a row that misses more than 0.5 %: to the intra refresh where
/// the client can resume on it, else to short groups of pictures. The flip is told, and nothing
/// else ever changes the mode.
pub proof fn law_the_first_sustained_loss_flips_the_recovery(v: ControlView, s: SampleView)
    requires
        laws::takes(v, s),
    ensures
        ({
            let t = window::after(v, s);
            let lossy = s.recv + s.lost > 50 && t.last.loss > 5_000_000;
            let flips = v.recovery == LossRecovery::Normal && lossy && (v.lossy >= 1 || t.last.loss
                > 30_000_000);
            &&& t.lossy == (if lossy {
                v.lossy + 1
            } else {
                0
            })
            &&& flips ==> t.recovery == (if v.ir_capable {
                LossRecovery::IntraRefresh
            } else {
                LossRecovery::ShortGop
            }) && v.ticked(s).1.recovery == Some(t.recovery)
            &&& !flips ==> t.recovery == v.recovery && v.ticked(s).1.recovery is None
        }),
{
    lemma_frame(v, s);
    laws::lemma_measured(v, s);
    let (m, out) = v.measured(s).recovering(s.total());
    laws::lemma_rules_leave_the_rest(m, s.total(), out);
    let (w, o) = m.applied(s.total(), out);
    laws::lemma_finish_leaves_the_rest(w, o);
    assert(w.lossy == m.lossy) by {
        reveal(ControlView::applied);
    }
}

} // verus!
