//! What holds of the controller over all windows.

pub mod decision;
pub mod point;
pub mod session;
pub mod window;

use super::delay::{DelayState, TrendView};
use super::fec_policy::FecLoad;
use super::rules::{
    ControlView, Outcome, ProbeDown, Reason, Rule, SampleView, CLEAN_WINDOWS_UP, COOLDOWN_WINDOWS,
    DEADBAND_LEARN_WINDOWS, FAST_COOLDOWN_US, FLOOR_KBPS, LAST_GOOD_WINDOWS, LOSS_DOWN, LOSS_SEVERE,
    POINT_DEBOUNCE, POINT_MARGIN_DEN, POINT_MARGIN_NUM, PROBE_PUNISH_WINDOWS, PROBE_WAIT_MAX, PROBE_WAIT_MIN, RTT_BAD_US,
    RTT_EXCESS_US, RTT_OK_US, UP_HEADROOM_DEN, UP_HEADROOM_NUM,
};
use crate::adapt::delay;
use crate::adapt::ladder;
use crate::adapt::rules;
use crate::math;
use crate::service::LossRecovery;
use vstd::prelude::*;

verus! {

/// A window that the controller can take: packet counts and the window number fit.
pub open spec fn takes(v: ControlView, s: SampleView) -> bool {
    &&& v.wf()
    &&& v.windows < u32::MAX
    &&& s.total() <= u32::MAX
}

/// What the target becomes when the rule of a window cuts it to `num / den`.
pub open spec fn cut_target(v: ControlView, num: int, den: int) -> int {
    math::clamped(v.target * num / den, FLOOR_KBPS as int, v.cap as int)
}

/// What measuring a window leaves alone, and what it says of the loss and the delay.
proof fn lemma_measured(v: ControlView, s: SampleView)
    requires
        takes(v, s),
    ensures
        ({
            let m = v.measured(s);
            let loss = rules::loss_ratio(s.lost as int, s.total());
            &&& m == ControlView {
                windows: m.windows,
                since_step: m.since_step,
                point_age: m.point_age,
                probe_age: m.probe_age,
                rtt_base: m.rtt_base,
                rtt_ema: m.rtt_ema,
                rtt_last: m.rtt_last,
                noise_loss: m.noise_loss,
                last: m.last,
                ..v
            }
            &&& m.in_window()
            &&& m.lossy < m.windows
            &&& v.point_age < u32::MAX ==> m.point_age == v.point_age + 1
            &&& m.point_age >= v.point_age
            &&& m.probe_age == (match v.probe_age {
                Some(age) => Some((age + 1) as u32),
                None => None,
            })
            &&& m.last.loss == loss
            &&& m.noise_loss == rules::smaller(v.noise_loss as int, loss)
            &&& m.last.eff_loss == loss - m.noise_loss
            &&& m.last.delay == v.delay.state
            &&& 0 <= loss <= rules::ONE
        }),
{
    lemma_loss_fits(s);
    reveal(ControlView::measured);
}

/// Delay first: with an Overuse hypothesis and room above the floor, the window cuts the target
/// ×0.85 whatever the loss and the RTT say (unless a probe-down is being judged).
pub proof fn law_delay_comes_first(v: ControlView, s: SampleView)
    requires
        takes(v, s),
        v.probe_down is None,
        v.delay.state == DelayState::Overuse,
        v.target > FLOOR_KBPS,
    ensures
        v.ticked(s).0.target == cut_target(v, 85, 100),
        v.ticked(s).0.ceiling == cut_target(v, 85, 100),
        v.ticked(s).1.reason == Reason::DelayOveruse,
{
    reveal(ControlView::finished);
    reveal(ControlView::applied);
    lemma_measured(v, s);
}

/// The rule that a window comes under does not depend on the recovery mode, and the ladder and
/// the encoder's part that follow it do not touch the target.
proof fn lemma_target_is_the_rules(v: ControlView, s: SampleView)
    ensures
        v.measured(s).recovering(s.total()).0.rule(s.total()) == v.window_rule(s),
        ({
            let (m, out) = v.measured(s).recovering(s.total());
            let w = m.applied(s.total(), out).0;
            let t = v.ticked(s).0;
            &&& t.target == w.target
            &&& t.ceiling == w.ceiling
            &&& t.probe_wait == w.probe_wait
            &&& t.probe_age == w.probe_age
            &&& t.at_ceiling == w.at_ceiling
            &&& t.last_good == w.last_good
            &&& t.recovery == w.recovery
            &&& t.probe_down == w.probe_down
            &&& t.noise_loss == w.noise_loss
            &&& t.deadband == w.deadband
            &&& t.clean_at_target == w.clean_at_target
            &&& t.clean_at_point == 0 || t.clean_at_point == w.clean_at_point && t.point_idx
                == w.point_idx
        }),
{
    reveal(ControlView::finished);
}

/// What the rules leave alone, and what they tell.
proof fn lemma_rules_leave_the_rest(m: ControlView, total: int, out: Outcome)
    ensures
        ({
            let (w, o) = m.applied(total, out);
            &&& w.recovery == m.recovery
            &&& w.fec == m.fec
            &&& w.cap == m.cap
            &&& w.points == m.points
            &&& w.point_idx == m.point_idx
            &&& w.point_age == m.point_age
            &&& w.manual_point == m.manual_point
            &&& w.last_fast_cut_us == m.last_fast_cut_us
            &&& w.ir_capable == m.ir_capable
            &&& w.delay == m.delay
            &&& w.windows == m.windows
            &&& o.recovery == out.recovery
            &&& o.point == out.point
        }),
{
    reveal(ControlView::applied);
    match m.rule(total) {
        Rule::Clean => {
            let c = m.counted_clean();
            if c.target < c.ceiling {
                assert(m.applied(total, out) == c.below_ceiling(out));
            } else {
                assert(m.applied(total, out) == c.at_the_ceiling(out));
            }
        },
        Rule::Deadband => {
            assert(m.applied(total, out) == m.after_deadband(total, out));
        },
        _ => {},
    }
}

/// The rules move the encoder's rate with the target, and tell it.
proof fn lemma_rules_tell_the_rate(m: ControlView, total: int, out: Outcome)
    ensures
        ({
            let (w, o) = m.applied(total, out);
            ||| w.encoder_kbps == m.encoder_kbps && o.bitrate == out.bitrate
            ||| w.encoder_kbps == w.encoder_rate() as u32 && o.bitrate == Some(w.encoder_kbps)
                && w.encoder_kbps != m.encoder_kbps
        }),
{
    reveal(ControlView::applied);
    match m.rule(total) {
        Rule::Clean => {},
        Rule::Deadband => {},
        _ => {},
    }
}

/// What the end of a window leaves alone, and what it tells.
proof fn lemma_finish_leaves_the_rest(w: ControlView, o: Outcome)
    ensures
        ({
            let (t, d) = w.finished(o);
            &&& t.recovery == w.recovery
            &&& t.fec == w.fec
            &&& t.cap == w.cap
            &&& t.last_fast_cut_us == w.last_fast_cut_us
            &&& t.points == w.points
            &&& t.manual_point == w.manual_point
            &&& t.ir_capable == w.ir_capable
            &&& t.delay == w.delay
            &&& t.windows == w.windows
            &&& t.target == w.target
            &&& t.encoder_kbps == t.encoder_rate() as u32
            &&& t.encoder_rate() == w.encoder_rate()
            &&& d.recovery == o.recovery
            &&& d.bitrate == (if o.bitrate is None && t.encoder_kbps != w.encoder_kbps {
                Some(t.encoder_kbps)
            } else {
                o.bitrate
            })
            &&& w.manual_point ==> t.point_idx == w.point_idx && d.point == o.point
            &&& t.point_idx == w.point_idx && d.point == o.point || {
                &&& t.point_idx != w.point_idx
                &&& d.point == Some(w.points[t.point_idx])
                &&& t.point_age == 0
                &&& w.point_age >= POINT_DEBOUNCE || w.target * 10
                    < w.points[w.point_idx].min_kbps * 7
            }
        }),
{
    reveal(ControlView::finished);
}

/// The target stays between the floor and the cap.
proof fn lemma_target_is_in_range(v: ControlView, s: SampleView)
    requires
        takes(v, s),
    ensures
        FLOOR_KBPS <= v.ticked(s).0.target <= v.cap,
{
    reveal(ControlView::applied);
    lemma_measured(v, s);
    lemma_target_is_the_rules(v, s);
}

// ── Rates ─────────────────────────────────────────────────────────────────────────────

/// A keepalive RTT that the window leaves 35 ms or more over its baseline (and that is not
/// draining) cuts ×0.7, one of 90 ms or more halves — at zero loss too.
pub proof fn law_rtt_bloat_cuts(v: ControlView, s: SampleView)
    requires
        takes(v, s),
        v.probe_down is None,
        v.delay.state == DelayState::Normal,
        v.target > FLOOR_KBPS,
        !v.measured(s).draining(),
    ensures
        RTT_EXCESS_US <= v.measured(s).last.excess_us < RTT_BAD_US ==> v.ticked(s).0.target
            == cut_target(v, 7, 10) && v.ticked(s).1.reason == Reason::RttBloat,
        RTT_BAD_US <= v.measured(s).last.excess_us ==> v.ticked(s).0.target == cut_target(v, 1, 2)
            && v.ticked(s).1.reason == Reason::RttSevere,
{
    reveal(ControlView::finished);
    reveal(ControlView::applied);
    lemma_measured(v, s);
}

/// Raw loss over 15 % halves at once on a link that shows no queue.
pub proof fn law_severe_loss_halves(v: ControlView, s: SampleView)
    requires
        takes(v, s),
        v.probe_down is None,
        v.delay.state == DelayState::Normal,
        v.target > FLOOR_KBPS,
        v.measured(s).last.excess_us < RTT_EXCESS_US,
        s.total() > 100,
        rules::loss_ratio(s.lost as int, s.total()) > LOSS_SEVERE,
    ensures
        v.ticked(s).0.target == cut_target(v, 1, 2),
        v.ticked(s).1.reason == Reason::SevereLoss,
{
    reveal(ControlView::finished);
    reveal(ControlView::applied);
    lemma_measured(v, s);
}

/// A rule that cuts the rate because of loss or a queue.
pub open spec fn is_cut(rule: Rule) -> bool {
    rule is DelayOveruse || rule is RttSevere || rule is RttBloat || rule is SevereLoss
        || rule is QueuedLoss
}

/// No sawtooth: a rate that produced loss or bloat becomes a punished ceiling at 85 % of it, and
/// if it was a probe past the ceiling (no more than ten windows old) the wait before the next
/// probe doubles.
pub proof fn law_a_failed_probe_doubles_the_wait(v: ControlView, s: SampleView)
    requires
        takes(v, s),
        is_cut(v.window_rule(s)),
    ensures
        v.ticked(s).0.ceiling == cut_target(v, 85, 100),
        v.ticked(s).0.target <= v.target,
        v.ticked(s).0.at_ceiling == 0,
        v.ticked(s).0.probe_age is None,
        v.ticked(s).0.probe_wait == (match v.probe_age {
            Some(age) if age + 1 <= PROBE_PUNISH_WINDOWS => rules::smaller(
                2 * v.probe_wait,
                PROBE_WAIT_MAX as int,
            ),
            _ => v.probe_wait as int,
        }),
{
    reveal(ControlView::applied);
    lemma_measured(v, s);
    lemma_target_is_the_rules(v, s);
}

/// Only two things raise the target: a clean window, or the end of a probe-down that gives the
/// rate back that it came from. So there is no climb while the RTT or the delay gradient says
/// that the link is queued, nor while its delay shrinks.
pub proof fn law_no_climb_while_queued(v: ControlView, s: SampleView)
    requires
        takes(v, s),
    ensures
        v.ticked(s).0.target > v.target ==> v.window_rule(s) is Clean || (v.probe_down is Some
            && v.ticked(s).0.target == v.probe_down->0.from),
        v.probe_down is None && v.measured(s).queued() ==> v.ticked(s).0.target <= v.target,
        v.probe_down is None && v.delay.state != DelayState::Normal ==> v.ticked(s).0.target
            <= v.target,
{
    reveal(ControlView::applied);
    lemma_measured(v, s);
    lemma_target_is_the_rules(v, s);
}

/// Going past the ceiling is a probe: one step of at most +10 %, only from a target at the
/// ceiling and only after at least `probe_wait` clean windows there (or it is the end of a
/// probe-down). Below the ceiling a climb stops at it.
pub proof fn law_past_the_ceiling_only_by_a_probe(v: ControlView, s: SampleView)
    requires
        takes(v, s),
        v.ticked(s).0.target > v.target,
        v.ticked(s).0.target > v.ceiling,
        v.probe_down is None,
    ensures
        v.ticked(s).1.reason == Reason::ProbeUp,
        v.target >= v.ceiling,
        v.at_ceiling + 1 >= v.ticked(s).0.probe_wait,
        v.ticked(s).0.probe_wait >= PROBE_WAIT_MIN,
        v.ticked(s).0.target * 10 <= v.target * 11,
        v.ticked(s).0.probe_age == Some(0u32),
        v.ticked(s).0.target <= v.cap,
{
    reveal(ControlView::finished);
    reveal(ControlView::applied);
    lemma_measured(v, s);
    lemma_target_is_the_rules(v, s);
}

/// The windows counted at the ceiling are clean ones in a row: a window that is not clean, or
/// leaves the ceiling, starts the count anew.
pub proof fn law_waiting_at_the_ceiling_is_unbroken(v: ControlView, s: SampleView)
    requires
        takes(v, s),
        v.ticked(s).0.at_ceiling > 0,
    ensures
        v.ticked(s).0.at_ceiling == v.at_ceiling + 1,
        v.window_rule(s) is Clean,
        v.target >= v.ceiling,
        v.ticked(s).0.target == v.target,
{
    reveal(ControlView::applied);
    lemma_measured(v, s);
    lemma_target_is_the_rules(v, s);
}

/// Startup fast: while startup windows are left, every clean window below the ceiling climbs by
/// half (not past the ceiling); later it takes ten clean windows and climbs by a quarter.
pub proof fn law_clean_windows_climb(v: ControlView, s: SampleView)
    requires
        takes(v, s),
        v.window_rule(s) is Clean,
        v.target < v.ceiling,
    ensures
        v.startup_left > 0 ==> v.ticked(s).0.target == rules::smaller(
            v.target * 3 / 2,
            v.ceiling as int,
        ),
        v.startup_left == 0 && v.clean + 1 >= CLEAN_WINDOWS_UP ==> v.ticked(s).0.target
            == rules::smaller(v.target * 5 / 4, v.ceiling as int),
        v.startup_left == 0 && v.clean + 1 < CLEAN_WINDOWS_UP ==> {
            &&& v.ticked(s).0.target == v.target
            &&& v.ticked(s).0.clean == v.clean + 1
        },
{
    reveal(ControlView::finished);
    reveal(ControlView::applied);
    lemma_measured(v, s);
    lemma_target_is_the_rules(v, s);
}

// ── Loss that is noise ────────────────────────────────────────────────────────────────

proof fn lemma_loss_fits(s: SampleView)
    requires
        s.total() <= u32::MAX,
    ensures
        0 <= rules::loss_ratio(s.lost as int, s.total()) <= rules::ONE,
{
    if s.total() > 0 {
        let (l, t) = (s.lost as int, s.total());
        assert(0 <= (l * 1_000_000_000 + t / 2) / t <= 1_000_000_000) by (nonlinear_arith)
            requires
                0 <= l <= t,
                0 < t,
        ;
    }
}

/// Loss up to the learned noise floor no longer drives the rate: on a flat link such a window is
/// a clean one, whatever the loss (up to the 15 % that halve).
pub proof fn law_learned_noise_no_longer_drives_the_rate(v: ControlView, s: SampleView)
    requires
        takes(v, s),
        v.probe_down is None,
        s.total() > 0,
        rules::loss_ratio(s.lost as int, s.total()) <= v.noise_loss,
        rules::loss_ratio(s.lost as int, s.total()) <= LOSS_SEVERE,
        v.delay.state == DelayState::Normal,
        v.measured(s).last.excess_us < RTT_OK_US,
    ensures
        v.window_rule(s) is Clean,
        v.ticked(s).0.target >= v.target,
{
    reveal(ControlView::applied);
    lemma_measured(v, s);
    lemma_target_is_the_rules(v, s);
}

/// A probe-down is judged by its second window, which ends it: the loss followed the rate and
/// the lower rate stays, or the rate is given back exactly.
pub proof fn law_probe_down_is_judged_by_its_second_window(
    v: ControlView,
    s1: SampleView,
    s2: SampleView,
)
    requires
        takes(v, s1),
        takes(v.ticked(s1).0, s2),
        v.probe_down matches Some(pd) && pd.windows == 0,
    ensures
        v.ticked(s1).0.target == v.target,
        v.ticked(s1).0.probe_down is Some,
        v.ticked(s1).0.ticked(s2).0.probe_down is None,
        v.ticked(s1).0.ticked(s2).0.target == v.target || v.ticked(s1).0.ticked(s2).0.target
            == v.probe_down->0.from,
        // With the parity load unchanged, which of the two is decided by the loss alone.
        v.probe_down->0.fec == v.fec ==> {
            let after = (rules::loss_ratio(s1.lost as int, s1.total()) + rules::loss_ratio(
                s2.lost as int,
                s2.total(),
            )) / 2;
            let pd = v.probe_down->0;
            let t = v.ticked(s1).0.ticked(s2).0;
            &&& pd.loss_acc == 0 && after * 10 <= pd.pre_loss * 6 ==> t.target == v.target
                && t.ceiling == math::clamped(
                pd.from * 85 / 100,
                FLOOR_KBPS as int,
                v.cap as int,
            )
            &&& pd.loss_acc == 0 && after * 10 > pd.pre_loss * 6 ==> t.target == pd.from
                && t.noise_loss >= after
        },
{
    reveal(ControlView::applied);
    lemma_measured(v, s1);
    lemma_measured(v.ticked(s1).0, s2);
    lemma_target_is_the_rules(v, s1);
    lemma_target_is_the_rules(v.ticked(s1).0, s2);
    let (m, out) = v.measured(s1).recovering(s1.total());
    lemma_rules_leave_the_rest(m, s1.total(), out);
    let (w, o) = m.applied(s1.total(), out);
    lemma_finish_leaves_the_rest(w, o);
}

/// Sustained loss over 3 % (over the noise floor, the second such window, past the cooldown) on
/// an unqueued link lowers the rate to 80 % to see whether the loss follows; on a queued link
/// whose RTT is not over the cutting threshold it cuts ×0.7.
pub proof fn law_sustained_loss_is_probed_or_cut(v: ControlView, s: SampleView)
    requires
        takes(v, s),
        v.probe_down is None,
        v.delay.state != DelayState::Overuse,
        v.measured(s).last.excess_us < RTT_EXCESS_US,
        v.target > FLOOR_KBPS,
        s.total() > 100,
        v.measured(s).last.eff_loss > LOSS_DOWN,
        v.measured(s).last.loss <= LOSS_SEVERE,
        v.over >= 1,
        v.measured(s).since_step >= COOLDOWN_WINDOWS,
    ensures
        !v.measured(s).queued() ==> {
            &&& v.ticked(s).0.target == cut_target(v, 4, 5)
            &&& v.ticked(s).0.ceiling == v.ceiling
            &&& v.ticked(s).0.probe_down == Some(
                ProbeDown {
                    from: v.target,
                    pre_loss: v.measured(s).last.loss,
                    windows: 0,
                    loss_acc: 0,
                    fec: v.fec,
                },
            )
        },
        v.measured(s).queued() ==> v.ticked(s).0.target == cut_target(v, 7, 10),
{
    reveal(ControlView::applied);
    lemma_measured(v, s);
    lemma_target_is_the_rules(v, s);
}

/// Mild loss on a flat link holds the rate, and the fifth such window in a row makes it the
/// noise floor.
pub proof fn law_steady_mild_loss_becomes_noise(v: ControlView, s: SampleView)
    requires
        takes(v, s),
        v.window_rule(s) is Deadband,
        v.measured(s).mild_on_flat_link(s.total()),
    ensures
        v.ticked(s).0.target == v.target,
        v.deadband + 1 < DEADBAND_LEARN_WINDOWS ==> v.ticked(s).0.deadband == v.deadband + 1,
        v.deadband + 1 >= DEADBAND_LEARN_WINDOWS ==> {
            &&& v.ticked(s).0.deadband == 0
            &&& v.ticked(s).0.noise_loss == v.measured(s).last.loss
        },
{
    reveal(ControlView::applied);
    reveal(ControlView::finished);
    lemma_measured(v, s);
    lemma_target_is_the_rules(v, s);
}

/// The mild windows counted toward the noise floor come in a row: a window under any other rule,
/// or that is not mild, starts the count anew.
pub proof fn law_mild_windows_count_in_a_row(v: ControlView, s: SampleView)
    requires
        takes(v, s),
        v.ticked(s).0.deadband > 0,
    ensures
        v.ticked(s).0.deadband == v.deadband + 1,
        v.window_rule(s) is Deadband,
        v.measured(s).mild_on_flat_link(s.total()),
{
    reveal(ControlView::applied);
    lemma_measured(v, s);
    lemma_target_is_the_rules(v, s);
}

// ── Memory ────────────────────────────────────────────────────────────────────────────

/// The clean windows counted at a rate come in a row and at that rate: a window that is not
/// clean, or that moves the target, starts the count anew.
pub proof fn law_clean_windows_at_a_rate_count_in_a_row(v: ControlView, s: SampleView)
    requires
        takes(v, s),
    ensures
        v.ticked(s).0.clean_at_target == (if v.window_rule(s) is Clean && v.ticked(s).0.target
            == v.target {
            v.clean_at_target + 1
        } else {
            0
        }),
{
    reveal(ControlView::applied);
    lemma_measured(v, s);
    lemma_target_is_the_rules(v, s);
}

/// Only a clean window remembers a rate as good, the one that it ran at, and only as the
/// fifteenth (or a later one) that was counted there.
pub proof fn law_last_good_is_the_clean_rate(v: ControlView, s: SampleView)
    requires
        takes(v, s),
    ensures
        v.ticked(s).0.last_good == (if v.window_rule(s) is Clean && v.clean_at_target + 1
            >= LAST_GOOD_WINDOWS {
            v.target
        } else {
            v.last_good
        }),
{
    reveal(ControlView::applied);
    lemma_measured(v, s);
    lemma_target_is_the_rules(v, s);
}

/// The recovery mode flips once: with the first sustained loss, to the mode that the client
/// prefers, and never again.
pub proof fn law_recovery_flips_once(v: ControlView, s: SampleView)
    requires
        takes(v, s),
    ensures
        v.recovery != LossRecovery::Normal ==> v.ticked(s).0.recovery == v.recovery
            && v.ticked(s).1.recovery is None,
        v.recovery == LossRecovery::Normal && v.measured(s).flips(s.total())
            ==> v.ticked(s).0.recovery == v.preferred() && v.ticked(s).1.recovery == Some(
            v.preferred(),
        ),
        v.recovery == LossRecovery::Normal && !v.measured(s).flips(s.total())
            ==> v.ticked(s).0.recovery == LossRecovery::Normal && v.ticked(s).1.recovery is None,
        v.preferred() != LossRecovery::Normal,
{
    lemma_measured(v, s);
    let (m, out) = v.measured(s).recovering(s.total());
    lemma_rules_leave_the_rest(m, s.total(), out);
    let (w, o) = m.applied(s.total(), out);
    lemma_finish_leaves_the_rest(w, o);
}

// ── The encoder's part ────────────────────────────────────────────────────────────────

/// After every window the encoder's rate leaves room for the parity within the target, except
/// that it does not go under the floor; and a new rate is told exactly when it changed.
pub proof fn law_media_and_parity_fit_the_target(v: ControlView, s: SampleView)
    requires
        takes(v, s),
    ensures
        ({
            let (t, out) = v.ticked(s);
            &&& t.encoder_kbps == t.encoder_rate()
            &&& FLOOR_KBPS <= t.encoder_kbps <= t.target
            &&& t.encoder_kbps > FLOOR_KBPS ==> t.encoder_kbps * t.fec.share_den() <= t.target
                * t.fec.share_num()
            &&& t.fec == v.fec
            &&& out.bitrate == (if t.encoder_kbps == v.encoder_kbps {
                None::<u32>
            } else {
                Some(t.encoder_kbps)
            })
        }),
{
    lemma_measured(v, s);
    lemma_target_is_in_range(v, s);
    let (m, out) = v.measured(s).recovering(s.total());
    lemma_rules_leave_the_rest(m, s.total(), out);
    lemma_rules_tell_the_rate(m, s.total(), out);
    let (w, o) = m.applied(s.total(), out);
    lemma_finish_leaves_the_rest(w, o);
    lemma_encoder_rate(v.ticked(s).0);
}

proof fn lemma_encoder_rate(v: ControlView)
    requires
        FLOOR_KBPS <= v.target,
    ensures
        FLOOR_KBPS <= v.encoder_rate() <= v.target,
        v.encoder_rate() > FLOOR_KBPS ==> v.encoder_rate() * v.fec.share_den() <= v.target
            * v.fec.share_num(),
{
    reveal(rules::encoder_rate_of);
    let (k, a, b) = (v.target as int, v.fec.share_num(), v.fec.share_den());
    assert(0 < a <= b);
    assert(0 <= (k * a) / b <= k && (k * a) / b * b <= k * a) by (nonlinear_arith)
        requires
            0 <= k,
            0 < a <= b,
    ;
}

// ── The ladder ────────────────────────────────────────────────────────────────────────

/// A pinned point stays: no window moves it.
pub proof fn law_manual_point_pins_the_ladder(v: ControlView, s: SampleView)
    requires
        takes(v, s),
        v.manual_point,
    ensures
        v.ticked(s).0.point_idx == v.point_idx,
        v.ticked(s).1.point is None,
{
    lemma_measured(v, s);
    let (m, out) = v.measured(s).recovering(s.total());
    lemma_rules_leave_the_rest(m, s.total(), out);
    let (w, o) = m.applied(s.total(), out);
    lemma_finish_leaves_the_rest(w, o);
}

/// Resolution changes restart an encoder, so a window changes the point only when the last
/// change is two windows back — or the target is under 70 % of what the point needs. The change
/// is told, and what is told is where the controller is.
pub proof fn law_point_changes_are_debounced(v: ControlView, s: SampleView)
    requires
        takes(v, s),
    ensures
        v.ticked(s).0.point_idx != v.point_idx ==> v.point_age + 1 >= POINT_DEBOUNCE
            || v.ticked(s).0.target * 10 < v.points[v.point_idx].min_kbps * 7,
        v.ticked(s).1.point is Some <==> v.ticked(s).0.point_idx != v.point_idx,
        v.ticked(s).1.point is Some ==> v.ticked(s).1.point == Some(
            v.points[v.ticked(s).0.point_idx],
        ) && v.ticked(s).0.point_age == 0,
{
    lemma_measured(v, s);
    let (m, out) = v.measured(s).recovering(s.total());
    lemma_rules_leave_the_rest(m, s.total(), out);
    let (w, o) = m.applied(s.total(), out);
    lemma_finish_leaves_the_rest(w, o);
}

/// Going up asks for a clean stretch at the point (ten windows, two during startup), a point that
/// is not pinned and at least two windows old, and a target of at least 1.2 times what the new
/// point needs. It goes to the best such point, and that is told.
pub proof fn law_going_up_needs_headroom(v: ControlView, s: SampleView)
    requires
        takes(v, s),
        v.ticked(s).0.point_idx < v.point_idx,
    ensures
        ({
            let t = v.ticked(s).0;
            &&& 0 <= t.point_idx
            &&& v.points[t.point_idx].min_kbps * UP_HEADROOM_DEN <= t.target * UP_HEADROOM_NUM
            &&& forall|k: int|
                0 <= k < t.point_idx ==> (#[trigger] v.points[k]).min_kbps * UP_HEADROOM_DEN
                    > t.target * UP_HEADROOM_NUM
            &&& v.ticked(s).1.point == Some(v.points[t.point_idx])
            &&& !v.manual_point
            &&& v.window_rule(s) is Clean
            &&& v.point_age + 1 >= POINT_DEBOUNCE
            &&& v.clean_at_point + 1 >= (if v.startup_left > 1 {
                2
            } else {
                CLEAN_WINDOWS_UP as int
            })
        }),
{
    lemma_measured(v, s);
    let (m, out) = v.measured(s).recovering(s.total());
    lemma_rules_leave_the_rest(m, s.total(), out);
    let (w, o) = m.applied(s.total(), out);
    lemma_finish_leaves_the_rest(w, o);
    lemma_target_is_the_rules(v, s);
    assert(w.clean_at_point <= m.clean_at_point + 1 && w.startup_left <= m.startup_left) by {
        reveal(ControlView::applied);
    }
    assert(w.clean_at_point > 0 ==> m.rule(s.total()) is Clean) by {
        reveal(ControlView::applied);
    }
    reveal(ControlView::finished);
    ladder::laws::law_pick_is_the_best_that_fits(
        v.points,
        w.target,
        UP_HEADROOM_NUM,
        UP_HEADROOM_DEN,
    );
    let idx = v.ticked(s).0.point_idx;
    assert forall|k: int| 0 <= k < idx implies (#[trigger] v.points[k]).min_kbps * UP_HEADROOM_DEN
        > w.target * UP_HEADROOM_NUM by {
        assert(!ladder::fits(v.points[k], w.target, UP_HEADROOM_NUM, UP_HEADROOM_DEN));
    }
}

/// The clean windows counted at a point come in a row and at that point: a window that is not
/// clean, or that moves the point, starts the count anew.
pub proof fn law_clean_windows_at_a_point_count_in_a_row(v: ControlView, s: SampleView)
    requires
        takes(v, s),
        v.ticked(s).0.clean_at_point > 0,
    ensures
        v.ticked(s).0.clean_at_point == v.clean_at_point + 1,
        v.window_rule(s) is Clean,
        v.ticked(s).0.point_idx == v.point_idx,
{
    reveal(ControlView::applied);
    lemma_measured(v, s);
    lemma_target_is_the_rules(v, s);
    let (m, out) = v.measured(s).recovering(s.total());
    lemma_rules_leave_the_rest(m, s.total(), out);
}

/// Going down is immediate once debounced (or the shortfall is severe): a target under what the
/// point needs leaves the point for a lower one in the same window.
pub proof fn law_a_starved_point_is_left(v: ControlView, s: SampleView)
    requires
        takes(v, s),
        !v.manual_point,
        v.ticked(s).0.target < v.points[v.point_idx].min_kbps,
        v.point_idx + 1 < v.points.len(),
        v.point_age + 1 >= POINT_DEBOUNCE || v.ticked(s).0.target * 10
            < v.points[v.point_idx].min_kbps * 7,
    ensures
        v.ticked(s).0.point_idx > v.point_idx,
        v.point_idx >= 1 ==> v.points[v.ticked(s).0.point_idx].min_kbps
            <= v.points[v.point_idx].min_kbps,
        v.ticked(s).1.point == Some(v.points[v.ticked(s).0.point_idx]),
{
    lemma_measured(v, s);
    let (m, out) = v.measured(s).recovering(s.total());
    lemma_rules_leave_the_rest(m, s.total(), out);
    let (w, o) = m.applied(s.total(), out);
    lemma_finish_leaves_the_rest(w, o);
    reveal(ControlView::finished);
    if v.point_idx >= 1 {
        let below = v.points.skip(1);
        let idx = v.ticked(s).0.point_idx;
        assert(below[idx - 1] == v.points[idx] && below[v.point_idx - 1] == v.points[v.point_idx]);
        assert(!below[idx - 1].ranks_above(below[v.point_idx - 1]));
    }
}

// ── The fast reflex ───────────────────────────────────────────────────────────────────

/// A fast cut moves the point under the same debounce as a window.
pub proof fn law_fast_cuts_are_debounced(v: ControlView, now_us: u64)
    requires
        v.wf(),
        v.reflex_due(now_us),
        v.reflexed(now_us).0.point_idx != v.point_idx,
    ensures
        v.point_age >= POINT_DEBOUNCE || v.reflexed(now_us).0.target * 10
            < v.points[v.point_idx].min_kbps * 7,
        v.reflexed(now_us).1.point == Some(v.points[v.reflexed(now_us).0.point_idx]),
{
}

/// The fast reflex cuts ×0.85 and punishes, as the window does on Overuse.
pub proof fn law_fast_reflex_cuts(v: ControlView, now_us: u64)
    requires
        v.wf(),
        v.reflex_due(now_us),
    ensures
        v.reflexed(now_us).0.target == cut_target(v, 85, 100),
        v.reflexed(now_us).0.ceiling == cut_target(v, 85, 100),
        v.reflexed(now_us).0.last_fast_cut_us == Some(now_us),
{
}

/// What can happen to a controller.
pub enum ControlEvent {
    Window(SampleView),
    Poll(u64),
    Frame(u32, u64),
    Fec(FecLoad),
    Target(u32),
    ManualPoint(bool),
    StreamRestart,
}

/// The controller after one event.
pub open spec fn after_event(v: ControlView, e: ControlEvent) -> ControlView {
    match e {
        ControlEvent::Window(s) => v.ticked(s).0,
        ControlEvent::Poll(now_us) => if v.reflex_due(now_us) {
            v.reflexed(now_us).0
        } else {
            v
        },
        ControlEvent::Frame(send_ts, arrival_us) => ControlView {
            delay: v.delay.after_frame(send_ts, arrival_us),
            ..v
        },
        ControlEvent::Fec(fec) => ControlView { fec, ..v },
        ControlEvent::Target(kbps) => v.retargeted(kbps),
        ControlEvent::ManualPoint(manual) => v.pinned(manual),
        ControlEvent::StreamRestart => ControlView { delay: TrendView::fresh(), ..v },
    }
}

/// The controller after a run of events.
pub open spec fn after_events(v: ControlView, events: Seq<ControlEvent>) -> ControlView
    decreases events.len(),
{
    if events.len() == 0 {
        v
    } else {
        after_event(after_events(v, events.drop_last()), events.last())
    }
}

/// A run of events that the controller can take.
pub open spec fn takes_events(v: ControlView, events: Seq<ControlEvent>) -> bool {
    &&& v.wf()
    &&& v.windows + events.len() <= u32::MAX
    &&& forall|i: int|
        0 <= i < events.len() ==> ((#[trigger] events[i]) matches ControlEvent::Window(s)
            ==> s.total() <= u32::MAX)
}

proof fn lemma_event_keeps_wf(v: ControlView, e: ControlEvent)
    requires
        v.wf(),
        e matches ControlEvent::Window(s) ==> takes(v, s),
    ensures
        after_event(v, e).wf(),
        after_event(v, e).windows <= v.windows + 1,
        after_event(v, e).cap == v.cap,
{
    match e {
        ControlEvent::Window(s) => lemma_window_keeps_wf(v, s),
        ControlEvent::Frame(send_ts, arrival_us) => delay::laws::law_frames_keep_the_limits(
            v.delay,
            send_ts,
            arrival_us,
        ),
        ControlEvent::Poll(now_us) => {
            if v.reflex_due(now_us) {
                ladder::laws::law_pick_is_the_best_that_fits(
                    v.points,
                    v.reflexed(now_us).0.target,
                    UP_HEADROOM_NUM,
                    UP_HEADROOM_DEN,
                );
            }
        },
        ControlEvent::ManualPoint(_) => ladder::laws::law_pick_is_the_best_that_fits(
            v.points,
            v.target,
            POINT_MARGIN_NUM,
            POINT_MARGIN_DEN,
        ),
        _ => {},
    }
}

/// The floor and the cap hold over any run of windows, polls, frames and settings: the target
/// and the ceiling stay between the two, the point stays on the ladder, and the wait between
/// probes stays within its limits.
pub proof fn law_limits_hold_over_any_events(v: ControlView, events: Seq<ControlEvent>)
    requires
        takes_events(v, events),
    ensures
        ({
            let w = after_events(v, events);
            &&& w.wf()
            &&& w.windows <= v.windows + events.len()
            &&& w.cap == v.cap
            &&& FLOOR_KBPS <= w.target <= v.cap
            &&& FLOOR_KBPS <= w.ceiling <= v.cap
            &&& PROBE_WAIT_MIN <= w.probe_wait <= PROBE_WAIT_MAX
            &&& 0 <= w.point_idx < w.points.len()
        }),
    decreases events.len(),
{
    if events.len() > 0 {
        let before = events.drop_last();
        lemma_takes_the_earlier_events(v, events);
        law_limits_hold_over_any_events(v, before);
        lemma_event_keeps_wf(after_events(v, before), events.last());
    }
}

proof fn lemma_takes_the_earlier_events(v: ControlView, events: Seq<ControlEvent>)
    requires
        takes_events(v, events),
        events.len() > 0,
    ensures
        takes_events(v, events.drop_last()),
        events.last() matches ControlEvent::Window(s) ==> s.total() <= u32::MAX,
{
    let before = events.drop_last();
    assert forall|i: int| 0 <= i < before.len() implies ((
    #[trigger] before[i]) matches ControlEvent::Window(s) ==> s.total() <= u32::MAX) by {
        assert(before[i] == events[i]);
    }
    assert(events[events.len() - 1] == events.last());
}

/// How many windows at the end of a run were clean with nothing between them but events that
/// left the target as it was.
pub open spec fn clean_streak(v: ControlView, events: Seq<ControlEvent>) -> nat
    decreases events.len(),
{
    if events.len() == 0 {
        0
    } else {
        let before = events.drop_last();
        let w = after_events(v, before);
        if after_events(v, events).target != w.target {
            0
        } else {
            match events.last() {
                ControlEvent::Window(s) => if w.window_rule(s) is Clean {
                    clean_streak(v, before) + 1
                } else {
                    0
                },
                _ => clean_streak(v, before),
            }
        }
    }
}

/// The controller counts exactly that streak.
proof fn lemma_the_streak_is_counted(v: ControlView, events: Seq<ControlEvent>)
    requires
        takes_events(v, events),
        v.clean_at_target == 0,
    ensures
        after_events(v, events).clean_at_target == clean_streak(v, events),
    decreases events.len(),
{
    if events.len() > 0 {
        let before = events.drop_last();
        lemma_takes_the_earlier_events(v, events);
        law_limits_hold_over_any_events(v, before);
        lemma_the_streak_is_counted(v, before);
        let w = after_events(v, before);
        match events.last() {
            ControlEvent::Window(s) => law_clean_windows_at_a_rate_count_in_a_row(w, s),
            ControlEvent::Poll(now_us) => {
                if w.reflex_due(now_us) {
                    assert(w.target * 85 / 100 < w.target);
                }
            },
            _ => {},
        }
    }
}

/// A rate is remembered as good only after a clean half minute at it: over any run of events,
/// the window that remembers one is clean and ends fifteen clean windows in a row, at that rate,
/// with no change of the target among them.
pub proof fn law_last_good_is_earned(v: ControlView, events: Seq<ControlEvent>, s: SampleView)
    requires
        takes_events(v, events.push(ControlEvent::Window(s))),
        v.clean_at_target == 0,
        ({
            let w = after_events(v, events);
            w.ticked(s).0.last_good != w.last_good
        }),
    ensures
        ({
            let w = after_events(v, events);
            &&& w.ticked(s).0.last_good == w.target
            &&& w.window_rule(s) is Clean
            &&& clean_streak(v, events) + 1 >= LAST_GOOD_WINDOWS
        }),
{
    let all = events.push(ControlEvent::Window(s));
    lemma_takes_the_earlier_events(v, all);
    assert(all.drop_last() =~= events);
    law_limits_hold_over_any_events(v, events);
    lemma_the_streak_is_counted(v, events);
    law_last_good_is_the_clean_rate(after_events(v, events), s);
}

/// Nothing but a window changes the rate that is remembered.
pub proof fn law_only_windows_remember(v: ControlView, e: ControlEvent)
    requires
        !(e is Window),
    ensures
        after_event(v, e).last_good == v.last_good,
{
}

/// Event `i` of a run is a poll at `now_us` that cuts.
pub open spec fn cuts_at(v: ControlView, events: Seq<ControlEvent>, i: int, now_us: u64) -> bool {
    &&& events[i] == ControlEvent::Poll(now_us)
    &&& after_events(v, events.take(i)).reflex_due(now_us)
}

/// The time of the last cut never goes back.
proof fn lemma_last_cut_grows(v: ControlView, events: Seq<ControlEvent>, i: int, t: u64)
    requires
        0 <= i <= events.len(),
        after_events(v, events.take(i)).last_fast_cut_us == Some(t),
    ensures
        after_events(v, events).last_fast_cut_us matches Some(last) && last >= t,
    decreases events.len(),
{
    if i == events.len() {
        assert(events.take(i) =~= events);
    } else {
        let before = events.drop_last();
        assert(before.take(i) =~= events.take(i));
        lemma_last_cut_grows(v, before, i, t);
        let w = after_events(v, before);
        match events.last() {
            ControlEvent::Window(s) => lemma_windows_keep_the_cut(w, s),
            _ => {},
        }
    }
}

proof fn lemma_windows_keep_the_cut(v: ControlView, s: SampleView)
    ensures
        v.ticked(s).0.last_fast_cut_us == v.last_fast_cut_us,
{
    assert(v.measured(s).last_fast_cut_us == v.last_fast_cut_us) by {
        reveal(ControlView::measured);
    }
    let (m, out) = v.measured(s).recovering(s.total());
    lemma_rules_leave_the_rest(m, s.total(), out);
    let (w, o) = m.applied(s.total(), out);
    lemma_finish_leaves_the_rest(w, o);
}

/// Over any run of windows, polls and other events, two fast cuts are at least the cooldown
/// (1.5 s) apart.
pub proof fn law_fast_cuts_are_spaced(
    v: ControlView,
    events: Seq<ControlEvent>,
    i: int,
    now_us: u64,
    j: int,
    later_us: u64,
)
    requires
        0 <= i < j < events.len(),
        cuts_at(v, events, i, now_us),
        cuts_at(v, events, j, later_us),
    ensures
        later_us >= now_us + FAST_COOLDOWN_US,
{
    assert(events.take(i + 1).drop_last() =~= events.take(i));
    assert(events.take(i + 1).last() == events[i]);
    assert(after_events(v, events.take(i + 1)).last_fast_cut_us == Some(now_us));
    assert(events.take(j).take(i + 1) =~= events.take(i + 1));
    lemma_last_cut_grows(v, events.take(j), i + 1, now_us);
}

// ── Keepalive RTT ─────────────────────────────────────────────────────────────────────

/// The RTT samples that count.
pub open spec fn positive(samples: Seq<u64>) -> Seq<u64> {
    samples.filter(|x: u64| x > 0)
}

pub open spec fn sum_of(samples: Seq<u64>) -> int
    decreases samples.len(),
{
    if samples.len() == 0 {
        0
    } else {
        sum_of(samples.drop_last()) + samples.last()
    }
}

proof fn lemma_zeros_do_not_count(samples: Seq<u64>, base: u64, last: u64)
    ensures
        rules::rtt_run(samples, base, last) == rules::rtt_run(positive(samples), base, last),
        rules::rtt_run(samples, base, last).n == positive(samples).len(),
        rules::rtt_run(samples, base, last).sum == sum_of(positive(samples)),
        rules::rtt_run(samples, base, last).jitter_n <= positive(samples).len(),
        0 <= sum_of(positive(samples)) <= positive(samples).len() * u64::MAX,
    decreases samples.len(),
{
    reveal(Seq::filter);
    if samples.len() > 0 {
        let before = samples.drop_last();
        lemma_zeros_do_not_count(before, base, last);
        if samples.last() > 0 {
            assert(positive(samples) =~= positive(before).push(samples.last()));
            assert(positive(samples).drop_last() =~= positive(before));
        } else {
            assert(positive(samples) =~= positive(before));
        }
    } else {
        assert(positive(samples) =~= samples);
    }
}

/// RTT samples of 0 can be left out: the window measures the same without them.
pub proof fn law_zero_rtts_do_not_count(v: ControlView, s: SampleView)
    ensures
        v.measured(SampleView { rtt_us: positive(s.rtt_us), ..s }) == v.measured(s),
        v.ticked(SampleView { rtt_us: positive(s.rtt_us), ..s }) == v.ticked(s),
{
    reveal(ControlView::measured);
    lemma_zeros_do_not_count(s.rtt_us, v.rtt_base, v.rtt_last);
}

/// With two or more samples that count, the RTT of a window is their mean. With none it is what
/// it was, there is no jitter, and the last sample stays the last.
pub proof fn law_rtt_is_the_mean_of_the_window(v: ControlView, s: SampleView)
    requires
        takes(v, s),
    ensures
        ({
            let seen = positive(s.rtt_us);
            let t = v.ticked(s).0;
            &&& t.last.rtt_us == t.rtt_ema
            &&& seen.len() >= 2 ==> t.last.rtt_us == sum_of(seen) / seen.len() as int
            &&& seen.len() == 0 ==> t.last.rtt_us == v.rtt_ema && t.last.jitter_us == 0
                && t.rtt_last == v.rtt_last
        }),
{
    lemma_measured(v, s);
    lemma_zeros_do_not_count(s.rtt_us, v.rtt_base, v.rtt_last);
    lemma_rules_keep_the_measurements(v, s);
    reveal(ControlView::measured);
    let seen = positive(s.rtt_us);
    if seen.len() >= 2 {
        let (sum, n) = (sum_of(seen), seen.len() as int);
        assert(0 <= sum / n <= u64::MAX) by (nonlinear_arith)
            requires
                0 <= sum <= n * u64::MAX,
                n > 0,
        ;
    } else if seen.len() == 0 {
        assert(seen =~= Seq::empty());
    }
}

/// What a window makes of the RTT fits where it is kept.
proof fn lemma_measured_rtt(v: ControlView, s: SampleView)
    ensures
        ({
            let run = rules::rtt_run(s.rtt_us, v.rtt_base, v.rtt_last);
            let ema = v.next_ema(run);
            &&& 0 <= ema <= u64::MAX
            &&& v.measured(s).rtt_ema == ema
            &&& v.measured(s).last.rtt_us == ema
            &&& v.measured(s).rtt_base == ControlView::rebased(run.base, ema)
            &&& v.measured(s).last.excess_us == ControlView::over_base(
                ema,
                ControlView::rebased(run.base, ema),
            )
            &&& v.measured(s).rtt_last == run.last
        }),
{
    reveal(ControlView::measured);
    lemma_zeros_do_not_count(s.rtt_us, v.rtt_base, v.rtt_last);
    let run = rules::rtt_run(s.rtt_us, v.rtt_base, v.rtt_last);
    if run.n > 0 {
        let (sum, n) = (run.sum, run.n as int);
        assert(0 <= sum / n <= u64::MAX) by (nonlinear_arith)
            requires
                0 <= sum <= n * u64::MAX,
                n > 0,
        ;
    }
}

proof fn lemma_rules_keep_the_measurements(v: ControlView, s: SampleView)
    ensures
        v.ticked(s).0.last == v.measured(s).last,
        v.ticked(s).0.rtt_base == v.measured(s).rtt_base,
        v.ticked(s).0.rtt_ema == v.measured(s).rtt_ema,
        v.ticked(s).0.rtt_last == v.measured(s).rtt_last,
{
    reveal(ControlView::applied);
    reveal(ControlView::finished);
}

/// A window without a sample that counts tells the RTT that the window before told.
pub proof fn law_rtt_stays_without_samples(v: ControlView, s1: SampleView, s2: SampleView)
    requires
        takes(v, s1),
        takes(v.ticked(s1).0, s2),
        positive(s2.rtt_us).len() == 0,
    ensures
        v.ticked(s1).0.ticked(s2).0.last.rtt_us == v.ticked(s1).0.last.rtt_us,
{
    law_rtt_is_the_mean_of_the_window(v, s1);
    law_rtt_is_the_mean_of_the_window(v.ticked(s1).0, s2);
}

// ── Over many windows ─────────────────────────────────────────────────────────────────

/// The state after a run of windows.
pub open spec fn after_windows(v: ControlView, samples: Seq<SampleView>) -> ControlView
    decreases samples.len(),
{
    if samples.len() == 0 {
        v
    } else {
        after_windows(v, samples.drop_last()).ticked(samples.last()).0
    }
}

/// A run of windows that the controller can take.
pub open spec fn takes_all(v: ControlView, samples: Seq<SampleView>) -> bool {
    &&& v.wf()
    &&& v.windows + samples.len() <= u32::MAX
    &&& forall|i: int| 0 <= i < samples.len() ==> (#[trigger] samples[i]).total() <= u32::MAX
}

proof fn lemma_rules_keep_wf(m: ControlView, total: int, out: Outcome)
    requires
        m.in_window(),
    ensures
        m.applied(total, out).0.wf(),
{
    reveal(ControlView::applied);
    match m.rule(total) {
        Rule::Clean => {
            let c = m.counted_clean();
            if c.target < c.ceiling {
                assert(m.applied(total, out) == c.below_ceiling(out));
            } else {
                assert(m.applied(total, out) == c.at_the_ceiling(out));
            }
        },
        Rule::Deadband => {
            assert(m.applied(total, out) == m.after_deadband(total, out));
        },
        Rule::ProbePending => {},
        Rule::ProbeNoise => {
            let seen = m.probe_down->0.observing(m.last.loss);
            assert(seen.windows == 2 && seen.loss_acc <= 2_000_000_000);
            assert(0 <= seen.mean_loss() <= 1_000_000_000);
        },
        _ => {},
    }
}

proof fn lemma_finish_keeps_wf(w: ControlView, o: Outcome)
    requires
        w.wf(),
    ensures
        w.finished(o).0.wf(),
{
    reveal(ControlView::finished);
    ladder::laws::law_pick_is_the_best_that_fits(
        w.points,
        w.target,
        UP_HEADROOM_NUM,
        UP_HEADROOM_DEN,
    );
}

proof fn lemma_window_keeps_wf(v: ControlView, s: SampleView)
    requires
        takes(v, s),
    ensures
        v.ticked(s).0.wf(),
        v.ticked(s).0.windows == v.windows + 1,
        v.ticked(s).0.cap == v.cap,
{
    lemma_measured(v, s);
    let (m, out) = v.measured(s).recovering(s.total());
    assert(m.in_window());
    lemma_rules_keep_wf(m, s.total(), out);
    let (w, o) = m.applied(s.total(), out);
    lemma_finish_keeps_wf(w, o);
    law_windows_keep_the_session(v, s);
}

/// Never below the floor and never above the cap: whatever the windows bring, the target and the
/// ceiling stay between the two, the point stays on the ladder, and the wait between probes stays
/// within its limits.
pub proof fn law_limits_hold_over_any_run(v: ControlView, samples: Seq<SampleView>)
    requires
        takes_all(v, samples),
    ensures
        ({
            let w = after_windows(v, samples);
            &&& w.wf()
            &&& w.windows == v.windows + samples.len()
            &&& w.cap == v.cap
            &&& FLOOR_KBPS <= w.target <= v.cap
            &&& FLOOR_KBPS <= w.ceiling <= v.cap
            &&& PROBE_WAIT_MIN <= w.probe_wait <= PROBE_WAIT_MAX
            &&& 0 <= w.point_idx < w.points.len()
        }),
    decreases samples.len(),
{
    if samples.len() > 0 {
        let before = samples.drop_last();
        assert forall|i: int| 0 <= i < before.len() implies (#[trigger] before[i]).total()
            <= u32::MAX by {
            assert(before[i] == samples[i]);
        }
        law_limits_hold_over_any_run(v, before);
        assert(samples[samples.len() - 1].total() <= u32::MAX);
        lemma_window_keeps_wf(after_windows(v, before), samples.last());
    }
}

/// Once flipped, the recovery mode stays for the rest of the session.
pub proof fn law_recovery_is_for_good(v: ControlView, samples: Seq<SampleView>)
    requires
        takes_all(v, samples),
        v.recovery != LossRecovery::Normal,
    ensures
        after_windows(v, samples).recovery == v.recovery,
    decreases samples.len(),
{
    if samples.len() > 0 {
        let before = samples.drop_last();
        assert forall|i: int| 0 <= i < before.len() implies (#[trigger] before[i]).total()
            <= u32::MAX by {
            assert(before[i] == samples[i]);
        }
        law_recovery_is_for_good(v, before);
        law_limits_hold_over_any_run(v, before);
        assert(samples[samples.len() - 1].total() <= u32::MAX);
        law_recovery_flips_once(after_windows(v, before), samples.last());
    }
}

/// What window `i` of a run comes under.
pub open spec fn rule_in_run(v: ControlView, samples: Seq<SampleView>, i: int) -> Rule {
    after_windows(v, samples.take(i)).window_rule(samples[i])
}

/// The windows counted at the ceiling are the last ones of the run, all clean.
proof fn lemma_counted_windows_were_clean(v: ControlView, samples: Seq<SampleView>)
    requires
        takes_all(v, samples),
        v.at_ceiling == 0,
    ensures
        after_windows(v, samples).at_ceiling <= samples.len(),
        forall|i: int|
            samples.len() - after_windows(v, samples).at_ceiling <= i < samples.len()
                ==> #[trigger] rule_in_run(v, samples, i) is Clean,
    decreases samples.len(),
{
    if samples.len() > 0 {
        let before = samples.drop_last();
        assert forall|i: int| 0 <= i < before.len() implies (#[trigger] before[i]).total()
            <= u32::MAX by {
            assert(before[i] == samples[i]);
        }
        lemma_counted_windows_were_clean(v, before);
        law_limits_hold_over_any_run(v, before);
        let w = after_windows(v, before);
        let n = samples.len() as int;
        assert(samples[n - 1].total() <= u32::MAX);
        assert(samples.take(n - 1) =~= before);
        if after_windows(v, samples).at_ceiling > 0 {
            law_waiting_at_the_ceiling_is_unbroken(w, samples.last());
        }
        assert forall|i: int|
            n - after_windows(v, samples).at_ceiling <= i < n implies #[trigger] rule_in_run(
            v,
            samples,
            i,
        ) is Clean by {
            if i < n - 1 {
                assert(before.take(i) =~= samples.take(i));
                assert(before[i] == samples[i]);
                assert(rule_in_run(v, before, i) is Clean);
            }
        }
    }
}

/// A probe past the ceiling comes only after a minute of clean windows there, or longer where
/// earlier probes failed: in a session that had not counted any yet, the windows of the whole
/// wait, the last of which probes, were all clean.
pub proof fn law_a_probe_follows_a_clean_minute(v: ControlView, samples: Seq<SampleView>)
    requires
        takes_all(v, samples),
        v.at_ceiling == 0,
        samples.len() > 0,
        ({
            let w = after_windows(v, samples.drop_last());
            let t = after_windows(v, samples);
            w.probe_down is None && t.target > w.target && t.target > w.ceiling
        }),
    ensures
        samples.len() >= after_windows(v, samples).probe_wait >= PROBE_WAIT_MIN,
        forall|i: int|
            samples.len() - after_windows(v, samples).probe_wait <= i < samples.len()
                ==> #[trigger] rule_in_run(v, samples, i) is Clean,
{
    let before = samples.drop_last();
    let n = samples.len() as int;
    assert forall|i: int| 0 <= i < before.len() implies (#[trigger] before[i]).total()
        <= u32::MAX by {
        assert(before[i] == samples[i]);
    }
    law_limits_hold_over_any_run(v, before);
    lemma_counted_windows_were_clean(v, before);
    let w = after_windows(v, before);
    assert(samples[n - 1].total() <= u32::MAX);
    law_past_the_ceiling_only_by_a_probe(w, samples.last());
    law_no_climb_while_queued(w, samples.last());
    assert(samples.take(n - 1) =~= before);
    assert forall|i: int|
        n - after_windows(v, samples).probe_wait <= i < n implies #[trigger] rule_in_run(
        v,
        samples,
        i,
    ) is Clean by {
        if i < n - 1 {
            assert(before.take(i) =~= samples.take(i));
            assert(before[i] == samples[i]);
            assert(rule_in_run(v, before, i) is Clean);
        }
    }
}

/// Window `i` of a run shows mild loss on a flat link, and nothing that another rule acts on.
pub open spec fn mild_in_run(v: ControlView, samples: Seq<SampleView>, i: int) -> bool {
    let w = after_windows(v, samples.take(i));
    &&& w.window_rule(samples[i]) is Deadband
    &&& w.measured(samples[i]).mild_on_flat_link(samples[i].total())
}

/// The windows counted toward the noise floor are the last ones of the run, all mild.
proof fn lemma_counted_windows_were_mild(v: ControlView, samples: Seq<SampleView>)
    requires
        takes_all(v, samples),
        v.deadband == 0,
    ensures
        after_windows(v, samples).deadband <= samples.len(),
        forall|i: int|
            samples.len() - after_windows(v, samples).deadband <= i < samples.len()
                ==> #[trigger] mild_in_run(v, samples, i),
    decreases samples.len(),
{
    if samples.len() > 0 {
        let before = samples.drop_last();
        assert forall|i: int| 0 <= i < before.len() implies (#[trigger] before[i]).total()
            <= u32::MAX by {
            assert(before[i] == samples[i]);
        }
        lemma_counted_windows_were_mild(v, before);
        law_limits_hold_over_any_run(v, before);
        let w = after_windows(v, before);
        let n = samples.len() as int;
        assert(samples[n - 1].total() <= u32::MAX);
        assert(samples.take(n - 1) =~= before);
        if after_windows(v, samples).deadband > 0 {
            law_mild_windows_count_in_a_row(w, samples.last());
        }
        assert forall|i: int|
            n - after_windows(v, samples).deadband <= i < n implies #[trigger] mild_in_run(
            v,
            samples,
            i,
        ) by {
            if i < n - 1 {
                assert(before.take(i) =~= samples.take(i));
                assert(before[i] == samples[i]);
                assert(mild_in_run(v, before, i));
            }
        }
    }
}

proof fn lemma_noise_is_learned(v: ControlView, s: SampleView)
    requires
        takes(v, s),
        v.probe_down is None,
        v.ticked(s).0.noise_loss > v.noise_loss,
    ensures
        v.window_rule(s) is Deadband,
        v.measured(s).mild_on_flat_link(s.total()),
        v.deadband + 1 >= DEADBAND_LEARN_WINDOWS,
{
    reveal(ControlView::applied);
    lemma_measured(v, s);
    lemma_target_is_the_rules(v, s);
}

/// Outside a judged probe-down, the noise floor rises only with the fifth window in a row that
/// shows mild loss on a flat link: in a session that had not counted any yet, the five windows
/// that end with the rise were all such.
pub proof fn law_noise_takes_five_mild_windows_in_a_row(v: ControlView, samples: Seq<SampleView>)
    requires
        takes_all(v, samples),
        v.deadband == 0,
        samples.len() > 0,
        ({
            let w = after_windows(v, samples.drop_last());
            w.probe_down is None && after_windows(v, samples).noise_loss > w.noise_loss
        }),
    ensures
        samples.len() >= DEADBAND_LEARN_WINDOWS,
        forall|i: int|
            samples.len() - DEADBAND_LEARN_WINDOWS <= i < samples.len() ==> #[trigger] mild_in_run(
                v,
                samples,
                i,
            ),
{
    let before = samples.drop_last();
    let n = samples.len() as int;
    assert forall|i: int| 0 <= i < before.len() implies (#[trigger] before[i]).total()
        <= u32::MAX by {
        assert(before[i] == samples[i]);
    }
    law_limits_hold_over_any_run(v, before);
    lemma_counted_windows_were_mild(v, before);
    assert(samples[n - 1].total() <= u32::MAX);
    lemma_noise_is_learned(after_windows(v, before), samples.last());
    assert(samples.take(n - 1) =~= before);
    assert forall|i: int| n - DEADBAND_LEARN_WINDOWS <= i < n implies #[trigger] mild_in_run(
        v,
        samples,
        i,
    ) by {
        if i < n - 1 {
            assert(before.take(i) =~= samples.take(i));
            assert(before[i] == samples[i]);
            assert(mild_in_run(v, before, i));
        }
    }
}

// ── What a session keeps ──────────────────────────────────────────────────────────────

/// The cap, the ladder, what the client can do and whether the point is pinned stay as they are
/// from window to window.
pub proof fn law_windows_keep_the_session(v: ControlView, s: SampleView)
    requires
        takes(v, s),
    ensures
        ({
            let t = v.ticked(s).0;
            &&& t.cap == v.cap
            &&& t.points == v.points
            &&& t.ir_capable == v.ir_capable
            &&& t.manual_point == v.manual_point
            &&& t.delay == v.delay
            &&& t.last_fast_cut_us == v.last_fast_cut_us
            &&& t.windows == v.windows + 1
        }),
{
    assert(v.measured(s).windows == v.windows + 1) by {
        reveal(ControlView::measured);
    }
    lemma_measured(v, s);
    let (m, out) = v.measured(s).recovering(s.total());
    lemma_rules_leave_the_rest(m, s.total(), out);
    let (w, o) = m.applied(s.total(), out);
    lemma_finish_leaves_the_rest(w, o);
}

} // verus!
