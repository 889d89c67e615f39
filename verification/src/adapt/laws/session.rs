//! How a session starts, and what happens to it between windows, with every number written out.

use crate::adapt::delay::DelayState;
use crate::adapt::fec_policy::FecLoad;
use crate::adapt::ladder;
use crate::adapt::ladder::Point;
use crate::adapt::laws;
use crate::adapt::laws::decision;
use crate::adapt::laws::point;
use crate::adapt::laws::ControlEvent;
use crate::adapt::rules::{ControlView, Outcome, Reason};
use crate::adapt::{Config, Decision};
use crate::service::LossRecovery;
use vstd::prelude::*;

verus! {

// ── The start ─────────────────────────────────────────────────────────────────────────

/// `kbps` within 300 and `cap`.
pub open spec fn within(kbps: u32, cap: u32) -> u32 {
    if kbps < 300 {
        300
    } else if kbps > cap {
        cap
    } else {
        kbps
    }
}

/// A session starts at the rate asked for (at the cap where none is asked for), between 300 kbit/s
/// and the cap, which is the ceiling too; on the best point that 85 % of the rate buys, or pinned
/// to the native one where the ladder is off; with nothing measured, learned or counted.
pub proof fn law_how_a_session_starts(cfg: Config)
    ensures
        ({
            let v = cfg.fresh();
            let cap = if cfg.cap_kbps < 300 {
                300
            } else {
                cfg.cap_kbps
            };
            &&& v.wf()
            &&& v.cap == cap && v.ceiling == cap
            &&& v.target == (if cfg.start_kbps == 0 {
                cap
            } else {
                within(cfg.start_kbps, cap)
            })
            &&& v.encoder_kbps == v.target
            &&& v.fec == FecLoad::Off
            &&& v.manual_point == !cfg.ladder
            &&& !cfg.ladder ==> v.point_idx == 0
            &&& cfg.ladder ==> is_best_buy(v)
            &&& v.ir_capable == cfg.ir_capable
            &&& v.recovery == LossRecovery::Normal
            &&& v.startup_left == cfg.startup_windows
            &&& v.probe_wait == 30
            &&& v.probe_age is None && v.probe_down is None
            &&& v.since_step == 3
            &&& v.point_age == 2
            &&& v.clean == 0 && v.at_ceiling == 0 && v.over == 0 && v.lossy == 0 && v.deadband == 0
            &&& v.clean_at_point == 0 && v.clean_at_target == 0
            &&& v.noise_loss == 0 && v.last_good == 0 && v.windows == 0
            &&& v.rtt_base == 0 && v.rtt_ema == 0 && v.rtt_last == 0
            &&& v.last_fast_cut_us is None
            &&& v.last.loss == 0 && v.last.eff_loss == 0 && v.last.rtt_us == 0 && v.last.excess_us
                == 0 && v.last.jitter_us == 0 && v.last.delay == DelayState::Normal
            &&& v.delay.prev_send_ts is None && v.delay.state == DelayState::Normal
        }),
{
    let v = cfg.fresh();
    let (w, h, f) = (
        ladder::or_default(cfg.native.0, 1920),
        ladder::or_default(cfg.native.1, 1080),
        ladder::or_default(cfg.native.2, 60),
    );
    ladder::laws::law_the_rest_is_ranked(cfg.codec, w, h, f);
    ladder::laws::lemma_ladder_is_ranked(cfg.codec, w, h, f);
    if cfg.ladder {
        lemma_best_buy(v);
    }
}

/// The point is the best that 85 % of the target buys: nothing above it fits, and it fits, or
/// nothing does and it is the lowest.
pub open spec fn is_best_buy(v: ControlView) -> bool {
    &&& 0 <= v.point_idx < v.points.len()
    &&& forall|k: int| 0 <= k < v.point_idx ==> !point::affords(v.target, #[trigger] v.points[k])
    &&& v.point_idx < v.points.len() - 1 ==> point::affords(v.target, v.points[v.point_idx])
}

proof fn lemma_best_buy(v: ControlView)
    requires
        v.points.len() > 0,
        ladder::is_ranked(v.points.skip(1)),
        v.point_idx == v.affordable(),
    ensures
        is_best_buy(v),
{
    ladder::laws::law_pick_is_the_best_that_fits(v.points, v.target, 85, 100);
    let i = v.point_idx;
    assert forall|k: int| 0 <= k < i implies !point::affords(v.target, #[trigger] v.points[k]) by {
        assert(!ladder::fits(v.points[k], v.target, 85, 100));
    }
    if i < v.points.len() - 1 && !point::affords(v.target, v.points[i]) {
        assert forall|k: int| 0 <= k < v.points.len() implies !ladder::fits(
            #[trigger] v.points[k],
            v.target,
            85,
            100,
        ) by {
            if ladder::fits(v.points[k], v.target, 85, 100) {
                assert(ladder::fits(v.points[i], v.target, 85, 100));
            }
        }
    }
}

// ── Decisions ─────────────────────────────────────────────────────────────────────────

/// A decision carries what the outcome says, and its reason in words.
pub proof fn law_a_decision_tells_the_outcome(d: Decision, out: Outcome)
    requires
        d.tells(out),
    ensures
        d.bitrate == out.bitrate,
        d.point == out.point,
        d.recovery == out.recovery,
        d.reason@ == out.reason.words(),
{
}

// ── The fast reflex ───────────────────────────────────────────────────────────────────

/// Overuse has held for half a second, no fast cut is less than a second and a half back, and the
/// rate is above the floor.
pub open spec fn must_react(v: ControlView, now_us: u64) -> bool {
    &&& v.delay.state == DelayState::Overuse
    &&& v.delay.overuse_since_us matches Some(since) && since + 500_000 <= now_us
    &&& v.last_fast_cut_us matches Some(last) ==> last + 1_500_000 <= now_us
    &&& v.target > 300
}

/// A poll reacts when it must, whether or not the point is pinned: the rate is cut ×0.85 and
/// punished as in a window, and the encoder is told.
pub proof fn law_a_poll_reacts_to_sustained_overuse(v: ControlView, now_us: u64)
    requires
        v.wf(),
        must_react(v, now_us),
    ensures
        v.reflex_due(now_us),
        ({
            let t = laws::after_event(v, ControlEvent::Poll(now_us));
            let out = v.reflexed(now_us).1;
            &&& t == v.reflexed(now_us).0
            &&& t.target == decision::floored(v.target * 85 / 100)
            &&& t.ceiling == decision::floored(v.target * 85 / 100)
            &&& t.probe_wait == (match v.probe_age {
                Some(age) if age <= 10 => if v.probe_wait <= 240 {
                    2 * v.probe_wait
                } else {
                    480
                },
                _ => v.probe_wait as int,
            })
            &&& t.encoder_kbps == point::net_of(v.fec, t.target)
            &&& t.encoder_kbps != v.encoder_kbps ==> out.bitrate == Some(t.encoder_kbps)
            &&& t.encoder_kbps == v.encoder_kbps ==> out.bitrate is None
            &&& out.reason == Reason::DelayOveruseFast
            &&& out.recovery is None
            &&& t == ControlView {
                target: t.target,
                ceiling: t.ceiling,
                since_step: 0,
                clean: 0,
                at_ceiling: 0,
                over: 0,
                deadband: 0,
                clean_at_point: 0,
                clean_at_target: 0,
                startup_left: 0,
                probe_age: None,
                probe_wait: t.probe_wait,
                last_fast_cut_us: Some(now_us),
                encoder_kbps: t.encoder_kbps,
                point_idx: t.point_idx,
                point_age: t.point_age,
                ..v
            }
        }),
{
    point::lemma_net_of(v.fec, v.reflexed(now_us).0.target);
}

/// Any other poll does nothing.
pub proof fn law_any_other_poll_does_nothing(v: ControlView, now_us: u64)
    requires
        !must_react(v, now_us),
    ensures
        !v.reflex_due(now_us),
        laws::after_event(v, ControlEvent::Poll(now_us)) == v,
{
}

/// A poll that reacts leaves a point that the cut starves, under the same debounce as a window;
/// it never goes up, and never moves a pinned point.
pub proof fn law_a_poll_may_step_down(v: ControlView, now_us: u64)
    requires
        v.wf(),
        must_react(v, now_us),
    ensures
        ({
            let t = v.reflexed(now_us).0;
            let out = v.reflexed(now_us).1;
            let need = v.points[v.point_idx].min_kbps;
            let leaves = !v.manual_point && t.target < need && v.point_idx + 1 < v.points.len() && (
            v.point_age >= 2 || t.target * 10 < need * 7);
            &&& t.points == v.points
            &&& leaves ==> {
                &&& v.point_idx < t.point_idx < v.points.len()
                &&& t.point_idx > v.point_idx + 1 ==> forall|k: int|
                    0 <= k < t.point_idx ==> !point::affords(t.target, #[trigger] v.points[k])
                &&& t.point_idx < v.points.len() - 1 ==> exists|k: int|
                    0 <= k <= t.point_idx && point::affords(t.target, #[trigger] v.points[k])
                &&& out.point == Some(v.points[t.point_idx])
                &&& t.point_age == 0
            }
            &&& !leaves ==> t.point_idx == v.point_idx && out.point is None && t.point_age
                == v.point_age
        }),
{
    let t = v.reflexed(now_us).0;
    ladder::laws::law_pick_is_the_best_that_fits(v.points, t.target, 85, 100);
    let a = ladder::first_fit(v.points, t.target, 85, 100, 0);
    assert forall|k: int| 0 <= k < a implies !point::affords(t.target, #[trigger] v.points[k]) by {
        assert(!ladder::fits(v.points[k], t.target, 85, 100));
    }
    if a < v.points.len() - 1 {
        if !point::affords(t.target, v.points[a]) {
            assert forall|k: int| 0 <= k < v.points.len() implies !ladder::fits(
                #[trigger] v.points[k],
                t.target,
                85,
                100,
            ) by {
                if ladder::fits(v.points[k], t.target, 85, 100) {
                    assert(ladder::fits(v.points[a], t.target, 85, 100));
                }
            }
        }
        assert(point::affords(t.target, v.points[a]));
    }
}

// ── The user's choices ────────────────────────────────────────────────────────────────

/// A rate set by the user is the target, between 300 kbit/s and the cap, and the encoder follows.
/// Nothing is punished or forgotten but the clean windows at another rate, and the point stays.
pub proof fn law_a_set_rate_is_the_target(v: ControlView, kbps: u32)
    requires
        v.wf(),
    ensures
        ({
            let t = laws::after_event(v, ControlEvent::Target(kbps));
            &&& t.target == within(kbps, v.cap)
            &&& t.encoder_kbps == point::net_of(v.fec, t.target)
            &&& t == ControlView {
                target: t.target,
                encoder_kbps: t.encoder_kbps,
                since_step: 0,
                clean_at_target: if t.target == v.target {
                    v.clean_at_target
                } else {
                    0
                },
                ..v
            }
        }),
{
    point::lemma_net_of(v.fec, v.retargeted(kbps).target);
    assert(laws::after_event(v, ControlEvent::Target(kbps)) =~= v.retargeted(kbps));
}

/// Pinning keeps the point and everything else; going back to automatic takes the best point that
/// 85 % of the target buys, with a new clean stretch.
pub proof fn law_pinning_and_unpinning(v: ControlView)
    requires
        v.wf(),
    ensures
        laws::after_event(v, ControlEvent::ManualPoint(true)) == (ControlView {
            manual_point: true,
            ..v
        }),
        ({
            let t = laws::after_event(v, ControlEvent::ManualPoint(false));
            &&& !t.manual_point
            &&& is_best_buy(t)
            &&& t == ControlView {
                manual_point: false,
                point_idx: t.point_idx,
                point_age: 0,
                clean_at_point: 0,
                ..v
            }
        }),
{
    lemma_best_buy(laws::after_event(v, ControlEvent::ManualPoint(false)));
}

/// The point that the decision on an event carries.
pub open spec fn told_point(v: ControlView, e: ControlEvent) -> Option<Point> {
    match e {
        ControlEvent::Window(s) => v.ticked(s).1.point,
        ControlEvent::Poll(now_us) => if v.reflex_due(now_us) {
            v.reflexed(now_us).1.point
        } else {
            None
        },
        _ => None,
    }
}

/// No event of a run goes back to automatic.
pub open spec fn stays_pinned(events: Seq<ControlEvent>) -> bool {
    forall|i: int| 0 <= i < events.len() ==> #[trigger] events[i] != ControlEvent::ManualPoint(
        false,
    )
}

/// From pinning to the next return to automatic, whatever windows, polls and other events come,
/// the operating point is the one at the time of pinning, and no decision carries a point.
pub proof fn law_a_pinned_point_stays(v: ControlView, events: Seq<ControlEvent>, e: ControlEvent)
    requires
        laws::takes_events(v, events.push(e)),
        stays_pinned(events.push(e)),
    ensures
        ({
            let w = laws::after_events(
                laws::after_event(v, ControlEvent::ManualPoint(true)),
                events,
            );
            &&& w.manual_point
            &&& w.point_idx == v.point_idx
            &&& w.points == v.points
            &&& told_point(w, e) is None
        }),
    decreases events.len(),
{
    let p = laws::after_event(v, ControlEvent::ManualPoint(true));
    let all = events.push(e);
    assert(all.drop_last() =~= events);
    assert(laws::takes_events(p, all)) by {
        assert(p.wf() && p.windows == v.windows);
    }
    laws::lemma_takes_the_earlier_events(p, all);
    laws::lemma_takes_the_earlier_events(v, all);
    laws::law_limits_hold_over_any_events(p, events);
    let w = laws::after_events(p, events);
    if events.len() > 0 {
        let before = events.drop_last();
        assert(before.push(events.last()) =~= events);
        assert(stays_pinned(events)) by {
            assert forall|i: int| 0 <= i < events.len() implies #[trigger] events[i]
                != ControlEvent::ManualPoint(false) by {
                assert(all[i] == events[i]);
            }
        }
        law_a_pinned_point_stays(v, before, events.last());
        let u = laws::after_events(p, before);
        assert(events[events.len() - 1] != ControlEvent::ManualPoint(false));
        match events.last() {
            ControlEvent::Window(s) => {
                laws::lemma_takes_the_earlier_events(p, events);
                laws::law_limits_hold_over_any_events(p, before);
                laws::law_manual_point_pins_the_ladder(u, s);
                laws::law_windows_keep_the_session(u, s);
            },
            _ => {},
        }
    }
    match e {
        ControlEvent::Window(s) => laws::law_manual_point_pins_the_ladder(w, s),
        _ => {},
    }
}

} // verus!
