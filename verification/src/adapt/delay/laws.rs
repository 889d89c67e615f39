//! What the delay estimator promises as a whole.

pub mod frame;

use super::{DelayState, TrendView};
use crate::adapt::delay;
use vstd::prelude::*;

verus! {

// ── Readings ──────────────────────────────────────────────────────────────────────────

/// A reordered or duplicated frame, or a clock jump, does not poison the estimate: only the
/// reference for the next delta moves.
pub proof fn law_unusable_frames_leave_the_estimate(v: TrendView, send_ts: u32, arrival_us: u64)
    requires
        v.prev_send_ts is Some,
        !v.usable(send_ts, arrival_us),
    ensures
        v.after_frame(send_ts, arrival_us) == (TrendView {
            prev_send_ts: Some(send_ts),
            prev_arrival_us: arrival_us,
            ..v
        }),
        v.after_frame(send_ts, arrival_us).modified_trend() == v.modified_trend(),
        forall|now_us: u64| #[trigger]
            v.after_frame(send_ts, arrival_us).overuse_us(now_us) == v.overuse_us(now_us),
{
}

/// The estimator on a host clock that runs `shift` ticks ahead.
pub open spec fn on_shifted_clock(v: TrendView, shift: u32) -> TrendView {
    TrendView {
        prev_send_ts: match v.prev_send_ts {
            Some(ts) => Some(ts.wrapping_add(shift)),
            None => None,
        },
        ..v
    }
}

/// Only differences of the host's timestamps count, so the 32-bit wrap-around of its clock
/// goes unnoticed.
pub proof fn law_wraparound_goes_unnoticed(
    v: TrendView,
    shift: u32,
    send_ts: u32,
    arrival_us: u64,
)
    ensures
        on_shifted_clock(v, shift).after_frame(send_ts.wrapping_add(shift), arrival_us)
            == on_shifted_clock(v.after_frame(send_ts, arrival_us), shift),
{
    if let Some(prev) = v.prev_send_ts {
        assert(send_ts.wrapping_add(shift).wrapping_sub(prev.wrapping_add(shift))
            == send_ts.wrapping_sub(prev));
    }
    assert(on_shifted_clock(v, shift).after_frame(send_ts.wrapping_add(shift), arrival_us)
        =~= on_shifted_clock(v.after_frame(send_ts, arrival_us), shift));
}

/// A local clock reading moved by `by`.
pub open spec fn moved(reading_us: u64, by: int) -> u64 {
    (reading_us + by) as u64
}

pub open spec fn can_move(reading_us: u64, by: int) -> bool {
    0 <= reading_us + by <= u64::MAX
}

/// The estimator on a local clock whose readings are all moved by `by`.
pub open spec fn on_moved_clock(v: TrendView, by: int) -> TrendView {
    TrendView {
        prev_arrival_us: if v.prev_send_ts is Some {
            moved(v.prev_arrival_us, by)
        } else {
            v.prev_arrival_us
        },
        samples: Seq::new(v.samples.len(), |i: int| (moved(v.samples[i].0, by), v.samples[i].1)),
        last_threshold_update_us: match v.last_threshold_update_us {
            Some(t) => Some(moved(t, by)),
            None => None,
        },
        overuse_since_us: match v.overuse_since_us {
            Some(t) => Some(moved(t, by)),
            None => None,
        },
        ..v
    }
}

/// Every reading that the estimator holds can be moved by `by`.
pub open spec fn readings_can_move(v: TrendView, by: int) -> bool {
    &&& v.prev_send_ts is Some ==> can_move(v.prev_arrival_us, by)
    &&& forall|i: int| 0 <= i < v.samples.len() ==> can_move((#[trigger] v.samples[i]).0, by)
    &&& v.last_threshold_update_us matches Some(t) ==> can_move(t, by)
    &&& v.overuse_since_us matches Some(t) ==> can_move(t, by)
}

/// Any monotonic clock will do: only differences of its readings count, so a clock that counts
/// from elsewhere gives the same estimate.
pub proof fn law_only_differences_of_readings_count(
    v: TrendView,
    by: int,
    send_ts: u32,
    arrival_us: u64,
    now_us: u64,
)
    requires
        readings_can_move(v, by),
        can_move(arrival_us, by),
        can_move(now_us, by),
    ensures
        on_moved_clock(v, by).after_frame(send_ts, moved(arrival_us, by)) == on_moved_clock(
            v.after_frame(send_ts, arrival_us),
            by,
        ),
        on_moved_clock(v, by).overuse_us(moved(now_us, by)) == v.overuse_us(now_us),
{
    let w = on_moved_clock(v, by);
    if v.usable(send_ts, arrival_us) {
        let mid = v.filtered(send_ts, arrival_us);
        let mid_moved = w.filtered(send_ts, moved(arrival_us, by));
        assert(mid_moved.samples =~= on_moved_clock(mid, by).samples);
        assert forall|i: int| 0 <= i < mid.samples.len() implies can_move(
            (#[trigger] mid.samples[i]).0,
            by,
        ) by {
            let all = v.samples.push((arrival_us, mid.smoothed as i128));
            assert forall|k: int| 0 <= k < all.len() implies can_move((#[trigger] all[k]).0, by) by {
                if k < v.samples.len() {
                    assert(all[k] == v.samples[k]);
                }
            }
            if all.len() > delay::WINDOW {
                assert(mid.samples[i] == all[i + 1]);
            }
        }
        assert(delay::spread(mid_moved.samples) =~= delay::spread(mid.samples)) by {
            if mid.samples.len() > 0 {
                assert(can_move(mid.samples[0].0, by));
            }
        }
        assert(mid_moved =~= on_moved_clock(mid, by));
    }
    assert(w.after_frame(send_ts, moved(arrival_us, by)) =~= on_moved_clock(
        v.after_frame(send_ts, arrival_us),
        by,
    ));
}

// ── Limits ────────────────────────────────────────────────────────────────────────────

/// The threshold adapts within its bounds (6 to 600), and a trend further than 15 above it — a
/// spike — does not drag it up.
pub proof fn law_threshold_adapts_within_bounds(v: TrendView, send_ts: u32, arrival_us: u64)
    requires
        v.wf(),
    ensures
        ({
            let after = v.after_frame(send_ts, arrival_us);
            let mid = v.filtered(send_ts, arrival_us);
            &&& delay::MIN_THRESHOLD <= after.threshold <= delay::MAX_THRESHOLD
            &&& v.usable(send_ts, arrival_us) && delay::magnitude(mid.modified_trend())
                > v.threshold + delay::MAX_ADAPT_OFFSET ==> after.threshold == v.threshold
        }),
{
}

/// Whatever frames come, the estimator stays within its limits.
pub proof fn law_frames_keep_the_limits(v: TrendView, send_ts: u32, arrival_us: u64)
    requires
        v.wf(),
    ensures
        v.after_frame(send_ts, arrival_us).wf(),
{
    delay::lemma_filtered_wf(v, send_ts, arrival_us);
    law_threshold_adapts_within_bounds(v, send_ts, arrival_us);
}

// ── An ideal path ─────────────────────────────────────────────────────────────────────

/// No delay variation seen so far, and none suspected.
pub open spec fn calm(v: TrendView) -> bool {
    &&& v.accumulated == 0
    &&& v.smoothed == 0
    &&& v.trend == 0
    &&& v.state == DelayState::Normal
    &&& forall|i: int| 0 <= i < v.samples.len() ==> (#[trigger] v.samples[i]).1 == 0
}

proof fn lemma_flat_window(s: Seq<(i64, i64)>, n: int, sx: int)
    requires
        forall|i: int| 0 <= i < s.len() ==> (#[trigger] s[i]).1 == 0,
    ensures
        delay::sum_y(s) == 0,
        delay::scaled_covariance(s, n, sx, 0) == 0,
    decreases s.len(),
{
    if s.len() > 0 {
        let init = s.drop_last();
        assert forall|i: int| 0 <= i < init.len() implies (#[trigger] init[i]).1 == 0 by {
            assert(init[i] == s[i]);
        }
        lemma_flat_window(init, n, sx);
        let cx = n * s.last().0 - sx;
        assert(cx * (n * 0 - 0) == 0) by (nonlinear_arith);
    }
}

/// A path whose frames arrive exactly as far apart as they were sent stays Normal.
pub proof fn law_ideal_path_stays_normal(v: TrendView, send_ts: u32, arrival_us: u64)
    requires
        v.wf(),
        calm(v),
        v.usable(send_ts, arrival_us) ==> v.delay_delta(send_ts, arrival_us) == 0,
    ensures
        calm(v.after_frame(send_ts, arrival_us)),
{
    if v.usable(send_ts, arrival_us) {
        let mid = v.filtered(send_ts, arrival_us);
        assert forall|i: int| 0 <= i < mid.samples.len() implies (#[trigger] mid.samples[i]).1
            == 0 by {
            let all = v.samples.push((arrival_us, 0i128));
            assert forall|k: int| 0 <= k < all.len() implies (#[trigger] all[k]).1 == 0 by {
                if k < v.samples.len() {
                    assert(all[k] == v.samples[k]);
                }
            }
            if all.len() > delay::WINDOW {
                assert(mid.samples[i] == all[i + 1]);
            } else {
                assert(mid.samples[i] == all[i]);
            }
        }
        let window = delay::spread(mid.samples);
        assert forall|i: int| 0 <= i < window.len() implies (#[trigger] window[i]).1 == 0 by {
            assert(mid.samples[i].1 == 0 && mid.samples[0].1 == 0);
        }
        let n = window.len() as int;
        lemma_flat_window(window, n, delay::sum_x(window));
        let var = delay::scaled_variance(window, n, delay::sum_x(window));
        if var > 0 {
            assert(0int / (9 * var) == 0) by (nonlinear_arith)
                requires
                    var > 0,
            ;
        }
        assert(mid.trend == 0);
        let deltas = if mid.num_deltas < delay::DELTAS_CAP {
            mid.num_deltas as int
        } else {
            delay::DELTAS_CAP as int
        };
        assert(0 * deltas == 0) by (nonlinear_arith);
        assert(mid.modified_trend() == 0);
    }
}

/// The estimator after a run of frames (timestamp, arrival).
pub open spec fn after_frames(v: TrendView, frames: Seq<(u32, u64)>) -> TrendView
    decreases frames.len(),
{
    if frames.len() == 0 {
        v
    } else {
        after_frames(v, frames.drop_last()).after_frame(frames.last().0, frames.last().1)
    }
}

/// Frames that all arrive as far apart as they were sent (as far as they give a delta).
pub open spec fn evenly_spaced(v: TrendView, frames: Seq<(u32, u64)>) -> bool {
    forall|i: int|
        0 <= i < frames.len() ==> {
            let before = #[trigger] after_frames(v, frames.take(i));
            before.usable(frames[i].0, frames[i].1) ==> before.delay_delta(
                frames[i].0,
                frames[i].1,
            ) == 0
        }
}

/// A path that adds no delay variation never looks overused, however long it is watched.
pub proof fn law_ideal_run_stays_normal(frames: Seq<(u32, u64)>)
    requires
        evenly_spaced(TrendView::fresh(), frames),
    ensures
        after_frames(TrendView::fresh(), frames).state == DelayState::Normal,
        after_frames(TrendView::fresh(), frames).trend == 0,
{
    lemma_ideal_run(frames);
}

proof fn lemma_ideal_run(frames: Seq<(u32, u64)>)
    requires
        evenly_spaced(TrendView::fresh(), frames),
    ensures
        after_frames(TrendView::fresh(), frames).wf(),
        calm(after_frames(TrendView::fresh(), frames)),
    decreases frames.len(),
{
    let v = TrendView::fresh();
    if frames.len() > 0 {
        let before = frames.drop_last();
        assert forall|i: int| 0 <= i < before.len() implies {
            let at = #[trigger] after_frames(v, before.take(i));
            at.usable(before[i].0, before[i].1) ==> at.delay_delta(before[i].0, before[i].1) == 0
        } by {
            assert(before.take(i) =~= frames.take(i));
            assert(before[i] == frames[i]);
            assert(after_frames(v, frames.take(i)) == after_frames(v, before.take(i)));
        }
        lemma_ideal_run(before);
        let n = frames.len() - 1;
        assert(frames.take(n) =~= before);
        assert(after_frames(v, frames.take(n)) == after_frames(v, before));
        let (ts, arrival) = frames.last();
        law_frames_keep_the_limits(after_frames(v, before), ts, arrival);
        law_ideal_path_stays_normal(after_frames(v, before), ts, arrival);
    }
}

// ── The detector ──────────────────────────────────────────────────────────────────────

/// The hypothesis follows the gain-scaled slope: as far below zero as the threshold is above,
/// the queue is draining; within the threshold, the path is as it should be; over it, the
/// hypothesis stays or becomes Overuse. The time of overuse counts from the frame that declared
/// it, and is 0 in any other state.
pub proof fn law_the_state_follows_the_slope(
    v: TrendView,
    send_ts: u32,
    arrival_us: u64,
    now_us: u64,
)
    requires
        v.wf(),
        v.usable(send_ts, arrival_us),
        v.num_deltas >= 1,
    ensures
        ({
            let slope = v.filtered(send_ts, arrival_us).modified_trend();
            let after = v.after_frame(send_ts, arrival_us);
            &&& after.modified_trend() == slope
            &&& slope < -v.threshold ==> after.state == DelayState::Underuse
            &&& -v.threshold <= slope <= v.threshold ==> after.state == DelayState::Normal
            &&& slope > v.threshold ==> after.state == v.state || after.state
                == DelayState::Overuse
            &&& after.state != DelayState::Overuse ==> after.overuse_us(now_us) == 0
            &&& after.state == DelayState::Overuse && v.state != DelayState::Overuse
                ==> after.overuse_us(now_us) == now_us.saturating_sub(arrival_us)
            &&& after.state == DelayState::Overuse && v.state == DelayState::Overuse
                ==> after.overuse_us(now_us) == v.overuse_us(now_us)
        }),
{
}

/// Overuse is only ever declared with the gain-scaled slope over the threshold, for more than
/// 10 ms of sending, on at least the second such frame, and not on a falling slope.
pub proof fn law_overuse_needs_a_sustained_rise(v: TrendView, send_ts: u32, arrival_us: u64)
    requires
        v.wf(),
        v.state != DelayState::Overuse,
        v.after_frame(send_ts, arrival_us).state == DelayState::Overuse,
    ensures
        ({
            let mid = v.filtered(send_ts, arrival_us);
            let ticks = send_ts.wrapping_sub(v.prev_send_ts->0);
            &&& v.usable(send_ts, arrival_us)
            &&& mid.modified_trend() > mid.threshold
            &&& mid.over_for(ticks) > delay::OVERUSE_HALF_TICKS
            &&& v.overuse_counter >= 1
            &&& mid.trend >= mid.prev_trend
        }),
        v.after_frame(send_ts, arrival_us).overuse_since_us == Some(arrival_us),
{
}

/// Overuse is declared only when the slope was over the threshold in the usable frame before
/// too (unusable ones in between change nothing).
pub proof fn law_overuse_takes_two_frames_over_the_threshold(
    v: TrendView,
    first: (u32, u64),
    second: (u32, u64),
)
    requires
        v.wf(),
        v.num_deltas >= 1,
        v.usable(first.0, first.1),
        ({
            let w = v.after_frame(first.0, first.1);
            &&& w.usable(second.0, second.1)
            &&& w.state != DelayState::Overuse
            &&& w.after_frame(second.0, second.1).state == DelayState::Overuse
        }),
    ensures
        v.filtered(first.0, first.1).modified_trend() > v.threshold,
        ({
            let w = v.after_frame(first.0, first.1);
            w.filtered(second.0, second.1).modified_trend() > w.threshold
        }),
{
    law_frames_keep_the_limits(v, first.0, first.1);
    law_overuse_needs_a_sustained_rise(v.after_frame(first.0, first.1), second.0, second.1);
}

} // verus!
