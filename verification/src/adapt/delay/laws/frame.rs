//! What one frame does to the estimate, told by its timestamp and its arrival, with every number
//! written out.

use crate::adapt::delay;
use crate::adapt::delay::laws;
use crate::adapt::delay::{DelayState, TrendView};
use vstd::prelude::*;

verus! {

// ── Deltas ────────────────────────────────────────────────────────────────────────────

/// A frame sent `gap` ticks after the last one (the 32-bit clock wraps), by at most five seconds,
/// and not arrived before it.
pub open spec fn in_time(v: TrendView, send_ts: u32, arrival_us: u64, gap: int) -> bool {
    &&& v.prev_send_ts matches Some(prev) && send_ts == (prev + gap) % 0x1_0000_0000
    &&& 1 <= gap <= 450_000
    &&& arrival_us >= v.prev_arrival_us
}

proof fn lemma_in_time(v: TrendView, send_ts: u32, arrival_us: u64, gap: int)
    requires
        in_time(v, send_ts, arrival_us, gap),
    ensures
        v.usable(send_ts, arrival_us),
        send_ts.wrapping_sub(v.prev_send_ts->0) == gap,
{
}

/// A frame in time counts: it is one delta more, and what it arrived later than it was sent after
/// the last one (a 90 kHz tick is 100 ninths of a microsecond) is added to the accumulated delay,
/// a tenth of which enters the smoothed one. That is sampled; the last twenty samples are kept.
pub proof fn law_a_frame_in_time_counts(v: TrendView, send_ts: u32, arrival_us: u64, gap: int)
    requires
        v.wf(),
        in_time(v, send_ts, arrival_us, gap),
    ensures
        ({
            let t = v.after_frame(send_ts, arrival_us);
            let sum = v.accumulated + (arrival_us - v.prev_arrival_us) * 9 - gap * 100;
            let n = v.samples.len() as int;
            &&& v.num_deltas < u32::MAX ==> t.num_deltas == v.num_deltas + 1
            &&& -delay::ACCUMULATED_LIMIT <= sum <= delay::ACCUMULATED_LIMIT ==> t.accumulated
                == sum
            &&& 10 * t.smoothed <= 9 * v.smoothed + t.accumulated < 10 * t.smoothed + 10
            &&& t.samples.len() == (if n < 20 {
                n + 1
            } else {
                20
            })
            &&& t.samples.last() == (arrival_us, t.smoothed as i128)
            &&& forall|i: int|
                0 <= i < t.samples.len() - 1 ==> #[trigger] t.samples[i] == v.samples[i + (n + 1
                    - t.samples.len())]
            &&& t.prev_send_ts == Some(send_ts)
            &&& t.prev_arrival_us == arrival_us
        }),
{
    lemma_in_time(v, send_ts, arrival_us, gap);
}

/// The accumulated delay of a run of frames in time is how much longer the arrivals took than the
/// sending.
pub proof fn law_the_delay_adds_up(v: TrendView, frames: Seq<(u32, u64)>, gaps: Seq<int>)
    requires
        v.wf(),
        frames.len() == gaps.len(),
        v.prev_send_ts is Some,
        forall|i: int|
            0 <= i < frames.len() ==> in_time(
                laws::after_frames(v, frames.take(i)),
                (#[trigger] frames[i]).0,
                frames[i].1,
                gaps[i],
            ),
        -1_000_000_000_000_000_000_000 <= v.accumulated <= 1_000_000_000_000_000_000_000,
        frames.len() <= 0x1_0000_0000,
    ensures
        ({
            let t = laws::after_frames(v, frames);
            &&& t.wf()
            &&& t.accumulated == v.accumulated + (t.prev_arrival_us - v.prev_arrival_us) * 9 - total(
                gaps,
            ) * 100
            &&& t.prev_send_ts is Some
            &&& t.prev_arrival_us >= v.prev_arrival_us
            &&& 0 <= total(gaps) <= 450_000 * gaps.len()
        }),
    decreases frames.len(),
{
    if frames.len() > 0 {
        let before = frames.drop_last();
        let earlier = gaps.drop_last();
        let n = frames.len() - 1;
        assert forall|i: int| 0 <= i < before.len() implies in_time(
            laws::after_frames(v, before.take(i)),
            (#[trigger] before[i]).0,
            before[i].1,
            earlier[i],
        ) by {
            assert(before.take(i) =~= frames.take(i));
            assert(before[i] == frames[i] && earlier[i] == gaps[i]);
            assert(in_time(laws::after_frames(v, frames.take(i)), frames[i].0, frames[i].1, gaps[i]));
        }
        law_the_delay_adds_up(v, before, earlier);
        assert(frames.take(n) =~= before);
        let w = laws::after_frames(v, before);
        assert(in_time(laws::after_frames(v, frames.take(n)), frames[n].0, frames[n].1, gaps[n]));
        law_a_frame_in_time_counts(w, frames[n].0, frames[n].1, gaps[n]);
        laws::law_frames_keep_the_limits(w, frames[n].0, frames[n].1);
    }
}

/// The sum of the gaps.
pub open spec fn total(gaps: Seq<int>) -> int
    decreases gaps.len(),
{
    if gaps.len() == 0 {
        0
    } else {
        total(gaps.drop_last()) + gaps.last()
    }
}

/// Any other frame — the first, a duplicate, a reordered one, one after a jump of the clock of more
/// than five seconds, one that arrived before the last — is only what the next delta is taken from.
pub proof fn law_any_other_frame_is_only_a_reference(v: TrendView, send_ts: u32, arrival_us: u64)
    requires
        v.prev_send_ts matches Some(prev) ==> {
            let gap = (send_ts - prev) % 0x1_0000_0000;
            gap == 0 || gap > 450_000 || arrival_us < v.prev_arrival_us
        },
    ensures
        v.after_frame(send_ts, arrival_us) == (TrendView {
            prev_send_ts: Some(send_ts),
            prev_arrival_us: arrival_us,
            ..v
        }),
{
}

/// An estimator that has seen nothing: no delay, no suspicion, a threshold of 12.5.
pub proof fn law_how_an_estimate_starts()
    ensures
        ({
            let v = TrendView::fresh();
            &&& v.wf()
            &&& v.prev_send_ts is None
            &&& v.num_deltas == 0
            &&& v.accumulated == 0 && v.smoothed == 0 && v.trend == 0 && v.prev_trend == 0
            &&& v.samples.len() == 0
            &&& v.threshold == 12_500_000
            &&& v.last_threshold_update_us is None
            &&& v.time_over_using is None && v.overuse_counter == 0
            &&& v.state == DelayState::Normal && v.overuse_since_us is None
        }),
{
}

// ── The slope ─────────────────────────────────────────────────────────────────────────

/// Sample `i` as the distance from the oldest one.
pub open spec fn dx(s: Seq<(u64, i128)>, i: int) -> int {
    s[i].0 - s[0].0
}

pub open spec fn dy(s: Seq<(u64, i128)>, i: int) -> int {
    s[i].1 - s[0].1
}

/// `Σ x`, `Σ y`, `Σ x²` and `Σ x·y` over the first `k` samples.
pub open spec fn sx(s: Seq<(u64, i128)>, k: nat) -> int
    decreases k,
{
    if k == 0 {
        0
    } else {
        sx(s, (k - 1) as nat) + dx(s, k - 1)
    }
}

pub open spec fn sy(s: Seq<(u64, i128)>, k: nat) -> int
    decreases k,
{
    if k == 0 {
        0
    } else {
        sy(s, (k - 1) as nat) + dy(s, k - 1)
    }
}

pub open spec fn sxx(s: Seq<(u64, i128)>, k: nat) -> int
    decreases k,
{
    if k == 0 {
        0
    } else {
        sxx(s, (k - 1) as nat) + dx(s, k - 1) * dx(s, k - 1)
    }
}

pub open spec fn sxy(s: Seq<(u64, i128)>, k: nat) -> int
    decreases k,
{
    if k == 0 {
        0
    } else {
        sxy(s, (k - 1) as nat) + dx(s, k - 1) * dy(s, k - 1)
    }
}

/// All samples are within a year and three months of delay of the oldest one.
pub open spec fn near(s: Seq<(u64, i128)>) -> bool {
    forall|i: int|
        0 <= i < s.len() ==> {
            &&& -35_184_372_088_832 <= dx(s, i) <= 35_184_372_088_832
            &&& -70_368_744_177_664 <= #[trigger] dy(s, i) <= 70_368_744_177_664
        }
}

proof fn lemma_sums(s: Seq<(u64, i128)>, k: nat, a: int, b: int)
    requires
        k <= s.len(),
        near(s),
    ensures
        ({
            let w = delay::spread(s).take(k as int);
            &&& delay::sum_x(w) == sx(s, k)
            &&& delay::sum_y(w) == sy(s, k)
            &&& delay::scaled_covariance(w, 20, a, b) == 400 * sxy(s, k) - 20 * (b * sx(s, k)) - 20
                * (a * sy(s, k)) + k * (a * b)
            &&& delay::scaled_variance(w, 20, a) == 400 * sxx(s, k) - 40 * (a * sx(s, k)) + k * (a
                * a)
        }),
    decreases k,
{
    let w = delay::spread(s).take(k as int);
    if k > 0 {
        let j = (k - 1) as nat;
        lemma_sums(s, j, a, b);
        assert(w.drop_last() =~= delay::spread(s).take(j as int));
        let (x, y) = (dx(s, j as int), dy(s, j as int));
        assert(w.last() == delay::spread(s)[j as int]);
        assert(w.last().0 == x && w.last().1 == y);
        let (p, q) = (sx(s, j), sy(s, j));
        assert((20 * x - a) * (20 * y - b) == 400 * (x * y) - 20 * (b * x) - 20 * (a * y) + a * b)
            by (nonlinear_arith);
        assert((20 * x - a) * (20 * x - a) == 400 * (x * x) - 40 * (a * x) + a * a)
            by (nonlinear_arith);
        assert(b * (p + x) == b * p + b * x && a * (q + y) == a * q + a * y && a * (p + x) == a * p
            + a * x) by (nonlinear_arith);
        assert(k * (a * b) == j * (a * b) + a * b && k * (a * a) == j * (a * a) + a * a)
            by (nonlinear_arith)
            requires
                k == j + 1,
        ;
    } else {
        assert(b * 0 == 0 && a * 0 == 0 && k * (a * b) == 0 && k * (a * a) == 0)
            by (nonlinear_arith)
            requires
                k == 0,
        ;
        assert(sx(s, 0) == 0 && sy(s, 0) == 0);
    }
}

/// Equal fractions round down to the same.
proof fn lemma_same_floor(a: int, b: int, c: int, d: int)
    requires
        b > 0,
        d > 0,
        a * d == c * b,
    ensures
        a / b == c / d,
{
    let q = c / d;
    let r = c % d;
    vstd::arithmetic::div_mod::lemma_fundamental_div_mod(c, d);
    vstd::arithmetic::div_mod::lemma_fundamental_div_mod(a, b);
    let p = a / b;
    let e = a % b;
    // (b·p + e)·d == (d·q + r)·b, with 0 <= e < b and 0 <= r < d.
    assert(p == q) by (nonlinear_arith)
        requires
            a == b * p + e,
            0 <= e < b,
            c == d * q + r,
            0 <= r < d,
            a * d == c * b,
            b > 0,
            d > 0,
    ;
}

/// Once twenty samples are there, the trend is the least-squares slope of the delay over the
/// arrival time (in millionths, rounded down); it stays what it was before that, and where all
/// samples arrived at once.
pub proof fn law_the_trend_is_the_least_squares_slope(
    v: TrendView,
    send_ts: u32,
    arrival_us: u64,
    gap: int,
)
    requires
        v.wf(),
        in_time(v, send_ts, arrival_us, gap),
        near(v.after_frame(send_ts, arrival_us).samples),
    ensures
        ({
            let t = v.after_frame(send_ts, arrival_us);
            let s = t.samples;
            let num = 20 * sxy(s, 20) - sx(s, 20) * sy(s, 20);
            let den = 20 * sxx(s, 20) - sx(s, 20) * sx(s, 20);
            &&& s.len() < 20 ==> t.trend == v.trend
            &&& s.len() == 20 && den <= 0 ==> t.trend == v.trend
            &&& s.len() == 20 && den > 0 ==> t.trend == num * 1_000_000 / (9 * den)
        }),
{
    lemma_in_time(v, send_ts, arrival_us, gap);
    let t = v.after_frame(send_ts, arrival_us);
    let s = t.samples;
    if s.len() == 20 {
        let w = delay::spread(s);
        assert(w.take(20) =~= w);
        lemma_sums(s, 20, 0, 0);
        let (a, b) = (sx(s, 20), sy(s, 20));
        lemma_sums(s, 20, a, b);
        let num = 20 * sxy(s, 20) - a * b;
        let den = 20 * sxx(s, 20) - a * a;
        assert(b * a == a * b) by (nonlinear_arith);
        assert(delay::scaled_covariance(w, 20, a, b) == 20 * num);
        assert(delay::scaled_variance(w, 20, a) == 20 * den);
        if den > 0 {
            assert((20 * num * 1_000_000) * (9 * den) == (num * 1_000_000) * (9 * (20 * den)))
                by (nonlinear_arith);
            lemma_same_floor(20 * num * 1_000_000, 9 * (20 * den), num * 1_000_000, 9 * den);
        }
    }
}

/// A delay that grows evenly has that growth as its trend: when every sample lies on one line of
/// slope `n / d` (ninths of a microsecond of delay per microsecond), the trend is that slope.
pub proof fn law_an_even_growth_is_the_trend(
    v: TrendView,
    send_ts: u32,
    arrival_us: u64,
    gap: int,
    n: int,
    d: int,
)
    requires
        v.wf(),
        in_time(v, send_ts, arrival_us, gap),
        ({
            let s = v.after_frame(send_ts, arrival_us).samples;
            &&& near(s)
            &&& s.len() == 20
            &&& forall|i: int| 0 <= i < 20 ==> #[trigger] dy(s, i) * d == dx(s, i) * n
            &&& 20 * sxx(s, 20) > sx(s, 20) * sx(s, 20)
        }),
        d > 0,
    ensures
        v.after_frame(send_ts, arrival_us).trend == n * 1_000_000 / (9 * d),
{
    law_the_trend_is_the_least_squares_slope(v, send_ts, arrival_us, gap);
    let s = v.after_frame(send_ts, arrival_us).samples;
    lemma_on_a_line(s, 20, n, d);
    let (p, q, r, u) = (sx(s, 20), sy(s, 20), sxx(s, 20), sxy(s, 20));
    let num = 20 * u - p * q;
    let den = 20 * r - p * p;
    assert(num * d == den * n) by (nonlinear_arith)
        requires
            q * d == p * n,
            u * d == r * n,
            num == 20 * u - p * q,
            den == 20 * r - p * p,
    ;
    assert((num * 1_000_000) * (9 * d) == (n * 1_000_000) * (9 * den)) by (nonlinear_arith)
        requires
            num * d == den * n,
    ;
    lemma_same_floor(num * 1_000_000, 9 * den, n * 1_000_000, 9 * d);
}

proof fn lemma_on_a_line(s: Seq<(u64, i128)>, k: nat, n: int, d: int)
    requires
        k <= s.len(),
        forall|i: int| 0 <= i < s.len() ==> #[trigger] dy(s, i) * d == dx(s, i) * n,
    ensures
        sy(s, k) * d == sx(s, k) * n,
        sxy(s, k) * d == sxx(s, k) * n,
    decreases k,
{
    if k > 0 {
        let j = (k - 1) as nat;
        lemma_on_a_line(s, j, n, d);
        let (x, y) = (dx(s, j as int), dy(s, j as int));
        let (p, q, r, u) = (sx(s, j), sy(s, j), sxx(s, j), sxy(s, j));
        assert(y * d == x * n);
        assert((q + y) * d == (p + x) * n) by (nonlinear_arith)
            requires
                q * d == p * n,
                y * d == x * n,
        ;
        assert((u + x * y) * d == (r + x * x) * n) by (nonlinear_arith)
            requires
                u * d == r * n,
                y * d == x * n,
        ;
    } else {
        assert(0 * d == 0 && 0 * n == 0) by (nonlinear_arith);
    }
}

// ── The detector ──────────────────────────────────────────────────────────────────────

/// The slope as it is compared: times the number of deltas (up to sixty), times four.
pub open spec fn gained(t: TrendView) -> int {
    t.trend * (if t.num_deltas < 60 {
        t.num_deltas as int
    } else {
        60
    }) * 4
}

/// What the estimator publishes of its slope is the gained one, and of its Overuse how long it has
/// held.
pub proof fn law_what_is_published(v: TrendView, now_us: u64)
    ensures
        v.modified_trend() == gained(v),
        v.state != DelayState::Overuse || v.overuse_since_us is None ==> v.overuse_us(now_us) == 0,
        v.state == DelayState::Overuse ==> (v.overuse_since_us matches Some(since)
            ==> v.overuse_us(now_us) == (if now_us < since {
            0
        } else {
            now_us - since
        })),
{
}

/// How long, in half ticks, the slope has been over the threshold once a frame is sent `gap` ticks
/// after the last: the first one counts half.
pub open spec fn over_half_ticks(v: TrendView, gap: int) -> int {
    match v.time_over_using {
        None => gap,
        Some(t) => t + 2 * gap,
    }
}

/// A frame in time settles the hypothesis, from the second delta on: a gained slope under minus
/// the threshold is a draining queue; within the threshold the path is normal; over it, for more
/// than 10 ms of sending, on the second such frame at least and not falling, a queue fills; until
/// then the hypothesis stays. Overuse is timed from the frame that declared it.
pub proof fn law_how_the_hypothesis_is_settled(
    v: TrendView,
    send_ts: u32,
    arrival_us: u64,
    gap: int,
)
    requires
        v.wf(),
        in_time(v, send_ts, arrival_us, gap),
    ensures
        ({
            let t = v.after_frame(send_ts, arrival_us);
            let over = gained(t) > v.threshold;
            let confirmed = over && over_half_ticks(v, gap) > 1800 && v.overuse_counter >= 1
                && t.trend >= v.prev_trend;
            &&& v.num_deltas == 0 ==> {
                &&& t.state == DelayState::Normal
                &&& t.threshold == v.threshold
                &&& t.time_over_using == v.time_over_using
                &&& t.overuse_counter == v.overuse_counter
                &&& t.last_threshold_update_us == v.last_threshold_update_us
                &&& t.prev_trend == v.prev_trend
                &&& t.overuse_since_us == v.overuse_since_us
            }
            &&& v.num_deltas >= 1 ==> {
                &&& gained(t) < -v.threshold ==> t.state == DelayState::Underuse
                &&& -v.threshold <= gained(t) <= v.threshold ==> t.state == DelayState::Normal
                &&& confirmed ==> t.state == DelayState::Overuse && t.time_over_using == Some(0u64)
                    && t.overuse_counter == 0
                &&& over && !confirmed ==> {
                    &&& t.state == v.state
                    &&& over_half_ticks(v, gap) <= u64::MAX ==> t.time_over_using == Some(
                        over_half_ticks(v, gap) as u64,
                    )
                    &&& v.overuse_counter < u32::MAX ==> t.overuse_counter == v.overuse_counter + 1
                }
                &&& !over ==> t.time_over_using is None && t.overuse_counter == 0
                &&& t.prev_trend == t.trend
                &&& t.overuse_since_us == (if t.state != DelayState::Overuse {
                    None
                } else if v.state != DelayState::Overuse {
                    Some(arrival_us)
                } else {
                    v.overuse_since_us
                })
                &&& t.last_threshold_update_us == Some(arrival_us)
            }
        }),
{
    lemma_in_time(v, send_ts, arrival_us, gap);
}

/// The threshold follows the size of the gained slope over the time since the last frame (at most
/// 100 ms): by 3.9 % a millisecond down, by 0.87 % a millisecond up, between 6 and 600; but not a
/// spike of more than 15 over it, and not on the first occasion.
pub proof fn law_how_the_threshold_adapts(v: TrendView, send_ts: u32, arrival_us: u64, gap: int)
    requires
        v.wf(),
        in_time(v, send_ts, arrival_us, gap),
        v.num_deltas >= 1,
    ensures
        ({
            let t = v.after_frame(send_ts, arrival_us);
            let size = if gained(t) < 0 {
                -gained(t)
            } else {
                gained(t)
            };
            let far = size - v.threshold;
            match v.last_threshold_update_us {
                None => t.threshold == v.threshold,
                Some(last) => {
                    let ms1000 = if arrival_us <= last {
                        0
                    } else if arrival_us - last < 100_000 {
                        arrival_us - last
                    } else {
                        100_000
                    };
                    let step = if far < 0 {
                        far * 39 * ms1000 / 1_000_000
                    } else {
                        far * 87 * ms1000 / 10_000_000
                    };
                    let moved = v.threshold + step;
                    &&& far > 15_000_000 ==> t.threshold == v.threshold
                    &&& far <= 15_000_000 ==> t.threshold == (if moved < 6_000_000 {
                        6_000_000
                    } else if moved > 600_000_000 {
                        600_000_000
                    } else {
                        moved
                    })
                },
            }
        }),
{
    lemma_in_time(v, send_ts, arrival_us, gap);
    let t = v.after_frame(send_ts, arrival_us);
    assert(v.filtered(send_ts, arrival_us).modified_trend() == gained(t));
}

/// A queue that keeps filling is detected: two frames in time, one after the other, with a gained
/// slope over the threshold at each, not falling, and more than 10 ms of sending between them (the
/// first one counting half), end in Overuse.
pub proof fn law_a_filling_queue_is_detected(
    v: TrendView,
    first: (u32, u64),
    second: (u32, u64),
    g1: int,
    g2: int,
)
    requires
        v.wf(),
        v.num_deltas >= 1,
        in_time(v, first.0, first.1, g1),
        ({
            let w = v.after_frame(first.0, first.1);
            let t = w.after_frame(second.0, second.1);
            &&& in_time(w, second.0, second.1, g2)
            &&& gained(w) > v.threshold
            &&& gained(t) > w.threshold
            &&& t.trend >= w.trend
            &&& g1 + 2 * g2 > 1800
        }),
    ensures
        v.after_frame(first.0, first.1).after_frame(second.0, second.1).state
            == DelayState::Overuse,
{
    let w = v.after_frame(first.0, first.1);
    laws::law_frames_keep_the_limits(v, first.0, first.1);
    law_how_the_hypothesis_is_settled(v, first.0, first.1, g1);
    law_how_the_hypothesis_is_settled(w, second.0, second.1, g2);
    law_a_frame_in_time_counts(v, first.0, first.1, g1);
    lemma_in_time(v, first.0, first.1, g1);
    lemma_in_time(w, second.0, second.1, g2);
}

} // verus!
