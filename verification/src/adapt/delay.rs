//! One-way delay-gradient estimator (the GCC idea, after WebRTC's `TrendlineEstimator` +
//! `OveruseDetector`).
//!
//! A queue building somewhere on the path shows up as the **inter-arrival time of frames
//! growing faster than their inter-send time** — long before packets are dropped and before a
//! keepalive RTT (sampled twice a second) catches it. Per frame the caller passes the host's
//! RTP timestamp (90 kHz, its send clock) and the local arrival time of the frame's last
//! packet; the estimator accumulates the delay variation, smooths it, fits a line through the
//! last 20 samples and compares the slope against an adaptive threshold.
//!
//! Pure: time is passed in (microseconds on any monotonic clock), no I/O. Only differences of
//! readings count. All arithmetic is on integers: delays are held in ninths of a microsecond (a
//! 90 kHz tick is exactly 100 of them), slopes and thresholds in millionths.

pub mod laws;

use crate::math;
use crate::math::div_floor;
use std::collections::VecDeque;
use vstd::prelude::*;

verus! {

/// The detector's current hypothesis about the path.
#[derive(Clone, Copy, Debug, PartialEq, Eq, Structural, Default)]
pub enum DelayState {
    #[default]
    Normal,
    /// Delay keeps growing — a queue is filling. Back off before loss appears.
    Overuse,
    /// Delay shrinking — a queue is draining. Hold (don't climb yet).
    Underuse,
}

/// How many samples the line is fitted through.
pub const WINDOW: usize = 20;

/// Ninths of a microsecond in a 90 kHz tick.
pub const NINTHS_PER_TICK: i64 = 100;

/// Ninths of a microsecond in a microsecond.
pub const NINTHS_PER_US: i64 = 9;

/// A larger send gap (5 s of 90 kHz ticks) is a clock jump.
pub const MAX_SEND_GAP_TICKS: u32 = 450_000;

/// The slope is scaled by the number of deltas, up to this many, …
pub const DELTAS_CAP: u32 = 60;

/// … and by this gain, before it is compared with the threshold.
pub const THRESHOLD_GAIN: i128 = 4;

/// Millionths in one.
pub const MILLION: i128 = 1_000_000;

/// The threshold starts at 12.5 and stays between 6 and 600 (millionths).
pub const INITIAL_THRESHOLD: i128 = 12_500_000;

pub const MIN_THRESHOLD: i128 = 6_000_000;

pub const MAX_THRESHOLD: i128 = 600_000_000;

/// A trend further than 15 above the threshold does not drag it up.
pub const MAX_ADAPT_OFFSET: i128 = 15_000_000;

/// The trend must stay over the threshold for more than 10 ms (in half ticks).
pub const OVERUSE_HALF_TICKS: u64 = 1_800;

/// The threshold adapts over at most 100 ms per frame.
pub const MAX_ADAPT_US: u64 = 100_000;

/// Within one window, an arrival counts at most this far from the oldest sample's (2^45 µs, over a
/// year), …
pub const SPAN_LIMIT_US: i64 = 35_184_372_088_832;

/// … and a delay at most this far from the oldest sample's (2^46 ninths, about three months).
pub const DRIFT_LIMIT: i64 = 70_368_744_177_664;

/// The accumulated delay variation saturates here (2^100 ninths).
pub const ACCUMULATED_LIMIT: i128 = 1_267_650_600_228_229_401_496_703_205_376;

/// No slope of samples within those limits is steeper than this (2^69 millionths).
pub const TREND_LIMIT: i128 = 590_295_810_358_705_651_712;

// ── The least-squares slope ───────────────────────────────────────────────────────────

pub open spec fn sum_x(s: Seq<(i64, i64)>) -> int
    decreases s.len(),
{
    if s.len() == 0 {
        0
    } else {
        sum_x(s.drop_last()) + s.last().0
    }
}

pub open spec fn sum_y(s: Seq<(i64, i64)>) -> int
    decreases s.len(),
{
    if s.len() == 0 {
        0
    } else {
        sum_y(s.drop_last()) + s.last().1
    }
}

/// `Σ (n·x − sx)·(n·y − sy)`: the covariance of the samples, times `n²`, when `sx` and `sy`
/// are the sums over all `n` of them.
pub open spec fn scaled_covariance(s: Seq<(i64, i64)>, n: int, sx: int, sy: int) -> int
    decreases s.len(),
{
    if s.len() == 0 {
        0
    } else {
        scaled_covariance(s.drop_last(), n, sx, sy) + (n * s.last().0 - sx) * (n * s.last().1 - sy)
    }
}

/// `Σ (n·x − sx)²`: the variance of `x`, times `n²`.
pub open spec fn scaled_variance(s: Seq<(i64, i64)>, n: int, sx: int) -> int
    decreases s.len(),
{
    if s.len() == 0 {
        0
    } else {
        scaled_variance(s.drop_last(), n, sx) + (n * s.last().0 - sx) * (n * s.last().0 - sx)
    }
}

/// Least-squares slope of `y` (ninths of a µs) over `x` (µs), in millionths, rounded down;
/// `None` when `x` has no spread.
pub open spec fn slope(s: Seq<(i64, i64)>) -> Option<int> {
    let n = s.len() as int;
    let var = scaled_variance(s, n, sum_x(s));
    if var > 0 {
        Some(scaled_covariance(s, n, sum_x(s), sum_y(s)) * MILLION / (NINTHS_PER_US * var))
    } else {
        None
    }
}

/// A window of samples within the limits.
pub open spec fn fits(s: Seq<(i64, i64)>) -> bool {
    &&& s.len() <= WINDOW
    &&& forall|i: int|
        0 <= i < s.len() ==> {
            &&& -SPAN_LIMIT_US <= (#[trigger] s[i]).0 <= SPAN_LIMIT_US
            &&& -DRIFT_LIMIT <= s[i].1 <= DRIFT_LIMIT
        }
}

/// A window of (arrival, delay) samples as distances from its oldest one.
pub open spec fn spread(samples: Seq<(u64, i128)>) -> Seq<(i64, i64)> {
    Seq::new(
        samples.len(),
        |i: int|
            (
                math::clamped(
                    samples[i].0 - samples[0].0,
                    -SPAN_LIMIT_US as int,
                    SPAN_LIMIT_US as int,
                ) as i64,
                math::clamped(
                    samples[i].1 - samples[0].1,
                    -DRIFT_LIMIT as int,
                    DRIFT_LIMIT as int,
                ) as i64,
            ),
    )
}

proof fn lemma_sum_bounds(s: Seq<(i64, i64)>, x: int, y: int)
    requires
        forall|i: int|
            0 <= i < s.len() ==> -x <= (#[trigger] s[i]).0 <= x && -y <= s[i].1 <= y,
    ensures
        -(s.len() * x) <= sum_x(s) <= s.len() * x,
        -(s.len() * y) <= sum_y(s) <= s.len() * y,
    decreases s.len(),
{
    if s.len() > 0 {
        let init = s.drop_last();
        assert forall|i: int| 0 <= i < init.len() implies -x <= (#[trigger] init[i]).0 <= x && -y
            <= init[i].1 <= y by {
            assert(init[i] == s[i]);
        }
        lemma_sum_bounds(init, x, y);
        assert(s.len() * x == init.len() * x + x && s.len() * y == init.len() * y + y)
            by (nonlinear_arith)
            requires
                s.len() == init.len() + 1,
        ;
    } else {
        assert(s.len() * x == 0 && s.len() * y == 0) by (nonlinear_arith)
            requires
                s.len() == 0,
        ;
    }
}

/// The largest centred sample times the window: `40 · 2^45` and `40 · 2^46`.
pub open spec fn max_cx() -> int {
    40 * SPAN_LIMIT_US
}

pub open spec fn max_cy() -> int {
    40 * DRIFT_LIMIT
}

proof fn lemma_centred_bounds(s: Seq<(i64, i64)>, i: int)
    requires
        fits(s),
        0 <= i < s.len(),
    ensures
        -max_cx() <= s.len() * s[i].0 - sum_x(s) <= max_cx(),
        -max_cy() <= s.len() * s[i].1 - sum_y(s) <= max_cy(),
{
    lemma_sum_bounds(s, SPAN_LIMIT_US as int, DRIFT_LIMIT as int);
    let n = s.len() as int;
    let x = s[i].0 as int;
    let y = s[i].1 as int;
    assert(n * (-SPAN_LIMIT_US as int) == -(n * SPAN_LIMIT_US)) by (nonlinear_arith);
    assert(n * (-DRIFT_LIMIT as int) == -(n * DRIFT_LIMIT)) by (nonlinear_arith);
    assert(n * SPAN_LIMIT_US <= 20 * SPAN_LIMIT_US && n * DRIFT_LIMIT <= 20 * DRIFT_LIMIT)
        by (nonlinear_arith)
        requires
            0 <= n <= 20,
    ;
    assert(-(20 * SPAN_LIMIT_US) <= n * x <= 20 * SPAN_LIMIT_US) by (nonlinear_arith)
        requires
            0 <= n <= 20,
            -SPAN_LIMIT_US <= x <= SPAN_LIMIT_US,
    ;
    assert(-(20 * DRIFT_LIMIT) <= n * y <= 20 * DRIFT_LIMIT) by (nonlinear_arith)
        requires
            0 <= n <= 20,
            -DRIFT_LIMIT <= y <= DRIFT_LIMIT,
    ;
}

/// The products of those bounds.
proof fn lemma_limits()
    ensures
        max_cx() * max_cy() == 3961408125713216879677197516800,
        max_cx() * max_cx() == 1980704062856608439838598758400,
{
    assert(max_cx() == 1407374883553280);
    assert(max_cy() == 2814749767106560);
    assert(1407374883553280int * 2814749767106560int == 3961408125713216879677197516800) by (nonlinear_arith);
    assert(1407374883553280int * 1407374883553280int == 1980704062856608439838598758400) by (nonlinear_arith);
}

proof fn lemma_product_bound(cx: int, cy: int)
    requires
        -max_cx() <= cx <= max_cx(),
        -max_cy() <= cy <= max_cy(),
    ensures
        -(max_cx() * max_cy()) <= cx * cy <= max_cx() * max_cy(),
        0 <= cx * cx <= max_cx() * max_cx(),
        -(max_cy() * (cx * cx)) <= cx * cy <= max_cy() * (cx * cx),
{
    let (mx, my) = (max_cx(), max_cy());
    let ax = if cx < 0 {
        -cx
    } else {
        cx
    };
    let ay = if cy < 0 {
        -cy
    } else {
        cy
    };
    assert(cx * cx == ax * ax) by (nonlinear_arith)
        requires
            ax == cx || ax == -cx,
    ;
    assert(cx * cy == ax * ay || cx * cy == -(ax * ay)) by (nonlinear_arith)
        requires
            ax == cx || ax == -cx,
            ay == cy || ay == -cy,
    ;
    assert(0 <= ax * ay <= mx * my) by (nonlinear_arith)
        requires
            0 <= ax <= mx,
            0 <= ay <= my,
    ;
    assert(0 <= ax * ax <= mx * mx) by (nonlinear_arith)
        requires
            0 <= ax <= mx,
    ;
    assert(ax * ay <= my * (ax * ax)) by (nonlinear_arith)
        requires
            0 <= ax,
            0 <= ay <= my,
    ;
}

/// The sums over the first `k` samples of a full window, within 128 bits, and the covariance
/// within what the variance allows.
proof fn lemma_fit_bounds(s: Seq<(i64, i64)>, k: int)
    requires
        s.len() == WINDOW,
        fits(s),
        0 <= k <= 20,
    ensures
        ({
            let num = scaled_covariance(s.take(k), 20, sum_x(s), sum_y(s));
            let den = scaled_variance(s.take(k), 20, sum_x(s));
            &&& -(k * (max_cx() * max_cy())) <= num <= k * (max_cx() * max_cy())
            &&& 0 <= den <= k * (max_cx() * max_cx())
            &&& -(max_cy() * den) <= num <= max_cy() * den
        }),
    decreases k,
{
    if k > 0 {
        lemma_fit_bounds(s, k - 1);
        lemma_limits();
        lemma_centred_bounds(s, k - 1);
        assert(s.take(k).drop_last() =~= s.take(k - 1));
        let cx = 20 * s[k - 1].0 - sum_x(s);
        let cy = 20 * s[k - 1].1 - sum_y(s);
        lemma_product_bound(cx, cy);
        let den = scaled_variance(s.take(k - 1), 20, sum_x(s));
        assert(max_cy() * (den + cx * cx) == max_cy() * den + max_cy() * (cx * cx))
            by (nonlinear_arith);
    } else {
        assert(s.take(0).len() == 0);
        assert(max_cy() * 0 == 0) by (nonlinear_arith);
    }
}

/// No slope is steeper than the limit.
pub(crate) proof fn lemma_slope_bound(s: Seq<(i64, i64)>)
    requires
        s.len() == WINDOW,
        fits(s),
    ensures
        slope(s) matches Some(v) ==> -TREND_LIMIT <= v <= TREND_LIMIT,
{
    lemma_fit_bounds(s, 20);
    lemma_limits();
    assert(s.take(20) =~= s);
    let n = scaled_covariance(s, 20, sum_x(s), sum_y(s));
    let d = scaled_variance(s, 20, sum_x(s));
    if d > 0 {
        let top = n * MILLION;
        let bot = 9 * d;
        let v = top / bot;
        // |top / bot| ≤ max_cy · 10^6 / 9 + 1.
        assert(-(max_cy() * MILLION) * d <= top <= (max_cy() * MILLION) * d) by (nonlinear_arith)
            requires
                -(max_cy() * d) <= n <= max_cy() * d,
                top == n * MILLION,
        ;
        assert(-TREND_LIMIT * bot <= top <= TREND_LIMIT * bot) by (nonlinear_arith)
            requires
                -(max_cy() * MILLION) * d <= top <= (max_cy() * MILLION) * d,
                bot == 9 * d,
                d > 0,
                max_cy() * MILLION <= TREND_LIMIT * 9,
        ;
        vstd::arithmetic::div_mod::lemma_fundamental_div_mod(top, bot);
        assert(-TREND_LIMIT <= v <= TREND_LIMIT) by (nonlinear_arith)
            requires
                top == bot * v + top % bot,
                0 <= top % bot < bot,
                -TREND_LIMIT * bot <= top <= TREND_LIMIT * bot,
                bot > 0,
        ;
    }
}

/// Least-squares slope of `y` over `x`; `None` when `x` has no spread.
fn linear_fit_slope(samples: &[(i64, i64)]) -> (r: Option<i128>)
    requires
        samples@.len() == WINDOW,
        fits(samples@),
    ensures
        match r {
            Some(v) => slope(samples@) == Some(v as int) && -TREND_LIMIT <= v <= TREND_LIMIT,
            None => slope(samples@) is None,
        },
{
    let ghost s = samples@;
    let mut sx: i64 = 0;
    let mut sy: i64 = 0;
    let mut i: usize = 0;
    while i < 20
        invariant
            s == samples@,
            s.len() == 20,
            fits(s),
            i <= 20,
            sx == sum_x(s.take(i as int)),
            sy == sum_y(s.take(i as int)),
            -(i * SPAN_LIMIT_US) <= sx <= i * SPAN_LIMIT_US,
            -(i * DRIFT_LIMIT) <= sy <= i * DRIFT_LIMIT,
        decreases 20 - i,
    {
        let p: (i64, i64) = samples[i];
        assert(p == s[i as int]);
        assert(s.take(i + 1).drop_last() =~= s.take(i as int));
        sx = sx + p.0;
        sy = sy + p.1;
        i += 1;
    }
    assert(s.take(20) =~= s);
    let mut num: i128 = 0;
    let mut den: i128 = 0;
    let mut i: usize = 0;
    while i < 20
        invariant
            s == samples@,
            s.len() == 20,
            fits(s),
            i <= 20,
            sx == sum_x(s),
            sy == sum_y(s),
            num == scaled_covariance(s.take(i as int), 20, sx as int, sy as int),
            den == scaled_variance(s.take(i as int), 20, sx as int),
        decreases 20 - i,
    {
        let p: (i64, i64) = samples[i];
        assert(p == s[i as int]);
        assert(s.take(i + 1).drop_last() =~= s.take(i as int));
        proof {
            lemma_limits();
            lemma_centred_bounds(s, i as int);
            lemma_product_bound(20 * p.0 - sx, 20 * p.1 - sy);
            lemma_fit_bounds(s, i as int);
            lemma_fit_bounds(s, i + 1);
        }
        let cx: i128 = 20 * (p.0 as i128) - sx as i128;
        let cy: i128 = 20 * (p.1 as i128) - sy as i128;
        num = num + cx * cy;
        den = den + cx * cx;
        i += 1;
    }
    assert(s.take(20) =~= s);
    proof {
        lemma_limits();
        lemma_fit_bounds(s, 20);
        lemma_slope_bound(s);
    }
    if den > 0 {
        Some(div_floor(num * 1_000_000, 9 * den))
    } else {
        None
    }
}

/// A distance within limits.
fn limited(x: i128, limit: i64) -> (r: i64)
    requires
        limit >= 0,
    ensures
        r == math::clamped(x as int, -limit as int, limit as int),
{
    if x < -(limit as i128) {
        -limit
    } else if x > limit as i128 {
        limit
    } else {
        x as i64
    }
}

/// A window of samples as distances from its oldest one.
fn spread_out(samples: &VecDeque<(u64, i128)>) -> (out: Vec<(i64, i64)>)
    requires
        samples@.len() <= WINDOW,
        forall|i: int|
            0 <= i < samples@.len() ==> -ACCUMULATED_LIMIT <= (#[trigger] samples@[i]).1
                <= ACCUMULATED_LIMIT,
    ensures
        out@ == spread(samples@),
        fits(out@),
{
    let mut out: Vec<(i64, i64)> = Vec::new();
    let mut i: usize = 0;
    while i < samples.len()
        invariant
            i <= samples@.len(),
            samples@.len() <= WINDOW,
            forall|k: int|
                0 <= k < samples@.len() ==> -ACCUMULATED_LIMIT <= (#[trigger] samples@[k]).1
                    <= ACCUMULATED_LIMIT,
            out@ == spread(samples@).take(i as int),
        decreases samples@.len() - i,
    {
        let (x0, y0): (u64, i128) = samples[0];
        let (x, y): (u64, i128) = samples[i];
        assert(samples@[0].1 == y0 && samples@[i as int].1 == y);
        out.push((limited(x as i128 - x0 as i128, SPAN_LIMIT_US), limited(y - y0, DRIFT_LIMIT)));
        assert(out@ =~= spread(samples@).take(i + 1));
        i += 1;
    }
    assert(out@ =~= spread(samples@));
    out
}

// ── The estimator ─────────────────────────────────────────────────────────────────────

/// The delay-gradient estimator and its over-use detector.
#[derive(Clone, Debug)]
pub struct Trendline {
    prev_send_ts: Option<u32>,
    prev_arrival_us: u64,
    accumulated: i128,
    smoothed: i128,
    samples: VecDeque<(u64, i128)>,
    num_deltas: u32,
    trend: i128,
    prev_trend: i128,
    threshold: i128,
    last_threshold_update_us: Option<u64>,
    /// How long the trend has been over the threshold (half ticks).
    time_over_using: Option<u64>,
    overuse_counter: u32,
    state: DelayState,
    /// When the current Overuse hypothesis started, for the fast-path reflex.
    overuse_since_us: Option<u64>,
}

/// What the estimator holds, as plain values.
#[verifier::ext_equal]
pub struct TrendView {
    pub prev_send_ts: Option<u32>,
    pub prev_arrival_us: u64,
    /// Delay variation since the first frame, and its smoothed course (ninths of a µs).
    pub accumulated: int,
    pub smoothed: int,
    /// The last samples: (arrival, smoothed delay variation).
    pub samples: Seq<(u64, i128)>,
    pub num_deltas: u32,
    /// The fitted slope, the one before, and the threshold (millionths).
    pub trend: int,
    pub prev_trend: int,
    pub threshold: int,
    pub last_threshold_update_us: Option<u64>,
    pub time_over_using: Option<u64>,
    pub overuse_counter: u32,
    pub state: DelayState,
    pub overuse_since_us: Option<u64>,
}

pub open spec fn magnitude(x: int) -> int {
    if x < 0 {
        -x
    } else {
        x
    }
}

impl TrendView {
    pub open spec fn wf(self) -> bool {
        &&& self.samples.len() <= WINDOW
        &&& forall|i: int|
            0 <= i < self.samples.len() ==> -ACCUMULATED_LIMIT <= (#[trigger] self.samples[i]).1
                <= ACCUMULATED_LIMIT
        &&& -ACCUMULATED_LIMIT <= self.accumulated <= ACCUMULATED_LIMIT
        &&& -ACCUMULATED_LIMIT <= self.smoothed <= ACCUMULATED_LIMIT
        &&& -TREND_LIMIT <= self.trend <= TREND_LIMIT
        &&& -TREND_LIMIT <= self.prev_trend <= TREND_LIMIT
        &&& MIN_THRESHOLD <= self.threshold <= MAX_THRESHOLD
    }

    /// An estimator that has seen nothing.
    pub open spec fn fresh() -> TrendView {
        TrendView {
            prev_send_ts: None,
            prev_arrival_us: 0,
            accumulated: 0,
            smoothed: 0,
            samples: Seq::empty(),
            num_deltas: 0,
            trend: 0,
            prev_trend: 0,
            threshold: INITIAL_THRESHOLD as int,
            last_threshold_update_us: None,
            time_over_using: None,
            overuse_counter: 0,
            state: DelayState::Normal,
            overuse_since_us: None,
        }
    }

    /// The gain-scaled slope.
    pub open spec fn modified_trend(self) -> int {
        self.trend * (if self.num_deltas < DELTAS_CAP {
            self.num_deltas as int
        } else {
            DELTAS_CAP as int
        }) * THRESHOLD_GAIN
    }

    /// Whether a frame gives a usable delta: sent after the previous one (wrap-aware, by at
    /// most 5 s) and not arrived before it.
    pub open spec fn usable(self, send_ts: u32, arrival_us: u64) -> bool {
        &&& self.prev_send_ts matches Some(prev)
        &&& 0 < send_ts.wrapping_sub(prev) <= MAX_SEND_GAP_TICKS
        &&& arrival_us >= self.prev_arrival_us
    }

    /// The frame is the last one now, whether or not it gives a delta.
    pub open spec fn noted(self, send_ts: u32, arrival_us: u64) -> TrendView {
        TrendView {
            prev_send_ts: Some(send_ts),
            prev_arrival_us: arrival_us,
            ..self
        }
    }

    /// How much later than spaced the frame arrived (ninths of a µs).
    pub open spec fn delay_delta(self, send_ts: u32, arrival_us: u64) -> int {
        (arrival_us - self.prev_arrival_us) * NINTHS_PER_US - send_ts.wrapping_sub(
            self.prev_send_ts->0,
        ) * NINTHS_PER_TICK
    }

    /// A usable delta enters the filter: accumulated (saturating), smoothed 9 : 1, sampled
    /// into the window, and the line fitted again once the window is full.
    pub open spec fn filtered(self, send_ts: u32, arrival_us: u64) -> TrendView {
        let accumulated = math::clamped(
            self.accumulated + self.delay_delta(send_ts, arrival_us),
            -ACCUMULATED_LIMIT as int,
            ACCUMULATED_LIMIT as int,
        );
        let smoothed = (9 * self.smoothed + accumulated) / 10;
        let all = self.samples.push((arrival_us, smoothed as i128));
        let samples = if all.len() > WINDOW {
            all.skip(1)
        } else {
            all
        };
        TrendView {
            accumulated,
            smoothed,
            samples,
            num_deltas: self.num_deltas.saturating_add(1),
            trend: if samples.len() == WINDOW && slope(spread(samples)) is Some {
                slope(spread(samples))->0
            } else {
                self.trend
            },
            ..self.noted(send_ts, arrival_us)
        }
    }

    /// How long the trend has been over the threshold once `ticks` more have passed.
    pub open spec fn over_for(self, ticks: u32) -> u64 {
        match self.time_over_using {
            None => ticks as u64,
            Some(t) => t.saturating_add((2 * ticks) as u64),
        }
    }

    /// The trend has been over the threshold for long enough, twice at least, and is not
    /// falling.
    pub open spec fn overuse_confirmed(self, ticks: u32) -> bool {
        &&& self.over_for(ticks) > OVERUSE_HALF_TICKS
        &&& self.overuse_counter.saturating_add(1) > 1
        &&& self.trend >= self.prev_trend
    }

    /// The hypothesis after the slope was fitted.
    pub open spec fn next_state(self, ticks: u32) -> DelayState {
        let modified = self.modified_trend();
        if modified > self.threshold {
            if self.overuse_confirmed(ticks) {
                DelayState::Overuse
            } else {
                self.state
            }
        } else if modified < -self.threshold {
            DelayState::Underuse
        } else {
            DelayState::Normal
        }
    }

    /// The threshold follows the trend's magnitude — quickly down, slowly up — except that a
    /// big spike does not drag it.
    pub open spec fn next_threshold(self, now_us: u64) -> int {
        let size = magnitude(self.modified_trend());
        match self.last_threshold_update_us {
            None => self.threshold,
            Some(last) => {
                if size > self.threshold + MAX_ADAPT_OFFSET {
                    self.threshold
                } else {
                    let dt = math::clamped(now_us - last, 0, MAX_ADAPT_US as int);
                    let gap = size - self.threshold;
                    let step = if gap < 0 {
                        39 * gap * dt / 1_000_000
                    } else {
                        87 * gap * dt / 10_000_000
                    };
                    math::clamped(self.threshold + step, MIN_THRESHOLD as int, MAX_THRESHOLD as int)
                }
            },
        }
    }

    /// The detector's step after the filter's, for a send delta of `ticks`.
    pub open spec fn detected(self, ticks: u32, now_us: u64) -> TrendView {
        if self.num_deltas < 2 {
            TrendView { state: DelayState::Normal, ..self }
        } else {
            let over = self.modified_trend() > self.threshold;
            let confirmed = over && self.overuse_confirmed(ticks);
            let next = self.next_state(ticks);
            TrendView {
                time_over_using: if confirmed {
                    Some(0)
                } else if over {
                    Some(self.over_for(ticks))
                } else {
                    None
                },
                overuse_counter: if over && !confirmed {
                    self.overuse_counter.saturating_add(1)
                } else {
                    0
                },
                prev_trend: self.trend,
                state: next,
                overuse_since_us: if next != DelayState::Overuse {
                    None
                } else if self.state != DelayState::Overuse {
                    Some(now_us)
                } else {
                    self.overuse_since_us
                },
                threshold: self.next_threshold(now_us),
                last_threshold_update_us: Some(now_us),
                ..self
            }
        }
    }

    /// The estimator after one frame.
    pub open spec fn after_frame(self, send_ts: u32, arrival_us: u64) -> TrendView {
        if self.usable(send_ts, arrival_us) {
            self.filtered(send_ts, arrival_us).detected(
                send_ts.wrapping_sub(self.prev_send_ts->0),
                arrival_us,
            )
        } else {
            self.noted(send_ts, arrival_us)
        }
    }

    /// How long the Overuse hypothesis has held (µs), 0 when not overusing.
    pub open spec fn overuse_us(self, now_us: u64) -> u64 {
        match (self.state, self.overuse_since_us) {
            (DelayState::Overuse, Some(t)) => now_us.saturating_sub(t),
            _ => 0,
        }
    }
}

impl View for Trendline {
    type V = TrendView;

    closed spec fn view(&self) -> TrendView {
        TrendView {
            prev_send_ts: self.prev_send_ts,
            prev_arrival_us: self.prev_arrival_us,
            accumulated: self.accumulated as int,
            smoothed: self.smoothed as int,
            samples: self.samples@,
            num_deltas: self.num_deltas,
            trend: self.trend as int,
            prev_trend: self.prev_trend as int,
            threshold: self.threshold as int,
            last_threshold_update_us: self.last_threshold_update_us,
            time_over_using: self.time_over_using,
            overuse_counter: self.overuse_counter,
            state: self.state,
            overuse_since_us: self.overuse_since_us,
        }
    }
}

impl Default for Trendline {
    fn default() -> (t: Self)
        ensures
            t@ == TrendView::fresh(),
            t@.wf(),
    {
        Self::new()
    }
}

impl Trendline {
    pub fn new() -> (t: Self)
        ensures
            t@ == TrendView::fresh(),
            t@.wf(),
    {
        let t = Trendline {
            prev_send_ts: None,
            prev_arrival_us: 0,
            accumulated: 0,
            smoothed: 0,
            samples: VecDeque::with_capacity(WINDOW + 1),
            num_deltas: 0,
            trend: 0,
            prev_trend: 0,
            threshold: INITIAL_THRESHOLD,
            last_threshold_update_us: None,
            time_over_using: None,
            overuse_counter: 0,
            state: DelayState::Normal,
            overuse_since_us: None,
        };
        assert(t@ =~= TrendView::fresh());
        t
    }

    /// Forget everything (a stream restart re-bases the host clock).
    pub fn reset(&mut self)
        ensures
            final(self)@ == TrendView::fresh(),
            final(self)@.wf(),
    {
        *self = Self::new();
    }

    pub fn state(&self) -> (s: DelayState)
        ensures
            s == self@.state,
    {
        self.state
    }

    /// The gain-scaled slope (ms of delay growth per ms, × gain; in millionths) — for logs.
    pub fn trend(&self) -> (t: i128)
        requires
            self@.wf(),
        ensures
            t == self@.modified_trend(),
    {
        let deltas: u32 = if self.num_deltas < DELTAS_CAP {
            self.num_deltas
        } else {
            DELTAS_CAP
        };
        proof {
            lemma_modified_bound(self.trend as int, deltas as int);
        }
        self.trend * deltas as i128 * THRESHOLD_GAIN
    }

    /// The threshold (ms) that the gain-scaled slope is compared with, in millionths.
    pub fn threshold_ms(&self) -> (t: u64)
        requires
            self@.wf(),
        ensures
            t == self@.threshold,
            MIN_THRESHOLD <= t <= MAX_THRESHOLD,
    {
        self.threshold as u64
    }

    /// How long the Overuse hypothesis has held (in thousandths of a ms), 0 when not overusing.
    pub fn overuse_ms(&self, now_us: u64) -> (us: u64)
        ensures
            us == self@.overuse_us(now_us),
    {
        match (self.state, self.overuse_since_us) {
            (DelayState::Overuse, Some(t)) => now_us.saturating_sub(t),
            _ => 0,
        }
    }

    /// One frame: its RTP timestamp (90 kHz, wraps) and the local arrival time of its last
    /// packet (µs). Returns the updated hypothesis.
    pub fn on_frame(&mut self, send_ts_90k: u32, arrival_us: u64) -> (s: DelayState)
        requires
            old(self)@.wf(),
        ensures
            final(self)@.wf(),
            final(self)@ == old(self)@.after_frame(send_ts_90k, arrival_us),
            s == final(self)@.state,
    {
        let ghost was = self@;
        let prev_ts: u32 = match self.prev_send_ts {
            Some(ts) => ts,
            None => {
                self.prev_send_ts = Some(send_ts_90k);
                self.prev_arrival_us = arrival_us;
                assert(self@ =~= was.after_frame(send_ts_90k, arrival_us));
                return self.state;
            },
        };
        // Wrap-aware send delta (the host clock is 32-bit at 90 kHz, about 13 h).
        let ticks: u32 = send_ts_90k.wrapping_sub(prev_ts);
        let prev_arrival_us: u64 = self.prev_arrival_us;
        self.prev_send_ts = Some(send_ts_90k);
        self.prev_arrival_us = arrival_us;
        if ticks == 0 || ticks > MAX_SEND_GAP_TICKS || arrival_us < prev_arrival_us {
            // Reordered / duplicate frame or a clock jump: not a usable delta.
            assert(self@ =~= was.after_frame(send_ts_90k, arrival_us));
            return self.state;
        }
        self.num_deltas = self.num_deltas.saturating_add(1);
        let delta: i128 = (arrival_us - prev_arrival_us) as i128 * 9 - ticks as i128 * 100;
        assert(delta == was.delay_delta(send_ts_90k, arrival_us));
        let sum: i128 = self.accumulated + delta;
        self.accumulated = if sum < -ACCUMULATED_LIMIT {
            -ACCUMULATED_LIMIT
        } else if sum > ACCUMULATED_LIMIT {
            ACCUMULATED_LIMIT
        } else {
            sum
        };
        self.smoothed = div_floor(9 * self.smoothed + self.accumulated, 10);
        self.samples.push_back((arrival_us, self.smoothed));
        if self.samples.len() > WINDOW {
            self.samples.pop_front();
        }
        let ghost mid = was.filtered(send_ts_90k, arrival_us);
        assert(self.samples@ =~= mid.samples);
        proof {
            lemma_filtered_wf(was, send_ts_90k, arrival_us);
        }
        if self.samples.len() == WINDOW {
            let window: Vec<(i64, i64)> = spread_out(&self.samples);
            if let Some(slope) = linear_fit_slope(window.as_slice()) {
                self.trend = slope;
            }
        }
        assert(self@ =~= mid);
        self.detect(ticks, arrival_us);
        self.state
    }

    fn detect(&mut self, ticks: u32, now_us: u64)
        requires
            old(self)@.wf(),
            ticks <= MAX_SEND_GAP_TICKS,
        ensures
            final(self)@.wf(),
            final(self)@ == old(self)@.detected(ticks, now_us),
    {
        let ghost was = self@;
        if self.num_deltas < 2 {
            self.state = DelayState::Normal;
            assert(self@ =~= was.detected(ticks, now_us));
            return;
        }
        let modified: i128 = self.trend();
        let mut next: DelayState = self.state;
        if modified > self.threshold {
            let over: u64 = match self.time_over_using {
                None => ticks as u64,
                Some(t) => t.saturating_add((2 * ticks) as u64),
            };
            self.time_over_using = Some(over);
            self.overuse_counter = self.overuse_counter.saturating_add(1);
            if over > OVERUSE_HALF_TICKS && self.overuse_counter > 1 && self.trend
                >= self.prev_trend {
                self.time_over_using = Some(0);
                self.overuse_counter = 0;
                next = DelayState::Overuse;
            }
        } else if modified < -self.threshold {
            self.time_over_using = None;
            self.overuse_counter = 0;
            next = DelayState::Underuse;
        } else {
            self.time_over_using = None;
            self.overuse_counter = 0;
            next = DelayState::Normal;
        }
        self.prev_trend = self.trend;
        if next == DelayState::Overuse {
            if self.state != DelayState::Overuse {
                self.overuse_since_us = Some(now_us);
            }
        } else {
            self.overuse_since_us = None;
        }
        self.state = next;
        self.update_threshold(modified, now_us);
        assert(self@ =~= was.detected(ticks, now_us));
    }

    fn update_threshold(&mut self, modified_trend: i128, now_us: u64)
        requires
            old(self)@.wf(),
            modified_trend == old(self)@.modified_trend(),
        ensures
            final(self)@.wf(),
            final(self)@ == (TrendView {
                threshold: old(self)@.next_threshold(now_us),
                last_threshold_update_us: Some(now_us),
                ..old(self)@
            }),
    {
        let ghost was = self@;
        let last: u64 = match self.last_threshold_update_us {
            Some(last) => last,
            None => {
                self.last_threshold_update_us = Some(now_us);
                assert(self@.samples =~= was.samples);
                return;
            },
        };
        self.last_threshold_update_us = Some(now_us);
        proof {
            let deltas = if self.num_deltas < DELTAS_CAP {
                self.num_deltas as int
            } else {
                DELTAS_CAP as int
            };
            lemma_modified_bound(self.trend as int, deltas);
        }
        let size: i128 = if modified_trend < 0 {
            -modified_trend
        } else {
            modified_trend
        };
        if size > self.threshold + MAX_ADAPT_OFFSET {
            // A big spike: don't let it drag the threshold up.
            return;
        }
        let since: u64 = now_us.saturating_sub(last);
        let dt: i128 = if since < MAX_ADAPT_US {
            since as i128
        } else {
            MAX_ADAPT_US as i128
        };
        let gap: i128 = size - self.threshold;
        proof {
            lemma_step_bound(gap as int, dt as int);
        }
        let step: i128 = if gap < 0 {
            div_floor(39 * gap * dt, 1_000_000)
        } else {
            div_floor(87 * gap * dt, 10_000_000)
        };
        let moved: i128 = self.threshold + step;
        self.threshold = if moved < MIN_THRESHOLD {
            MIN_THRESHOLD
        } else if moved > MAX_THRESHOLD {
            MAX_THRESHOLD
        } else {
            moved
        };
    }
}

/// One threshold step stays small.
proof fn lemma_step_bound(gap: int, dt: int)
    requires
        -MAX_THRESHOLD <= gap <= MAX_ADAPT_OFFSET,
        0 <= dt <= 100_000,
    ensures
        -(100 * MAX_THRESHOLD) <= 39 * gap <= 100 * MAX_THRESHOLD,
        -(100 * MAX_THRESHOLD) <= 87 * gap <= 100 * MAX_THRESHOLD,
        -(10_000_000 * MAX_THRESHOLD) <= 39 * gap * dt <= 10_000_000 * MAX_THRESHOLD,
        -(10_000_000 * MAX_THRESHOLD) <= 87 * gap * dt <= 10_000_000 * MAX_THRESHOLD,
{
    assert(-(10_000_000 * MAX_THRESHOLD) <= 39 * gap * dt <= 10_000_000 * MAX_THRESHOLD)
        by (nonlinear_arith)
        requires
            -(100 * MAX_THRESHOLD) <= 39 * gap <= 100 * MAX_THRESHOLD,
            0 <= dt <= 100_000,
    ;
    assert(-(10_000_000 * MAX_THRESHOLD) <= 87 * gap * dt <= 10_000_000 * MAX_THRESHOLD)
        by (nonlinear_arith)
        requires
            -(100 * MAX_THRESHOLD) <= 87 * gap <= 100 * MAX_THRESHOLD,
            0 <= dt <= 100_000,
    ;
}

/// The filter keeps within its limits.
pub(crate) proof fn lemma_filtered_wf(v: TrendView, send_ts: u32, arrival_us: u64)
    requires
        v.wf(),
    ensures
        v.filtered(send_ts, arrival_us).wf(),
{
    let mid = v.filtered(send_ts, arrival_us);
    let all = v.samples.push((arrival_us, mid.smoothed as i128));
    assert forall|i: int| 0 <= i < all.len() implies -ACCUMULATED_LIMIT <= (#[trigger] all[i]).1
        <= ACCUMULATED_LIMIT by {
        if i < v.samples.len() {
            assert(all[i] == v.samples[i]);
        }
    }
    assert forall|i: int| 0 <= i < mid.samples.len() implies -ACCUMULATED_LIMIT <= (
    #[trigger] mid.samples[i]).1 <= ACCUMULATED_LIMIT by {
        if all.len() > WINDOW {
            assert(mid.samples[i] == all[i + 1]);
        }
    }
    if mid.samples.len() == WINDOW {
        lemma_slope_bound(spread(mid.samples));
    }
}

/// The gain-scaled slope is at most 240 times the slope.
pub(crate) proof fn lemma_modified_bound(trend: int, deltas: int)
    requires
        -TREND_LIMIT <= trend <= TREND_LIMIT,
        0 <= deltas <= 60,
    ensures
        -(60 * TREND_LIMIT) <= trend * deltas <= 60 * TREND_LIMIT,
        -(240 * TREND_LIMIT) <= trend * deltas * THRESHOLD_GAIN <= 240 * TREND_LIMIT,
{
    assert(-(60 * TREND_LIMIT) <= trend * deltas <= 60 * TREND_LIMIT) by (nonlinear_arith)
        requires
            -TREND_LIMIT <= trend <= TREND_LIMIT,
            0 <= deltas <= 60,
    ;
}

} // verus!
