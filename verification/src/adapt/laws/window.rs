//! What one window comes to, told by what is measured and what is published, with every number
//! written out.

use crate::adapt::delay;
use crate::adapt::laws;
use crate::adapt::rules;
use crate::adapt::rules::{ControlView, SampleView};
use vstd::prelude::*;

verus! {

// ── Measuring ─────────────────────────────────────────────────────────────────────────

/// The state after the window.
pub open spec fn after(v: ControlView, s: SampleView) -> ControlView {
    v.ticked(s).0
}

/// The published loss is the share of the window's packets that is missing, to the nearest
/// billionth; what is left of it over the noise floor drives the rate. The delay hypothesis and
/// its slope are the estimator's.
pub proof fn law_loss_is_the_share_that_is_missing(v: ControlView, s: SampleView)
    requires
        laws::takes(v, s),
    ensures
        ({
            let told = after(v, s).last;
            let total = s.recv + s.lost;
            &&& total == 0 ==> told.loss == 0
            &&& -total <= 2 * (told.loss * total - s.lost * 1_000_000_000) <= total
            &&& told.eff_loss == (if v.noise_loss < told.loss {
                told.loss - v.noise_loss
            } else {
                0
            })
            &&& told.delay == v.delay.state
            &&& told.trend == delay::laws::frame::gained(v.delay)
        }),
{
    laws::lemma_measured(v, s);
    laws::lemma_rules_keep_the_measurements(v, s);
    assert(v.measured(s).last.trend == delay::laws::frame::gained(v.delay)) by {
        reveal(ControlView::measured);
        delay::laws::frame::law_what_is_published(v.delay, 0);
        let deltas = if v.delay.num_deltas < 60 {
            v.delay.num_deltas as int
        } else {
            60
        };
        delay::lemma_modified_bound(v.delay.trend, deltas);
    }
    let (l, t) = (s.lost as int, s.total());
    if t > 0 {
        let top = l * 1_000_000_000 + t / 2;
        let q = top / t;
        vstd::arithmetic::div_mod::lemma_fundamental_div_mod(top, t);
        assert(-t <= 2 * (q * t - l * 1_000_000_000) <= t) by (nonlinear_arith)
            requires
                top == t * q + top % t,
                0 <= top % t < t,
                top == l * 1_000_000_000 + t / 2,
                t > 0,
        ;
    } else {
        assert(after(v, s).last.loss * t == 0) by (nonlinear_arith)
            requires
                t == 0,
        ;
    }
}

/// `low` is the lowest RTT known: that of the samples that count and of the baseline before, or 0
/// where there is none.
pub open spec fn is_lowest(low: u64, base: u64, seen: Seq<u64>) -> bool {
    &&& base > 0 ==> 0 < low <= base
    &&& forall|i: int| 0 <= i < seen.len() ==> 0 < low <= #[trigger] seen[i]
    &&& low == 0 || low == base || seen.contains(low)
}

proof fn lemma_run_base(samples: Seq<u64>, base: u64, last: u64, low: u64)
    requires
        is_lowest(low, base, laws::positive(samples)),
    ensures
        rules::rtt_run(samples, base, last).base == low,
        rules::rtt_run(samples, base, last).last == (if laws::positive(samples).len() > 0 {
            laws::positive(samples).last()
        } else {
            last
        }),
{
    lemma_run_is_lowest(samples, base, last);
    let r = rules::rtt_run(samples, base, last).base;
    let seen = laws::positive(samples);
    if low != r {
        if low != 0 && low != base {
            let i = choose|i: int| 0 <= i < seen.len() && seen[i] == low;
            assert(r <= seen[i]);
        }
        if r != 0 && r != base {
            let i = choose|i: int| 0 <= i < seen.len() && seen[i] == r;
            assert(low <= seen[i]);
        }
        if low == 0 && r != 0 && seen.len() > 0 {
            assert(0 < low <= seen[0]);
        }
        if r == 0 && low != 0 && seen.len() > 0 {
            assert(0 < r <= seen[0]);
        }
    }
}

proof fn lemma_run_is_lowest(samples: Seq<u64>, base: u64, last: u64)
    ensures
        is_lowest(rules::rtt_run(samples, base, last).base, base, laws::positive(samples)),
        rules::rtt_run(samples, base, last).last == (if laws::positive(samples).len() > 0 {
            laws::positive(samples).last()
        } else {
            last
        }),
    decreases samples.len(),
{
    reveal(Seq::filter);
    let seen = laws::positive(samples);
    if samples.len() > 0 {
        let before = samples.drop_last();
        lemma_run_is_lowest(before, base, last);
        let earlier = laws::positive(before);
        let b = rules::rtt_run(before, base, last).base;
        let r = rules::rtt_run(samples, base, last).base;
        let x = samples.last();
        if x > 0 {
            assert(seen =~= earlier.push(x));
            assert(seen[seen.len() - 1] == x);
            assert forall|i: int| 0 <= i < seen.len() implies 0 < r <= #[trigger] seen[i] by {
                if i < earlier.len() {
                    assert(seen[i] == earlier[i]);
                    assert(0 < b <= earlier[i]);
                }
            }
            if r == b && r != 0 && r != base {
                let i = choose|i: int| 0 <= i < earlier.len() && earlier[i] == b;
                assert(seen[i] == b);
            }
        } else {
            assert(seen =~= earlier);
        }
    } else {
        assert(seen =~= samples);
    }
}

/// The steps from one RTT to the next; the first is from the last RTT before, where there is one.
pub open spec fn steps(before: u64, seen: Seq<u64>) -> int
    decreases seen.len(),
{
    if seen.len() == 0 {
        0
    } else if seen.len() == 1 {
        if before > 0 {
            apart(before, seen[0])
        } else {
            0
        }
    } else {
        steps(before, seen.drop_last()) + apart(seen[seen.len() - 2], seen.last())
    }
}

/// How far apart two RTTs are.
pub open spec fn apart(a: u64, b: u64) -> int {
    if a <= b {
        b - a
    } else {
        a - b
    }
}

proof fn lemma_run_steps(samples: Seq<u64>, base: u64, last: u64)
    ensures
        rules::rtt_run(samples, base, last).jitter_sum == steps(last, laws::positive(samples)),
        rules::rtt_run(samples, base, last).jitter_n == laws::positive(samples).len() - (if last > 0
            || laws::positive(samples).len() == 0 {
            0int
        } else {
            1
        }),
        0 <= steps(last, laws::positive(samples)) <= laws::positive(samples).len() * u64::MAX,
        rules::rtt_run(samples, base, last).jitter_n == 0 ==> steps(last, laws::positive(samples))
            == 0,
        0 <= rules::rtt_run(samples, base, last).jitter_sum <= rules::rtt_run(
            samples,
            base,
            last,
        ).jitter_n * u64::MAX,
    decreases samples.len(),
{
    reveal(Seq::filter);
    lemma_run_is_lowest(samples, base, last);
    if samples.len() > 0 {
        let before = samples.drop_last();
        lemma_run_steps(before, base, last);
        lemma_run_is_lowest(before, base, last);
        let earlier = laws::positive(before);
        if samples.last() > 0 {
            let seen = laws::positive(samples);
            assert(seen =~= earlier.push(samples.last()));
            assert(seen.drop_last() =~= earlier);
            if earlier.len() > 0 {
                assert(seen[seen.len() - 2] == earlier.last());
                assert(earlier.last() > 0) by {
                    let r = rules::rtt_run(before, base, last).base;
                    assert(0 < r <= earlier[earlier.len() - 1]);
                }
            }
        } else {
            assert(laws::positive(samples) =~= earlier);
        }
    } else {
        assert(laws::positive(samples) =~= samples);
    }
}

/// The baseline is the lowest RTT known, and whenever the window's RTT is above that, however far,
/// it moves up a fiftieth of the gap. What is left of the gap is the excess.
pub proof fn law_the_baseline_follows_slowly(v: ControlView, s: SampleView, low: u64)
    requires
        laws::takes(v, s),
        is_lowest(low, v.rtt_base, laws::positive(s.rtt_us)),
    ensures
        ({
            let t = after(v, s);
            let rtt = t.last.rtt_us;
            &&& low == 0 || rtt <= low ==> t.rtt_base == low && t.last.excess_us == 0
            &&& low > 0 && rtt > low ==> {
                &&& t.rtt_base == low + (rtt - low) / 50
                &&& t.last.excess_us == (rtt - low) - (rtt - low) / 50
            }
        }),
{
    laws::lemma_rules_keep_the_measurements(v, s);
    lemma_run_base(s.rtt_us, v.rtt_base, v.rtt_last, low);
    laws::lemma_measured_rtt(v, s);
    reveal(ControlView::measured);
}

/// The window's RTT: the mean of the samples that count; with a single one, halfway from what it
/// was (where that is known); with none, what it was. The last sample is remembered.
pub proof fn law_the_rtt_of_a_window(v: ControlView, s: SampleView)
    requires
        laws::takes(v, s),
    ensures
        ({
            let seen = laws::positive(s.rtt_us);
            let t = after(v, s);
            &&& t.rtt_ema == t.last.rtt_us
            &&& seen.len() == 0 ==> t.last.rtt_us == v.rtt_ema && t.rtt_last == v.rtt_last
            &&& seen.len() == 1 ==> t.last.rtt_us == (if v.rtt_ema == 0 {
                seen[0] as int
            } else {
                (v.rtt_ema + seen[0]) / 2
            })
            &&& seen.len() >= 2 ==> t.last.rtt_us == laws::sum_of(seen) / seen.len() as int
            &&& seen.len() >= 1 ==> t.rtt_last == seen.last()
        }),
{
    laws::lemma_rules_keep_the_measurements(v, s);
    laws::lemma_measured_rtt(v, s);
    lemma_run_is_lowest(s.rtt_us, v.rtt_base, v.rtt_last);
    laws::lemma_zeros_do_not_count(s.rtt_us, v.rtt_base, v.rtt_last);
    reveal(ControlView::measured);
    let seen = laws::positive(s.rtt_us);
    if seen.len() == 1 {
        assert(seen.drop_last() =~= Seq::empty());
        assert(laws::sum_of(seen.drop_last()) == 0);
        assert(laws::sum_of(seen) == seen[0]);
    }
}

/// The jitter is the mean step from one RTT to the next.
pub proof fn law_jitter_is_the_mean_step(v: ControlView, s: SampleView)
    requires
        laws::takes(v, s),
    ensures
        ({
            let seen = laws::positive(s.rtt_us);
            let n = if v.rtt_last > 0 {
                seen.len() as int
            } else {
                seen.len() - 1
            };
            after(v, s).last.jitter_us == (if seen.len() == 0 || n == 0 {
                0
            } else {
                steps(v.rtt_last, seen) / n
            })
        }),
{
    laws::lemma_rules_keep_the_measurements(v, s);
    lemma_run_steps(s.rtt_us, v.rtt_base, v.rtt_last);
    reveal(ControlView::measured);
    let run = rules::rtt_run(s.rtt_us, v.rtt_base, v.rtt_last);
    if run.jitter_n > 0 {
        let (sum, n) = (run.jitter_sum, run.jitter_n as int);
        assert(0 <= sum / n <= u64::MAX) by (nonlinear_arith)
            requires
                0 <= sum <= n * u64::MAX,
                n > 0,
        ;
    }
}

/// A window whose RTT samples are all the same.
pub open spec fn steady(s: SampleView, rtt: u64) -> bool {
    &&& laws::positive(s.rtt_us).len() >= 2
    &&& forall|i: int|
        0 <= i < laws::positive(s.rtt_us).len() ==> #[trigger] laws::positive(s.rtt_us)[i] == rtt
}

proof fn lemma_sum_of_same(seen: Seq<u64>, rtt: u64)
    requires
        forall|i: int| 0 <= i < seen.len() ==> #[trigger] seen[i] == rtt,
    ensures
        laws::sum_of(seen) == seen.len() * rtt,
    decreases seen.len(),
{
    if seen.len() > 0 {
        let before = seen.drop_last();
        assert forall|i: int| 0 <= i < before.len() implies #[trigger] before[i] == rtt by {
            assert(before[i] == seen[i]);
        }
        lemma_sum_of_same(before, rtt);
        assert(seen[seen.len() - 1] == rtt);
        assert(seen.len() * rtt == before.len() * rtt + rtt) by (nonlinear_arith)
            requires
                seen.len() == before.len() + 1,
        ;
    } else {
        assert(seen.len() * rtt == 0) by (nonlinear_arith)
            requires
                seen.len() == 0,
        ;
    }
}

proof fn lemma_steady_window(v: ControlView, s: SampleView, rtt: u64)
    requires
        laws::takes(v, s),
        steady(s, rtt),
        0 < v.rtt_base <= rtt,
    ensures
        after(v, s).last.rtt_us == rtt,
        after(v, s).rtt_base == v.rtt_base + (rtt - v.rtt_base) / 50,
        after(v, s).last.excess_us == rtt - after(v, s).rtt_base,
{
    let seen = laws::positive(s.rtt_us);
    lemma_sum_of_same(seen, rtt);
    let n = seen.len() as int;
    assert((n * rtt) / n == rtt) by (nonlinear_arith)
        requires
            n > 0,
    ;
    law_the_rtt_of_a_window(v, s);
    law_the_baseline_follows_slowly(v, s, v.rtt_base);
}

/// A path whose floor moved up for good stops looking bloated: over a run of windows that all
/// show the same RTT the excess shrinks by 2 % a window, and after `n` of them it is under 25 ms
/// if the gap was under 25 ms + `n` · 0.5 ms.
pub proof fn law_a_moved_floor_stops_looking_bloated(
    v: ControlView,
    samples: Seq<SampleView>,
    rtt: u64,
)
    requires
        laws::takes_all(v, samples),
        samples.len() > 0,
        forall|i: int| 0 <= i < samples.len() ==> steady(#[trigger] samples[i], rtt),
        0 < v.rtt_base <= rtt,
    ensures
        ({
            let before = laws::after_windows(v, samples.drop_last());
            let t = laws::after_windows(v, samples);
            let gap = rtt - before.rtt_base;
            &&& v.rtt_base <= before.rtt_base <= t.rtt_base <= rtt
            &&& t.last.excess_us == gap - gap / 50
            &&& rtt - v.rtt_base < 25_000 + 500 * samples.len() ==> t.last.excess_us < 25_000
        }),
{
    let before = samples.drop_last();
    let n = samples.len() as int;
    assert forall|i: int| 0 <= i < before.len() implies (#[trigger] before[i]).total()
        <= u32::MAX by {
        assert(before[i] == samples[i]);
    }
    assert forall|i: int| 0 <= i < before.len() implies steady(#[trigger] before[i], rtt) by {
        assert(before[i] == samples[i]);
    }
    laws::law_limits_hold_over_any_run(v, before);
    assert(samples[n - 1].total() <= u32::MAX && steady(samples[n - 1], rtt));
    lemma_gap_shrinks(v, before, rtt);
    let w = laws::after_windows(v, before);
    lemma_steady_window(w, samples.last(), rtt);
    lemma_gap_shrinks(v, samples, rtt);
}

proof fn lemma_gap_shrinks(v: ControlView, samples: Seq<SampleView>, rtt: u64)
    requires
        laws::takes_all(v, samples),
        forall|i: int| 0 <= i < samples.len() ==> steady(#[trigger] samples[i], rtt),
        0 < v.rtt_base <= rtt,
    ensures
        ({
            let t = laws::after_windows(v, samples);
            &&& v.rtt_base <= t.rtt_base <= rtt
            &&& rtt - t.rtt_base < 25_000 || rtt - t.rtt_base <= rtt - v.rtt_base - 500
                * samples.len()
            &&& samples.len() > 0 ==> t.last.excess_us == rtt - t.rtt_base
        }),
    decreases samples.len(),
{
    if samples.len() > 0 {
        let before = samples.drop_last();
        let n = samples.len() as int;
        assert forall|i: int| 0 <= i < before.len() implies (#[trigger] before[i]).total()
            <= u32::MAX by {
            assert(before[i] == samples[i]);
        }
        assert forall|i: int| 0 <= i < before.len() implies steady(#[trigger] before[i], rtt) by {
            assert(before[i] == samples[i]);
        }
        lemma_gap_shrinks(v, before, rtt);
        laws::law_limits_hold_over_any_run(v, before);
        assert(samples[n - 1].total() <= u32::MAX && steady(samples[n - 1], rtt));
        lemma_steady_window(laws::after_windows(v, before), samples.last(), rtt);
    }
}

} // verus!
