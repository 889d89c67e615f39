use pulsar_core::adapt::delay::{DelayState, Trendline, MAX_THRESHOLD, MIN_THRESHOLD};

/// Milliseconds as whole microseconds.
fn us(ms: f64) -> u64 {
    (ms * 1000.0).round() as u64
}

/// Feed `n` frames at `fps` with per-frame arrival lag growing by `growth_ms` per frame (0 = an
/// ideal path). Returns the final state.
fn feed(t: &mut Trendline, n: usize, fps: f64, growth_ms: f64, start_ms: f64) -> DelayState {
    let frame_ms = 1000.0 / fps;
    let mut st = DelayState::Normal;
    for i in 0..n {
        let ts = ((start_ms + i as f64 * frame_ms) * 90.0) as u32;
        let arrival = start_ms + i as f64 * frame_ms + 20.0 + i as f64 * growth_ms;
        st = t.on_frame(ts, us(arrival));
    }
    st
}

#[test]
fn ideal_path_stays_normal() {
    let mut t = Trendline::new();
    assert_eq!(feed(&mut t, 200, 60.0, 0.0, 0.0), DelayState::Normal);
    assert!(t.trend().abs() < 1_000_000, "{}", t.trend());
}

#[test]
fn growing_queue_is_detected_as_overuse_before_any_loss() {
    let mut t = Trendline::new();
    feed(&mut t, 60, 60.0, 0.0, 0.0);
    // From now on every frame arrives 1 ms later than the previous one (queue filling at 60 ms
    // per second — a 2 Mbit pipe fed 2.1 Mbit).
    let st = feed(&mut t, 60, 60.0, 1.0, 1000.0);
    assert_eq!(st, DelayState::Overuse, "trend={} thr={}", t.trend(), t.threshold_ms());
    assert!(t.overuse_ms(us(2000.0)) > 0);
}

#[test]
fn draining_queue_is_underuse_then_normal() {
    let mut t = Trendline::new();
    feed(&mut t, 60, 60.0, 1.0, 0.0);
    // Now frames arrive progressively earlier (queue draining).
    let mut st = DelayState::Normal;
    for i in 0..40 {
        let base = 1000.0 + i as f64 * 16.667;
        let ts = (base * 90.0) as u32;
        st = t.on_frame(ts, us(base + 80.0 - i as f64 * 1.5));
    }
    assert_eq!(st, DelayState::Underuse, "trend={}", t.trend());
    assert_eq!(feed(&mut t, 120, 60.0, 0.0, 2000.0), DelayState::Normal);
}

#[test]
fn timestamp_wraparound_and_reorders_do_not_poison_the_estimate() {
    let mut t = Trendline::new();
    // Start just below the 32-bit wrap.
    let start_ts: u32 = u32::MAX - 90 * 100;
    for i in 0..80u32 {
        let ts = start_ts.wrapping_add(i * 1500); // 60 fps in 90 kHz ticks
        t.on_frame(ts, us(i as f64 * 16.667 + 10.0));
    }
    assert_eq!(t.state(), DelayState::Normal, "trend={}", t.trend());
    // A duplicated / reordered frame is ignored, not counted as a huge delta.
    let before = t.trend();
    t.on_frame(start_ts, us(2000.0));
    assert_eq!(t.trend(), before);
}

#[test]
fn threshold_adapts_within_bounds() {
    let mut t = Trendline::new();
    feed(&mut t, 400, 60.0, 0.05, 0.0);
    let th = t.threshold_ms();
    assert!((MIN_THRESHOLD..=MAX_THRESHOLD).contains(&(th as i128)), "{th}");
}

#[test]
fn a_wrapped_clock_gives_the_same_estimate() {
    let mut a = Trendline::new();
    let mut b = Trendline::new();
    for i in 0..100u32 {
        let arrival = us(i as f64 * 17.0 + (i % 7) as f64);
        assert_eq!(
            a.on_frame(i * 1500, arrival),
            b.on_frame((u32::MAX - 70_000).wrapping_add(i * 1500), arrival)
        );
    }
    assert_eq!(a.trend(), b.trend());
    assert_eq!(a.threshold_ms(), b.threshold_ms());
}

#[test]
fn a_reset_estimator_is_a_fresh_one() {
    let mut t = Trendline::default();
    feed(&mut t, 60, 60.0, 0.0, 0.0);
    feed(&mut t, 60, 60.0, 1.0, 1000.0);
    assert_eq!(t.state(), DelayState::Overuse);
    t.reset();
    assert_eq!(t.state(), DelayState::Normal);
    assert_eq!(t.trend(), 0);
    assert_eq!(t.threshold_ms(), 12_500_000);
    assert_eq!(t.overuse_ms(us(5000.0)), 0);
}

#[test]
fn any_clock_gives_the_same_estimate() {
    // Since boot, since the epoch, and near the end of the counter.
    for start in [0u64, 1_790_000_000_000_000, u64::MAX - 10_000_000] {
        let mut a = Trendline::new();
        let mut b = Trendline::new();
        for i in 0..140u64 {
            let late = if i < 60 { 0 } else { (i - 60) * 1000 };
            let arrival = i * 16_667 + late;
            let ts = (i * 1500) as u32;
            assert_eq!(a.on_frame(ts, arrival), b.on_frame(ts, start + arrival));
            assert_eq!(a.trend(), b.trend());
            assert_eq!(a.threshold_ms(), b.threshold_ms());
            assert_eq!(a.overuse_ms(arrival + 700), b.overuse_ms(start + arrival + 700));
        }
        assert_eq!(b.state(), DelayState::Overuse);
    }
}

#[test]
fn frames_that_give_no_delta_change_nothing() {
    let mut t = Trendline::new();
    feed(&mut t, 60, 60.0, 0.0, 0.0);
    feed(&mut t, 60, 60.0, 1.0, 1000.0);
    let seen = |t: &Trendline| {
        (t.state(), t.trend(), t.threshold_ms(), t.overuse_ms(5_000_000), t.overuse_ms(u64::MAX))
    };
    let before = seen(&t);
    // A clock jump ahead, a reordered frame, an arrival before the last one, a duplicate.
    for (ts, arrival) in [(2_000_000, u64::MAX), (5, u64::MAX), (6, 3), (6, 4)] {
        assert_eq!(t.on_frame(ts, arrival), before.0);
        assert_eq!(seen(&t), before);
    }
}

#[test]
fn overuse_is_timed_to_the_microsecond() {
    let mut t = Trendline::new();
    let mut declared = None;
    for i in 0..140u64 {
        let late = if i < 60 { 0 } else { (i - 60) * 1000 };
        let arrival = i * 16_667 + late;
        if t.on_frame((i * 1500) as u32, arrival) == DelayState::Overuse && declared.is_none() {
            declared = Some(arrival);
        }
    }
    let at = declared.unwrap();
    assert_eq!(t.overuse_ms(at + 1_234_567), 1_234_567);
    assert_eq!(t.overuse_ms(at - 1), 0);
}

#[test]
fn a_jump_of_any_size_is_survived() {
    let mut t = Trendline::new();
    for i in 0..200u64 {
        // Usable frames whose arrivals leap to the end of the clock and start over.
        t.on_frame((i * 1500) as u32, if i % 3 == 2 { u64::MAX } else { i });
        assert!(MIN_THRESHOLD <= t.threshold_ms() as i128);
    }
}
