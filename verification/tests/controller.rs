use pulsar_core::adapt::rules::{LAST_GOOD_WINDOWS, PROBE_WAIT_MIN};
use pulsar_core::adapt::{
    codec_from_wire, Config, Controller, Decision, DelayState, Sample, FLOOR_KBPS,
};
use pulsar_core::pipeline::VCodec;
use pulsar_core::service::LossRecovery;

/// Milliseconds as whole microseconds.
fn us(ms: f64) -> u64 {
    (ms * 1000.0).round() as u64
}

fn cfg(cap: u32, ir: bool) -> Config {
    let mut c = Config::new(VCodec::H264, cap);
    c.ir_capable = ir;
    c
}

fn win(recv: u32, lost: u32, rtt: f64) -> Sample {
    Sample { recv, lost, rtt_us: vec![us(rtt); 4], ..Default::default() }
}

/// A pipe with a hard cap: below it loss is 0 and RTT flat; above it, loss grows with the
/// overshoot and a queue adds RTT.
fn capped(rate: u32, cap: u32, base_rtt: f64) -> Sample {
    let pkts = rate / 8;
    if rate <= cap {
        win(pkts, 0, base_rtt)
    } else {
        let over = (rate - cap) as f64 / rate as f64;
        let lost = (pkts as f64 * over) as u32;
        win(pkts - lost, lost, base_rtt + 60.0 + over * 200.0)
    }
}

#[test]
fn random_loss_with_flat_link_does_not_collapse_rate_or_point() {
    let mut c = Controller::new(cfg(8000, true));
    let mut probe_downs = 0;
    let mut flipped = None;
    for w in 0..150 {
        let d = c.tick(&win(965, 35, 120.0));
        if d.reason.contains("probe down") {
            probe_downs += 1;
        }
        if d.recovery.is_some() && flipped.is_none() {
            flipped = Some(w);
        }
    }
    assert!(c.target_kbps() >= 6400, "{}", c.target_kbps());
    assert_eq!(probe_downs, 1);
    assert!(c.noise_loss() >= 25_000_000);
    assert_eq!(c.recovery(), LossRecovery::IntraRefresh);
    assert!(flipped.unwrap() <= 1);
    assert_eq!(c.point().label(), "1080p30", "8000 kbit: 1080p60 needs 8000/0.85");
}

#[test]
fn fixed_2mbit_cap_converges_to_a_clean_low_point_without_sawtooth() {
    let mut c = Controller::new(cfg(8000, false));
    let mut lossy_after_settle = 0;
    let mut point_changes_after_settle = 0;
    for w in 0..300 {
        let s = capped(c.encoder_kbps(), 1800, 20.0);
        if w >= 30 && s.lost > 0 {
            lossy_after_settle += 1;
        }
        let d = c.tick(&s);
        if w >= 30 && d.point.is_some() {
            point_changes_after_settle += 1;
        }
    }
    assert!(c.target_kbps() <= 1800 && c.target_kbps() >= 1000, "{}", c.target_kbps());
    assert!(lossy_after_settle <= 4, "{lossy_after_settle}");
    assert!(point_changes_after_settle <= 2, "{point_changes_after_settle}");
    let p = c.point();
    assert!(
        p.height <= 720 && p.fps == 30,
        "settles on a rung that is clean at ~1.5 Mbit: {}",
        p.label()
    );
    assert!(c.probe_wait() >= PROBE_WAIT_MIN * 2);
    assert_eq!(c.recovery(), LossRecovery::ShortGop);
}

#[test]
fn forced_20mbit_reaches_the_top_rung_within_30s_from_a_low_start() {
    let mut c = Config::new(VCodec::H264, 20_000);
    c.start_kbps = 3000;
    let mut c = Controller::new(c);
    assert_eq!(c.point().label(), "720p30");
    let mut top_at = None;
    for w in 0..40 {
        let d = c.tick(&win(2000, 0, 15.0));
        if let Some(p) = d.point {
            if p.label() == "1080p60" {
                top_at = Some(w);
                break;
            }
        }
    }
    assert!(matches!(top_at, Some(w) if w <= 15), "{top_at:?} target={}", c.target_kbps());
}

#[test]
fn rtt_rise_cuts_before_loss_and_the_ladder_follows() {
    let mut c = Controller::new(cfg(12_000, true));
    for _ in 0..5 {
        c.tick(&win(1500, 0, 20.0));
    }
    assert_eq!(c.point().label(), "1080p60");
    let d = c.tick(&win(1500, 0, 160.0)); // severe bloat, zero loss
    assert_eq!(d.bitrate, Some(6000), "{d:?}");
    let d = c.tick(&win(1500, 0, 160.0));
    assert_eq!(d.bitrate, Some(3000), "{d:?}");
    assert_eq!(c.point().label(), "720p30", "6000 → 1080p30 → 3000 → 720p30");
}

#[test]
fn delay_gradient_overuse_cuts_even_with_flat_rtt_and_zero_loss() {
    let mut c = Controller::new(cfg(8000, true));
    // Ideal frames, then a filling queue (each frame 1 ms later than the last).
    for i in 0..60 {
        c.on_frame((i as f64 * 16.667 * 90.0) as u32, us(i as f64 * 16.667 + 20.0));
    }
    assert_eq!(c.tick(&win(1000, 0, 20.0)).bitrate, None);
    for i in 60..130 {
        c.on_frame(
            (i as f64 * 16.667 * 90.0) as u32,
            us(i as f64 * 16.667 + 20.0 + (i - 60) as f64),
        );
    }
    assert_eq!(c.last().delay, DelayState::Normal, "state is sampled at the tick");
    let d = c.tick(&win(1000, 0, 20.0));
    assert_eq!(d.bitrate, Some(6800), "×0.85 on overuse: {d:?}");
    assert_eq!(c.last().delay, DelayState::Overuse);
}

#[test]
fn fast_reflex_cuts_between_ticks_on_sustained_overuse() {
    let mut c = Controller::new(cfg(8000, true));
    for i in 0..60 {
        c.on_frame((i as f64 * 16.667 * 90.0) as u32, us(i as f64 * 16.667 + 20.0));
    }
    let mut cut = None;
    for i in 60..200 {
        let t = i as f64 * 16.667;
        c.on_frame((t * 90.0) as u32, us(t + 20.0 + (i - 60) as f64 * 1.5));
        if let Some(d) = c.poll_fast(us(t)) {
            cut = Some((i, d));
            break;
        }
    }
    let (i, d) = cut.expect("a sustained overuse must trigger the fast cut");
    assert_eq!(d.bitrate, Some(6800), "{d:?}");
    // And not again within the cooldown.
    assert!(c.poll_fast(us(i as f64 * 16.667 + 100.0)).is_none());
}

#[test]
fn fec_share_is_deducted_from_the_encoder_rate() {
    let mut c = Controller::new(cfg(8000, true));
    assert_eq!(c.encoder_kbps(), 8000);
    c.set_fec_n(16);
    let d = c.tick(&win(1000, 0, 20.0));
    assert_eq!(d.bitrate, Some(7529), "8000 × 16/17: {d:?}");
    assert_eq!(c.target_kbps(), 8000, "the wire target is unchanged");
}

#[test]
fn manual_point_pins_the_ladder_but_not_the_rate() {
    let mut m = cfg(8000, false);
    m.ladder = false;
    let mut c = Controller::new(m);
    let d = c.tick(&win(800, 200, 20.0));
    assert!(d.bitrate.is_some() && d.point.is_none(), "{d:?}");
    c.set_manual_point(false);
    assert_eq!(c.point().label(), "720p30", "unpinned: re-picked for the current target");
}

#[test]
fn last_good_is_remembered_after_a_clean_half_minute() {
    let mut c = Controller::new(cfg(8000, false));
    assert_eq!(c.last_good_kbps(), 0);
    for _ in 0..LAST_GOOD_WINDOWS {
        c.tick(&win(1000, 0, 20.0));
    }
    assert_eq!(c.last_good_kbps(), 8000);
}

#[test]
fn never_below_floor_and_never_above_cap() {
    let mut c = Controller::new(cfg(3000, false));
    for _ in 0..20 {
        c.tick(&win(500, 500, 300.0));
    }
    assert_eq!(c.target_kbps(), FLOOR_KBPS);
    assert_eq!(c.point().label(), "360p30");
    for _ in 0..2000 {
        c.tick(&win(1000, 0, 20.0));
    }
    assert!(c.target_kbps() <= 3000);
}

#[test]
fn codec_ids_map_to_ladders() {
    assert_eq!(codec_from_wire("h265"), VCodec::H265);
    assert_eq!(codec_from_wire("HEVC"), VCodec::H265);
    assert_eq!(codec_from_wire("av1"), VCodec::Av1);
    assert_eq!(codec_from_wire("h264"), VCodec::H264);
    assert_eq!(codec_from_wire("anything"), VCodec::H264);
}

// ── Further cases ──

#[test]
fn codec_ids_may_be_spaced_and_capitalised() {
    assert_eq!(codec_from_wire("  H265\t"), VCodec::H265);
    assert_eq!(codec_from_wire("\u{a0}Av1\n"), VCodec::Av1);
    assert_eq!(codec_from_wire("h 265"), VCodec::H264);
    assert_eq!(codec_from_wire(""), VCodec::H264);
}

#[test]
fn a_fresh_controller_is_at_its_start() {
    let mut k = cfg(20_000, true);
    k.start_kbps = 100;
    let c = Controller::new(k);
    assert_eq!(c.target_kbps(), FLOOR_KBPS);
    assert_eq!(c.ceiling(), 20_000);
    assert_eq!(c.probe_wait(), PROBE_WAIT_MIN);
    assert_eq!(c.noise_loss(), 0);
    assert_eq!(c.windows(), 0);
    assert_eq!(c.recovery(), LossRecovery::Normal);
    assert_eq!(c.preferred_recovery(), LossRecovery::IntraRefresh);
    assert_eq!(c.points().len(), 6);
    assert_eq!(Controller::new(cfg(10, false)).target_kbps(), FLOOR_KBPS);
    k.start_kbps = 30_000;
    assert_eq!(Controller::new(k).target_kbps(), 20_000);
}

#[test]
fn signals_are_exact() {
    let mut c = Controller::new(cfg(8000, false));
    let s = Sample {
        recv: 997,
        lost: 3,
        rtt_us: vec![20_000, 0, 22_000, 27_000],
        ..Default::default()
    };
    c.tick(&s);
    let l = c.last();
    assert_eq!(l.loss, 3_000_000);
    assert_eq!(l.eff_loss, 3_000_000);
    assert_eq!(l.rtt_us, 23_000);
    // The baseline moved 2 % of the 3 ms gap.
    assert_eq!(l.excess_us, 23_000 - 20_060);
    assert_eq!(l.jitter_us, 3_500);
    assert_eq!(l.delay, DelayState::Normal);
    assert_eq!(l.trend, 0);
    // A single sample is blended with the window before.
    c.tick(&Sample { recv: 1000, rtt_us: vec![43_000], ..Default::default() });
    assert_eq!(c.last().rtt_us, 33_000);
    assert_eq!(c.last().jitter_us, 16_000);
    // No samples: the values stay.
    c.tick(&Sample { recv: 1000, ..Default::default() });
    assert_eq!(c.last().rtt_us, 33_000);
    assert_eq!(c.last().jitter_us, 0);
    assert_eq!(c.windows(), 3);
}

#[test]
fn loss_is_rounded_to_the_nearest_billionth() {
    let mut c = Controller::new(cfg(8000, false));
    c.tick(&win(2, 1, 20.0));
    assert_eq!(c.last().loss, 333_333_333);
    c.tick(&win(1, 2, 20.0));
    assert_eq!(c.last().loss, 666_666_667);
    c.tick(&win(0, 0, 20.0));
    assert_eq!(c.last().loss, 0);
}

#[test]
fn an_empty_window_holds() {
    let mut c = Controller::new(cfg(8000, false));
    let d = c.tick(&Sample::default());
    assert!(!d.is_change());
    assert_eq!(d, Decision::default());
    assert_eq!(c.target_kbps(), 8000);
}

#[test]
fn every_rule_gives_its_reason() {
    // Severe loss halves.
    let mut c = Controller::new(cfg(8000, false));
    let d = c.tick(&win(800, 200, 20.0));
    assert_eq!(d.reason, "severe loss → halve");
    assert_eq!(d.recovery, Some(LossRecovery::ShortGop));
    assert_eq!((c.target_kbps(), c.ceiling()), (4000, 6800));

    // RTT bloat, mild and severe.
    let mut c = Controller::new(cfg(8000, false));
    c.tick(&win(1000, 0, 20.0));
    assert_eq!(c.tick(&win(1000, 0, 60.0)).reason, "rtt bloat → ×0.7");
    assert_eq!(c.target_kbps(), 5600);
    assert_eq!(c.tick(&win(1000, 0, 200.0)).reason, "rtt bloat severe → halve");
    assert_eq!(c.target_kbps(), 2800);

    // Sustained loss on a flat link: probed; the loss does not follow: noise.
    let mut c = Controller::new(cfg(8000, false));
    c.tick(&win(950, 50, 20.0));
    let d = c.tick(&win(950, 50, 20.0));
    assert_eq!(d.reason, "sustained loss, flat link → probe down");
    assert_eq!((c.target_kbps(), c.ceiling()), (6400, 8000));
    c.tick(&win(950, 50, 20.0));
    let d = c.tick(&win(950, 50, 20.0));
    assert_eq!(d.reason, "sustained loss did not follow the rate — learned as noise, restored");
    assert_eq!((c.target_kbps(), c.noise_loss()), (8000, 50_000_000));
    assert_eq!(d.bitrate, Some(8000));

    // … the loss follows: the lower rate stays, the higher is punished.
    let mut c = Controller::new(cfg(8000, false));
    c.tick(&win(950, 50, 20.0));
    c.tick(&win(950, 50, 20.0));
    c.tick(&win(1000, 0, 20.0));
    let d = c.tick(&win(1000, 0, 20.0));
    assert_eq!(d.reason, "sustained loss followed the rate — kept the lower rate");
    assert_eq!((c.target_kbps(), c.ceiling()), (6400, 6800));

    // … the parity changed meanwhile: inconclusive.
    let mut c = Controller::new(cfg(8000, false));
    c.tick(&win(950, 50, 20.0));
    c.tick(&win(950, 50, 20.0));
    c.set_fec_n(8);
    c.tick(&win(1000, 0, 20.0));
    let d = c.tick(&win(1000, 0, 20.0));
    assert_eq!(d.reason, "probe down inconclusive (fec changed) — restored");
    assert_eq!(c.target_kbps(), 8000);

    // Sustained loss with a queued link.
    let mut c = Controller::new(cfg(8000, false));
    c.tick(&win(1000, 0, 20.0));
    c.tick(&win(950, 50, 50.0));
    let d = c.tick(&win(950, 50, 51.0));
    assert_eq!(d.reason, "sustained loss with a queued link → ×0.7");
    assert_eq!(c.target_kbps(), 5600);

    // Steady mild loss becomes noise.
    let mut c = Controller::new(cfg(8000, false));
    for _ in 0..4 {
        assert!(c.tick(&win(990, 10, 20.0)).reason.is_empty() || c.windows() == 2);
    }
    let d = c.tick(&win(990, 10, 20.0));
    assert_eq!(d.reason, "steady mild loss on a flat link — learned as noise");
    assert_eq!(c.noise_loss(), 10_000_000);

    // Parity alone changes the encoder's part.
    let mut c = Controller::new(cfg(8000, false));
    c.set_fec_overhead(250_000_000);
    let d = c.tick(&win(1000, 0, 20.0));
    assert_eq!((d.reason, d.bitrate), ("fec share changed", Some(6400)));
    assert_eq!(c.fec_n(), 0);
    c.set_fec_n(4);
    assert_eq!(c.fec_n(), 4);
}

#[test]
fn startup_climbs_by_half_then_by_quarters() {
    let mut k = cfg(20_000, false);
    k.start_kbps = 1000;
    k.startup_windows = 2;
    let mut c = Controller::new(k);
    let d = c.tick(&win(1000, 0, 20.0));
    assert_eq!((d.reason, c.target_kbps()), ("startup probe ×1.5", 1500));
    c.tick(&win(1000, 0, 20.0));
    assert_eq!(c.target_kbps(), 2250);
    for _ in 0..9 {
        c.tick(&win(1000, 0, 20.0));
        assert_eq!(c.target_kbps(), 2250);
    }
    let d = c.tick(&win(1000, 0, 20.0));
    assert_eq!((d.reason, c.target_kbps()), ("clean → climb toward ceiling", 2812));
}

#[test]
fn going_past_the_ceiling_is_a_probe_and_a_failed_one_doubles_the_wait() {
    let mut c = Controller::new(cfg(8000, false));
    c.tick(&win(800, 200, 20.0));
    assert_eq!((c.target_kbps(), c.ceiling()), (4000, 6800));
    let mut probed_at = None;
    for w in 0..200 {
        let d = c.tick(&win(1000, 0, 20.0));
        assert!(c.target_kbps() <= 6800 || d.reason.contains("probe +10%"));
        if d.reason.contains("probe +10%") {
            probed_at = Some(w);
            break;
        }
    }
    // 4000 → 5000 → 6250 → 6800 (ten windows each), then thirty windows at the ceiling.
    assert_eq!(probed_at, Some(59));
    assert_eq!((c.target_kbps(), c.ceiling()), (7480, 7480));
    c.tick(&win(800, 200, 20.0));
    assert_eq!(c.probe_wait(), 2 * PROBE_WAIT_MIN);
    assert_eq!(c.ceiling(), 6358);
}

#[test]
fn a_probe_that_survives_halves_the_wait_again() {
    let mut c = Controller::new(cfg(100_000, false));
    let mut wait = PROBE_WAIT_MIN;
    for _ in 0..3 {
        c.tick(&win(800, 200, 20.0));
        while !c.tick(&win(1000, 0, 20.0)).reason.contains("probe +10%") {}
        c.tick(&win(800, 200, 20.0));
        wait *= 2;
        assert_eq!(c.probe_wait(), wait);
    }
    while !c.tick(&win(1000, 0, 20.0)).reason.contains("probe +10%") {}
    for _ in 0..10 {
        assert_eq!(c.probe_wait(), wait);
        c.tick(&win(1000, 0, 20.0));
    }
    assert_eq!(c.probe_wait(), wait / 2);
}

#[test]
fn the_recovery_mode_flips_once() {
    let mut c = Controller::new(cfg(8000, true));
    assert_eq!(c.tick(&win(994, 6, 20.0)).recovery, None);
    assert_eq!(c.tick(&win(994, 6, 20.0)).recovery, Some(LossRecovery::IntraRefresh));
    for _ in 0..20 {
        assert_eq!(c.tick(&win(900, 100, 20.0)).recovery, None);
        assert_eq!(c.tick(&win(1000, 0, 20.0)).recovery, None);
    }
    assert_eq!(c.recovery(), LossRecovery::IntraRefresh);
}

#[test]
fn the_target_can_be_pinned_within_the_limits() {
    let mut c = Controller::new(cfg(8000, false));
    c.set_target(5000);
    assert_eq!((c.target_kbps(), c.encoder_kbps()), (5000, 5000));
    c.set_target(9000);
    assert_eq!(c.target_kbps(), 8000);
    c.set_target(1);
    assert_eq!(c.target_kbps(), FLOOR_KBPS);
    c.set_fec_n(5);
    c.set_target(6000);
    assert_eq!(c.encoder_kbps(), 5000);
}

#[test]
fn point_changes_are_two_windows_apart_unless_severe() {
    let mut k = cfg(12_000, false);
    k.startup_windows = 0;
    let mut c = Controller::new(k);
    assert_eq!(c.point().label(), "1080p60");
    c.set_target(7000);
    assert_eq!(c.tick(&win(1000, 0, 20.0)).point.map(|p| p.label()), Some("1080p30".to_string()));
    // 4500 is under 5000 but not under 70 % of it: wait for the second window.
    c.set_target(4500);
    assert_eq!(c.tick(&win(1000, 0, 20.0)).point, None);
    assert_eq!(c.tick(&win(1000, 0, 20.0)).point.map(|p| p.label()), Some("720p30".to_string()));
    // 1000 is under 70 % of 2500: at once.
    c.set_target(1000);
    let d = c.tick(&win(1000, 0, 20.0));
    assert_eq!(d.point.map(|p| p.label()), Some("360p30".to_string()));
    assert_eq!(d.reason, "target under the point's minimum → step down");
}

#[test]
fn a_stream_restart_forgets_the_delay() {
    let mut c = Controller::new(cfg(8000, false));
    for i in 0..130 {
        let lag = if i < 60 { 0.0 } else { (i - 60) as f64 };
        c.on_frame((i as f64 * 16.667 * 90.0) as u32, us(i as f64 * 16.667 + 20.0 + lag));
    }
    c.on_stream_restart();
    assert_eq!(c.tick(&win(1000, 0, 20.0)).bitrate, None);
    assert_eq!(c.last().delay, DelayState::Normal);
}

#[test]
fn learned_noise_no_longer_drives_the_rate() {
    let mut c = Controller::new(cfg(8000, false));
    for _ in 0..4 {
        c.tick(&win(950, 50, 20.0));
    }
    assert_eq!(c.noise_loss(), 50_000_000);
    for _ in 0..100 {
        c.tick(&win(951, 49, 20.0));
        assert_eq!(c.target_kbps(), 8000);
    }
    // A better path lowers the floor again.
    c.tick(&win(1000, 0, 20.0));
    assert_eq!(c.noise_loss(), 0);
}

#[test]
fn going_up_asks_for_headroom() {
    let mut k = cfg(5999, false);
    k.startup_windows = 0;
    k.start_kbps = 4800;
    let mut c = Controller::new(k);
    assert_eq!(c.point().label(), "720p60");
    // 1080p30 needs 5000: 5999 is just short of 1.2 times that.
    for _ in 0..60 {
        c.tick(&win(1000, 0, 20.0));
    }
    assert_eq!((c.target_kbps(), c.point().label()), (5999, "720p60".to_string()));
    k.cap_kbps = 6000;
    let mut c = Controller::new(k);
    let mut up_at = None;
    for w in 0..60 {
        let d = c.tick(&win(1000, 0, 20.0));
        if d.point.is_some() {
            assert_eq!(d.reason, "clean → climb toward ceiling");
            up_at = Some(w);
        }
    }
    // The tenth clean window brings the rate to 6000, and with it the headroom.
    assert_eq!(up_at, Some(9));
    assert_eq!(c.point().label(), "1080p30");
}

#[test]
fn no_climb_while_the_link_is_queued() {
    let mut k = cfg(20_000, false);
    k.start_kbps = 2000;
    let mut c = Controller::new(k);
    c.tick(&win(0, 0, 20.0));
    // 30 ms over the baseline: not enough to cut, too much to climb.
    for _ in 0..10 {
        c.tick(&win(1000, 0, 51.0));
        assert_eq!(c.target_kbps(), 2000);
        assert!(c.last().excess_us >= 25_000 && c.last().excess_us < 35_000);
        if c.last().excess_us < 26_000 {
            break;
        }
    }
    // Flat again.
    let mut c = Controller::new(k);
    c.tick(&win(1000, 0, 20.0));
    assert_eq!(c.target_kbps(), 3000);
}

#[test]
fn no_climb_on_overuse_even_at_the_floor() {
    let mut k = cfg(20_000, false);
    k.start_kbps = FLOOR_KBPS;
    let mut c = Controller::new(k);
    c.tick(&win(0, 0, 20.0));
    for i in 0..130 {
        let lag = if i < 60 { 0.0 } else { (i - 60) as f64 };
        c.on_frame((i as f64 * 16.667 * 90.0) as u32, us(i as f64 * 16.667 + 20.0 + lag));
    }
    // The RTT has come down by the end of the window, the gradient still says Overuse.
    let s = Sample { recv: 1000, rtt_us: vec![90_000, 90_000, 20_000], ..Default::default() };
    assert!(!c.tick(&s).is_change());
    assert_eq!(c.last().delay, DelayState::Overuse);
    assert_eq!(c.target_kbps(), FLOOR_KBPS);
}

#[test]
fn zero_rtt_samples_do_not_count() {
    let mut a = Controller::new(cfg(8000, false));
    let mut b = Controller::new(cfg(8000, false));
    for w in 0..20u64 {
        let x = 20_000 + 700 * w;
        let with = Sample { recv: 900, rtt_us: vec![0, x, 0, 0, x + 9, 0], ..Default::default() };
        let without = Sample { recv: 900, rtt_us: vec![x, x + 9], ..Default::default() };
        assert_eq!(a.tick(&with), b.tick(&without));
        assert_eq!(a.last(), b.last());
    }
    let rtt = a.last().rtt_us;
    a.tick(&Sample { recv: 900, rtt_us: vec![0, 0], ..Default::default() });
    assert_eq!((a.last().rtt_us, a.last().jitter_us), (rtt, 0));
}

/// A controller on a link whose delay keeps growing, and the clock.
fn overused(k: Config) -> (Controller, u64) {
    let mut c = Controller::new(k);
    let mut now = 0;
    for i in 0..160u64 {
        now = i * 16_667 + if i < 60 { 0 } else { (i - 60) * 1500 };
        c.on_frame((i * 1500) as u32, now);
    }
    (c, now)
}

#[test]
fn fast_cuts_are_spaced_by_the_cooldown() {
    let (mut c, now) = overused(cfg(8000, false));
    assert!(c.poll_fast(now).is_some());
    c.tick(&win(1000, 0, 20.0));
    assert!(c.poll_fast(now + 1_499_999).is_none());
    assert!(c.poll_fast(now - 1).is_none());
    assert!(c.poll_fast(now + 1_500_000).is_some());
}

#[test]
fn fast_cuts_wait_for_the_debounce_unless_severe() {
    let (mut c, now) = overused(cfg(6000, false));
    c.set_manual_point(false);
    assert_eq!(c.point().label(), "1080p30");
    // The point was just picked anew: 4250 is under its 5000, but not under 70 % of it.
    c.set_target(5000);
    let d = c.poll_fast(now).unwrap();
    assert_eq!((c.target_kbps(), d.point), (4250, None));
    // Under 70 % of what the point needs: at once.
    c.set_target(3600);
    let d = c.poll_fast(now + 1_500_000).unwrap();
    assert_eq!(d.bitrate, Some(3060));
    assert_eq!(d.point.map(|p| p.label()), Some("720p30".to_string()));
}

/// The first of sixty clean windows (counted on from `w`) that moves the point.
fn first_move(c: &mut Controller, w: u32) -> Option<u32> {
    (w..w + 60).find(|_| c.tick(&win(1000, 0, 20.0)).point.is_some())
}

#[test]
fn a_good_rate_is_earned_at_that_rate() {
    let mut k = cfg(8000, false);
    k.startup_windows = 0;
    // Fourteen clean windows at 8000 say nothing of 6000.
    let mut c = Controller::new(k);
    for _ in 0..LAST_GOOD_WINDOWS - 1 {
        c.tick(&win(1000, 0, 20.0));
    }
    c.set_target(6000);
    c.tick(&win(1000, 0, 20.0));
    assert_eq!(c.last_good_kbps(), 0);
    // Nor of 8000 once the rate has been elsewhere.
    c.set_target(8000);
    c.tick(&win(1000, 0, 20.0));
    assert_eq!(c.last_good_kbps(), 0);

    // Setting the rate that it runs at breaks nothing.
    let mut c = Controller::new(k);
    for _ in 0..LAST_GOOD_WINDOWS - 1 {
        c.tick(&win(1000, 0, 20.0));
    }
    c.set_target(8000);
    c.tick(&win(1000, 0, 20.0));
    assert_eq!(c.last_good_kbps(), 8000);
}

#[test]
fn a_good_rate_is_earned_in_a_row() {
    // One window that is not clean: mild loss, loss over 3 %, nothing received.
    for broken in [win(990, 10, 20.0), win(950, 50, 20.0), win(0, 0, 20.0)] {
        let mut c = Controller::new(cfg(8000, false));
        for _ in 0..LAST_GOOD_WINDOWS - 1 {
            c.tick(&win(1000, 0, 20.0));
        }
        c.tick(&broken);
        for _ in 0..LAST_GOOD_WINDOWS - 1 {
            c.tick(&win(1000, 0, 20.0));
            assert_eq!(c.last_good_kbps(), 0);
        }
        c.tick(&win(1000, 0, 20.0));
        assert_eq!(c.last_good_kbps(), 8000);
    }
}

#[test]
fn noise_takes_five_mild_windows_in_a_row() {
    for broken in [win(800, 200, 20.0), win(950, 50, 20.0), win(1000, 0, 20.0)] {
        let mut c = Controller::new(cfg(8000, false));
        for _ in 0..4 {
            c.tick(&win(990, 10, 20.0));
        }
        c.tick(&broken);
        for _ in 0..4 {
            c.tick(&win(990, 10, 20.0));
            assert_eq!(c.noise_loss(), 0);
        }
        c.tick(&win(990, 10, 20.0));
        assert_eq!(c.noise_loss(), 10_000_000);
    }
}

#[test]
fn a_fast_cut_restarts_the_count_of_mild_windows() {
    let (mut c, now) = overused(cfg(8000, false));
    c.on_stream_restart();
    for _ in 0..4 {
        c.tick(&win(990, 10, 20.0));
    }
    // The same link again, up to the cut.
    for i in 0..160u64 {
        let lag = if i < 60 { 0 } else { (i - 60) * 1500 };
        c.on_frame((i * 1500) as u32, now + 1_000_000 + i * 16_667 + lag);
    }
    assert!(c.poll_fast(now + 1_000_000 + 159 * 16_667 + 99 * 1500).is_some());
    c.on_stream_restart();
    c.tick(&win(990, 10, 20.0));
    assert_eq!(c.noise_loss(), 0);
}

#[test]
fn the_clean_stretch_before_going_up_is_unbroken() {
    let mut k = cfg(6000, false);
    k.startup_windows = 0;
    k.start_kbps = 4800;
    let start = || {
        let mut c = Controller::new(k);
        c.set_target(6000);
        for _ in 0..9 {
            assert_eq!(c.tick(&win(1000, 0, 20.0)).point, None);
        }
        c
    };
    assert_eq!(first_move(&mut start(), 9), Some(9));
    // Unpinning picks the point anew, and the stretch starts with it.
    let mut c = start();
    c.set_target(4800);
    c.set_manual_point(false);
    assert_eq!(c.point().label(), "720p60");
    c.set_target(6000);
    assert_eq!(first_move(&mut c, 9), Some(18));
    // A window that is not clean breaks it.
    let mut c = start();
    c.tick(&win(990, 10, 20.0));
    assert_eq!(first_move(&mut c, 10), Some(19));
    assert_eq!(c.point().label(), "1080p30");
}
