use pulsar_core::adapt::ladder::{build, pick, Point};
use pulsar_core::pipeline::VCodec;

#[test]
fn reference_ladder_for_1080p60_h264() {
    let l = build(VCodec::H264, 1920, 1080, 60);
    let got: Vec<(String, u32)> = l.iter().map(|p| (p.label(), p.min_kbps)).collect();
    assert_eq!(
        got,
        vec![
            ("1080p60".to_string(), 8000),
            ("1080p30".to_string(), 5000),
            ("720p60".to_string(), 4000),
            ("720p30".to_string(), 2500),
            ("540p30".to_string(), 1200),
            ("360p30".to_string(), 600),
        ]
    );
    assert_eq!(l[2].width, 1280, "16:9 widths follow the aspect");
    assert_eq!(l[4].width, 960);
    assert_eq!(l[5].width, 640);
}

#[test]
fn hevc_needs_fewer_bits_and_unknown_native_defaults_to_1080p60() {
    let h = build(VCodec::H265, 0, 0, 0);
    assert_eq!(h[0].label(), "1080p60");
    assert_eq!(h[0].min_kbps, 5600);
    assert_eq!(h[5].min_kbps, 420);
    let a = build(VCodec::Av1, 0, 0, 0);
    assert!(a[0].min_kbps < h[0].min_kbps);
}

#[test]
fn native_above_1080_gets_its_own_top_rung_and_ultrawide_keeps_aspect() {
    let l = build(VCodec::H264, 2560, 1440, 144);
    assert_eq!(l[0].label(), "1440p144");
    assert!(l[0].min_kbps > 8000, "{}", l[0].min_kbps);
    assert_eq!(l[1].label(), "1080p144", "ordered by the bits a rung needs");
    assert_eq!(l[1].width, 1920);
    assert_eq!(l[2].label(), "1440p30");
    let uw = build(VCodec::H264, 3440, 1440, 60);
    let p720 = uw.iter().find(|p| p.height == 720).unwrap();
    assert_eq!(p720.width, 1728, "3440/1440 × 720 = 1720 → nearest multiple of 16");
}

#[test]
fn low_native_fps_has_a_single_fps_rung() {
    let l = build(VCodec::H264, 1280, 720, 30);
    let labels: Vec<String> = l.iter().map(Point::label).collect();
    assert_eq!(labels, vec!["720p30", "540p30", "360p30"]);
}

#[test]
fn pick_uses_the_margin_and_falls_back_to_the_lowest_rung() {
    let l = build(VCodec::H264, 1920, 1080, 60);
    assert_eq!(l[pick(&l, 10_000, 85, 100)].label(), "1080p60");
    assert_eq!(l[pick(&l, 9_000, 85, 100)].label(), "1080p30", "8000 > 9000×0.85");
    assert_eq!(l[pick(&l, 2_000, 85, 100)].label(), "540p30");
    assert_eq!(l[pick(&l, 300, 85, 100)].label(), "360p30");
}

#[test]
fn a_bigger_budget_never_picks_a_lower_rung() {
    let l = build(VCodec::H265, 3840, 2160, 120);
    let mut last = l.len() - 1;
    for kbps in (0..80_000).step_by(50) {
        let i = pick(&l, kbps, 85, 100);
        assert!(i <= last, "{kbps}");
        last = i;
    }
    assert_eq!(pick(&[], 1000, 85, 100), 0);
}

#[test]
fn newer_codecs_need_no_more_at_any_rung() {
    let h264 = build(VCodec::H264, 1920, 1200, 60);
    let h265 = build(VCodec::H265, 1920, 1200, 60);
    for p in &h264 {
        let q = h265.iter().find(|q| q.height == p.height && q.fps == p.fps).unwrap();
        assert!(q.min_kbps <= p.min_kbps);
        assert_eq!(q.width, p.width);
    }
}

#[test]
fn other_heights_go_by_bits_per_pixel() {
    // 2560 × 1440 × 60 × 0.064 = 14 155.776 kbit/s.
    assert_eq!(build(VCodec::H264, 2560, 1440, 60)[0].min_kbps, 14_156);
    // 2560 × 1440 × 30 × 0.085 = 9400.32 kbit/s, of which H.265 needs 70 %.
    let l = build(VCodec::H265, 2560, 1440, 60);
    let p = l.iter().find(|p| p.height == 1440 && p.fps == 30).unwrap();
    assert_eq!(p.min_kbps, 6580);
    // Tiny captures still need something.
    assert_eq!(build(VCodec::Av1, 64, 64, 5)[0].min_kbps, 200);
}

#[test]
fn the_native_point_is_always_on_top() {
    // 1280 × 800 × 60 × 0.064 = 3932 kbit/s, less than the 4000 of the 720p60 rung below.
    let l = build(VCodec::H264, 1280, 800, 60);
    assert_eq!(l[0], Point { width: 1280, height: 800, fps: 60, min_kbps: 3932 });
    assert_eq!((l[1].width, l[1].label(), l[1].min_kbps), (1152, "720p60".to_string(), 4000));
    // A portrait capture.
    let l = build(VCodec::H264, 1080, 1920, 60);
    assert_eq!((l[0].label(), l[0].min_kbps), ("1920p60".to_string(), 7963));
    assert_eq!((l[1].label(), l[1].min_kbps), ("1080p60".to_string(), 8000));
    // Below the top, the rungs go by the bits they need.
    for l in [l, build(VCodec::Av1, 400, 1100, 60), build(VCodec::H265, 1920, 1081, 60)] {
        for k in 1..l.len() - 1 {
            assert!(l[k].min_kbps >= l[k + 1].min_kbps);
        }
    }
    // At 540 lines and below a fast capture has only its 30 fps rung.
    assert_eq!(build(VCodec::H264, 960, 540, 60)[0].label(), "540p30");
}
