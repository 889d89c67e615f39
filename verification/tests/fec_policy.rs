use pulsar_core::adapt::fec_policy::{
    encoder_share, encoder_share_ratio, group_size, parity_ratio, FecLoad, OFF_AFTER_CLEAN, ONE,
    RS_MAX_RATIO, RS_MIN_RATIO,
};

/// A ratio in parts per billion.
fn ppb(r: f64) -> u32 {
    (r * 1e9).round() as u32
}

/// Parts per billion as a ratio.
fn ratio(p: u32) -> f64 {
    p as f64 / 1e9
}

#[test]
fn sizes_follow_loss_within_the_overhead_ceiling() {
    assert_eq!(group_size(ppb(0.03), 0, 0), 17, "3 % loss → ~6 % parity");
    assert_eq!(group_size(ppb(0.10), 0, 0), 5, "10 % loss hits the 20 % ceiling");
    assert_eq!(group_size(ppb(0.30), 0, 0), 5, "never more than 20 % overhead");
    assert_eq!(group_size(ppb(0.01), 0, 0), 32, "1 % loss → the largest group");
    assert_eq!(group_size(ppb(0.004), 0, 0), 0, "below the floor: off");
}

#[test]
fn hysteresis_and_switch_off_after_a_clean_stretch() {
    assert_eq!(group_size(ppb(0.035), 17, 0), 17, "small change keeps the size");
    assert_eq!(group_size(ppb(0.08), 17, 0), 6, "big change moves");
    assert_eq!(group_size(ppb(0.0), 17, 2), 17, "still on while the clean stretch is short");
    assert_eq!(group_size(ppb(0.0), 17, OFF_AFTER_CLEAN), 0, "off after the clean stretch");
}

#[test]
fn rs_parity_ratio_follows_loss_within_bounds_with_hysteresis() {
    assert_eq!(parity_ratio(ppb(0.004), 0, 0), 0, "clean: off");
    assert!((ratio(parity_ratio(ppb(0.03), 0, 0)) - 0.125).abs() < 1e-6, "3 % → 12.5 %");
    assert_eq!(parity_ratio(ppb(0.10), 0, 0), RS_MAX_RATIO, "10 % → ceiling");
    assert_eq!(parity_ratio(ppb(0.01), 0, 0), RS_MIN_RATIO, "1 % → floor");
    assert!(
        (ratio(parity_ratio(ppb(0.04), ppb(0.125), 0)) - 0.125).abs() < 1e-6,
        "small change keeps"
    );
    assert!(ratio(parity_ratio(ppb(0.08), ppb(0.125), 0)) > 0.2, "big change moves");
    assert!(
        (ratio(parity_ratio(ppb(0.0), ppb(0.125), 2)) - 0.125).abs() < 1e-6,
        "short clean stretch keeps"
    );
    assert_eq!(parity_ratio(0, ppb(0.125), OFF_AFTER_CLEAN), 0, "off after the clean stretch");
    assert!((ratio(encoder_share_ratio(ppb(0.25))) - 0.8).abs() < 1e-6);
    assert_eq!(encoder_share_ratio(0), ONE);
}

#[test]
fn encoder_share_leaves_room_for_parity() {
    assert_eq!(encoder_share(0), ONE);
    assert!((ratio(encoder_share(5)) - 0.8333).abs() < 0.001);
    assert!((ratio(encoder_share(32)) - 0.9697).abs() < 0.001);
}

#[test]
fn shares_are_exact_to_the_billionth() {
    assert_eq!(encoder_share(5), 833_333_333);
    assert_eq!(encoder_share(2), 666_666_667);
    assert_eq!(encoder_share_ratio(ppb(0.25)), 800_000_000);
}

#[test]
fn the_encoder_part_rounds_down() {
    assert_eq!(FecLoad::Off.encoder_part(8000), 8000);
    assert_eq!(FecLoad::Group(16).encoder_part(8000), 7529);
    assert_eq!(FecLoad::Overhead(ppb(0.25)).encoder_part(1001), 800);
    assert_eq!(FecLoad::Group(0).encoder_part(1001), 1001);
}
