use pulsar_core::capture::{
    first_stream, is_wayland, playing_verdict, without_cloexec, BusMessage, EncoderProperties,
    StartAttempts, WaylandCapture, ENCODER_NAME,
};

#[test]
fn wayland_is_told_by_either_variable() {
    assert!(is_wayland(Some("wayland"), None));
    assert!(is_wayland(Some("Wayland"), Some("")));
    assert!(is_wayland(Some("x11"), Some("wayland-0")));
    assert!(is_wayland(None, Some(":0")));
    assert!(!is_wayland(Some("x11"), None));
    assert!(!is_wayland(Some(" wayland"), Some("")));
    assert!(!is_wayland(None, None));
}

fn capture(bitrate: bool, bps: bool) -> WaylandCapture {
    WaylandCapture::new(Some(EncoderProperties { bitrate, bps }))
}

#[test]
fn the_bitrate_goes_to_the_property_the_encoder_has() {
    let set = |c: &WaylandCapture, kbps: u32| c.set_bitrate(kbps).map(|p| (p.name, p.value));
    assert_eq!(set(&capture(true, false), 2500), Some(("bitrate", "2500".to_string())));
    assert_eq!(set(&capture(true, true), 0), Some(("bitrate", "1".to_string())));
    assert_eq!(set(&capture(false, true), 2500), Some(("bps", "2500000".to_string())));
    assert_eq!(set(&capture(false, true), 4_294_967), Some(("bps", "4294967000".to_string())));
    assert_eq!(set(&capture(false, true), 4_294_968), Some(("bps", "4294967295".to_string())));
    assert_eq!(set(&capture(false, false), 2500), None);
    assert_eq!(set(&WaylandCapture::new(None), 2500), None);
    assert_eq!(ENCODER_NAME, "venc");
}

#[test]
fn a_dead_pipeline_stays_dead() {
    let mut c = capture(true, false);
    assert!(c.is_alive() && c.is_watched() && c.request_keyframe());
    assert!(!c.key_unit_due());
    c.set_short_gop(true);
    c.on_bus_message(BusMessage::Other);
    assert!(c.is_alive() && c.key_unit_due());
    c.on_bus_message(BusMessage::Eos);
    assert!(!c.is_alive() && !c.key_unit_due());
    c.on_bus_message(BusMessage::Other);
    c.set_short_gop(false);
    c.set_short_gop(true);
    assert!(!c.is_alive() && !c.key_unit_due());
    let mut e = capture(true, false);
    e.on_bus_message(BusMessage::Error);
    assert!(!e.is_alive());
    c.stop();
    assert!(!c.is_watched());
    assert!(!WaylandCapture::new(None).request_keyframe());
}

#[test]
fn the_start_is_tried_three_times() {
    let mut a = StartAttempts::new();
    assert_eq!(a.next_wait(), Some(0));
    assert_eq!(a.next_wait(), Some(300));
    assert_eq!(a.next_wait(), Some(600));
    assert_eq!(a.next_wait(), None);
    assert_eq!(a.next_wait(), None);
}

#[test]
fn a_pipeline_that_does_not_play_says_why() {
    assert_eq!(playing_verdict(false, true, None, "Playing"), Ok(()));
    assert_eq!(
        playing_verdict(false, false, None, "Paused"),
        Err("gst pipeline failed to reach PLAYING (pipewire/portal node not ready?): state Paused"
            .to_string())
    );
    assert_eq!(
        playing_verdict(true, true, Some("no node"), "Playing"),
        Err("gst pipeline failed to reach PLAYING (pipewire/portal node not ready?): no node"
            .to_string())
    );
}

#[test]
fn the_first_stream_is_captured() {
    assert_eq!(first_stream(&[42, 7]), Ok(42));
    assert_eq!(first_stream(&[]), Err("portal returned no screencast stream"));
}

#[test]
fn close_on_exec_is_cleared() {
    assert_eq!(without_cloexec(1, 1), Some(0));
    assert_eq!(without_cloexec(0b1011, 1), Some(0b1010));
    assert_eq!(without_cloexec(-1, 1), None);
}
