use pulsar_core::audio::{AudioInput, ChannelLayout, Platform};
use pulsar_core::config::{
    default_device_name, device_name_from, split_relay_port, Config, Language, NetworkMode,
    RelayKeys, DEFAULT_RELAY,
};

#[test]
fn defaults_are_auto_mode_and_turkish() {
    let c = Config::default();
    assert_eq!(c.network_mode, NetworkMode::Auto);
    assert_eq!(c.language, Language::Tr);
    assert!(c.relay_is_valid(), "default relay should be valid host:port");
}

#[test]
fn relay_validation_catches_garbage() {
    let mut c = Config::default();
    // A bare host is VALID: the default relay port is implied, so the address a user sees and
    // types is just the hostname.
    c.relay = "no-port".into();
    assert!(c.relay_is_valid());
    c.relay = DEFAULT_RELAY.into();
    assert!(c.relay_is_valid(), "the shipped default carries no port");
    c.relay = "192.168.1.5".into();
    assert!(c.relay_is_valid());
    // An explicit port is still validated.
    c.relay = "host:notaport".into();
    assert!(!c.relay_is_valid());
    c.relay = "host:99999".into();
    assert!(!c.relay_is_valid());
    c.relay = "127.0.0.1:21116".into();
    assert!(c.relay_is_valid());
    // Empty is never valid.
    c.relay = "  ".into();
    assert!(!c.relay_is_valid());
}

#[test]
fn loading_drops_a_redundant_default_port_but_keeps_a_real_one() {
    // An install written before the address became port-optional.
    let mut c = Config::default();
    c.relay = "relay.pulsardesk.com:21116".into();
    assert_eq!(
        Config::from_stored(Some(c.clone())).relay,
        "relay.pulsardesk.com",
        "the implied default port should not be shown back to the user"
    );

    // A deliberately non-default port is preserved verbatim.
    c.relay = "my-relay.example.com:9000".into();
    assert_eq!(Config::from_stored(Some(c)).relay, "my-relay.example.com:9000");
}

#[test]
fn load_missing_file_yields_defaults() {
    let c = Config::from_stored(None);
    assert_eq!(c, Config::default());
}

#[test]
fn relay_port_split_handles_ipv6_and_bare_hosts() {
    // Bare hosts (v4, v6, dns) carry no port.
    assert_eq!(split_relay_port("relay.pulsardesk.com"), None);
    assert_eq!(split_relay_port("192.168.1.5"), None);
    assert_eq!(split_relay_port("::1"), None, "unbracketed IPv6 is a host, not host:port");
    // Explicit ports split.
    assert_eq!(split_relay_port("host:9000"), Some(("host", "9000")));
    assert_eq!(split_relay_port("[::1]:21116"), Some(("[::1]", "21116")));
    assert_eq!(split_relay_port("[::1]"), None);
}

#[test]
fn audio_defaults_transmit_without_muting() {
    let c = Config::default();
    assert!(c.transmit_audio);
    assert!(!c.mute_host_audio);
    let s = c.audio_settings();
    assert!(s.transmit && !s.mute_host);
}

#[test]
fn audio_loopback_is_windows_default_until_a_device_is_named() {
    let mut c = Config::default();
    // Empty (the default) → WASAPI loopback, so audio works with no capture device installed.
    assert!(c.audio_loopback(Platform::Windows));
    c.audio_input = "loopback".into();
    assert!(c.audio_loopback(Platform::Windows));
    // A named dshow device opts back out of loopback.
    c.audio_input = "Stereo Mix".into();
    assert!(!c.audio_loopback(Platform::Windows));
}

// ── Further cases ──

#[test]
fn all_defaults() {
    let c = Config::default();
    assert_eq!(c.relay, "relay.pulsardesk.com");
    assert_eq!(c.relay_keys, RelayKeys::new());
    assert!(!c.use_local_relay && !c.unattended_access && !c.native_player);
    assert_eq!(c.connect_password, "");
    assert_eq!(c.audio_input, "");
    assert_eq!(c.node_port, 0);
    assert_eq!(c.avatar_mode, "user");
    assert_eq!(c.audio_layout, ChannelLayout::Stereo);
    assert_eq!(c.ui_hardware_accel, None);
    assert!(c.request_admin);
}

#[test]
fn loopback_has_two_names_on_windows_and_none_elsewhere() {
    let mut c = Config::default();
    c.audio_input = "  WASAPI ".into();
    assert!(c.audio_loopback(Platform::Windows));
    assert!(!c.audio_loopback(Platform::MacOs));
    c.audio_input = "".into();
    assert!(!c.audio_loopback(Platform::Other));
}

#[test]
fn the_capture_source_goes_by_the_platform() {
    let mut c = Config::default();
    c.audio_input = "  ".into();
    assert_eq!(c.audio_input(Platform::Windows), AudioInput::PlatformDefault);
    c.audio_input = " Stereo Mix ".into();
    assert_eq!(c.audio_input(Platform::Windows), AudioInput::Dshow("Stereo Mix".into()));
    assert_eq!(c.audio_input(Platform::Other), AudioInput::Pulse("Stereo Mix".into()));
    assert_eq!(c.audio_input(Platform::MacOs), AudioInput::AvFoundation(0));
    c.audio_input = "+07".into();
    assert_eq!(c.audio_input(Platform::MacOs), AudioInput::AvFoundation(7));
    c.audio_input = "4294967296".into();
    assert_eq!(c.audio_input(Platform::MacOs), AudioInput::AvFoundation(0));
}

#[test]
fn odd_relay_addresses() {
    assert_eq!(split_relay_port(""), None);
    assert_eq!(split_relay_port(":"), Some(("", "")));
    assert_eq!(split_relay_port("host:"), Some(("host", "")));
    assert_eq!(split_relay_port("  a:1  "), Some(("a", "1")));
    assert_eq!(split_relay_port("a:b:c"), None);
    assert_eq!(split_relay_port("[::1"), None);
    assert_eq!(split_relay_port("[::1]x:1"), None);
    assert_eq!(split_relay_port("[]:1:2"), Some(("[]", "1:2")));
    assert_eq!(split_relay_port("ğ:1"), Some(("ğ", "1")));

    let mut c = Config::default();
    for (relay, valid) in [
        ("host:", false),
        (":21116", false),
        ("host:+80", true),
        ("host:-1", false),
        ("host:0065535", true),
        ("host:65536", false),
        ("[::1]:65535", true),
        ("[::1]:1:2", false),
        ("::1", true),
    ] {
        c.relay = relay.into();
        assert_eq!(c.relay_is_valid(), valid, "{relay}");
    }
}

#[test]
fn normalising_a_relay_address() {
    let mut c = Config::default();
    for (typed, kept) in [
        (" host:21116 ", "host"),
        ("[::1]:21116", "[::1]"),
        ("host:021116", "host:021116"),
        (" host:9000", "host:9000"),
        (":21116", ":21116"),
        ("::1", "::1"),
        ("  bare  ", "bare"),
        // White space before a dropped port stays until the next time.
        ("a :21116", "a "),
        ("a ", "a"),
    ] {
        c.relay = typed.into();
        let valid = c.relay_is_valid();
        c.normalise_relay();
        assert_eq!(c.relay, kept, "{typed}");
        assert_eq!(c.relay_is_valid(), valid, "{typed}");
    }
}

#[test]
fn access_keys_go_by_the_relay() {
    let mut c = Config::default();
    assert_eq!(c.relay_key_for("a.example"), None);
    c.set_relay_key(" A.Example ", Some("k1".into()));
    c.set_relay_key("b.example", Some("k2".into()));
    assert_eq!(c.relay_key_for("a.example"), Some("k1"));
    assert_eq!(c.relay_key_for("A.EXAMPLE\n"), Some("k1"));
    c.set_relay_key("a.example", Some("k3".into()));
    assert_eq!(c.relay_key_for("a.example"), Some("k3"));
    assert_eq!(c.relay_key_for("b.example"), Some("k2"));
    assert_eq!(c.relay_keys.entries().len(), 2);
    c.set_relay_key("A.example", None);
    assert_eq!(c.relay_key_for("a.example"), None);
    assert_eq!(c.relay_key_for("b.example"), Some("k2"));
    c.set_relay_key("never.seen", None);
    assert_eq!(c.relay_keys.entries().len(), 1);
}

#[test]
fn access_keys_are_the_same_in_any_order() {
    let mut a = RelayKeys::new();
    let mut b = RelayKeys::default();
    a.insert("x".into(), "1".into());
    a.insert("y".into(), "2".into());
    b.insert("y".into(), "2".into());
    assert!(a != b && b != a);
    b.insert("x".into(), "0".into());
    assert!(a != b);
    b.insert("x".into(), "1".into());
    assert_eq!(a, b);
    assert_eq!(a.clone(), a);
    b.remove("y");
    assert_eq!(b.get("y"), None);
    assert!(a != b);
}

#[test]
fn a_blank_host_name_gets_a_placeholder() {
    assert_eq!(device_name_from(None), "Pulsar Cihazı");
    assert_eq!(device_name_from(Some(" \t".into())), "Pulsar Cihazı");
    assert_eq!(device_name_from(Some(" pc ".into())), " pc ");
}

#[test]
fn the_default_device_name_is_the_host_name() {
    let host = whoami::fallible::hostname().ok();
    assert_eq!(default_device_name(), device_name_from(host));
    assert!(!default_device_name().trim().is_empty());
    assert_eq!(Config::default().device_name, default_device_name());
}
