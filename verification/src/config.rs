//! Persistent app configuration.
//!
//! The relay endpoint is **user-changeable** (the app can point at any relay, including a
//! self-hosted or local one), and the network mode controls the P2P/relay strategy.

pub mod laws;
mod relay_keys;

pub use relay_keys::RelayKeys;

use crate::audio::{AudioInput, AudioSettings, ChannelLayout, Platform};
use crate::proto::DEFAULT_RELAY_PORT;
use crate::text;
use vstd::prelude::*;
use vstd::string::StrSliceExecFns;

verus! {

/// Default relay endpoint — the official public Pulsar relay, so the app works out of the box.
/// Written WITHOUT a port: [`DEFAULT_RELAY_PORT`] is implied and filled in when the address is
/// resolved, so the common case shows a clean hostname. A port is only ever written when the
/// operator actually runs on a different one (`my-relay.example.com:9000`).
pub const DEFAULT_RELAY: &'static str = "relay.pulsardesk.com";

/// How Pulsar establishes a connection.
#[derive(Debug, Clone, Copy, PartialEq, Eq, Default, Structural)]
pub enum NetworkMode {
    /// Try direct P2P first, fall back to the relay automatically. (Recommended.)
    #[default]
    Auto,
    /// Only ever connect directly (no relay fallback).
    P2pOnly,
    /// Always go through the relay (skip hole punching).
    RelayOnly,
}

/// UI language. The app ships Turkish (default) and English; the core stays language-agnostic
/// and just stores the choice.
#[derive(Debug, Clone, Copy, PartialEq, Eq, Default, Structural)]
pub enum Language {
    #[default]
    Tr,
    En,
}

#[derive(Debug, Clone, PartialEq)]
pub struct Config {
    /// `host` or `host:port` of the relay / rendezvous server. Changeable by the user.
    pub relay: String,
    /// Durable ACCESS KEYS for relays that require authentication, keyed by the relay address
    /// they were issued by. The relay hands one back the first time a device satisfies its
    /// password/2FA prompt; every later registration presents the key instead, so the user is
    /// asked once per device and not again — until the operator changes the relay's
    /// credentials, which invalidates it and re-triggers the prompt.
    ///
    /// Deliberately NOT the password: the password is entered in a prompt and never persisted,
    /// and a key is useless on any other device (the relay binds it to this device's public
    /// key).
    pub relay_keys: RelayKeys,
    /// Run a relay INSIDE this app and register against it instead of a remote one. While set,
    /// `relay` is ignored: the address is by definition local.
    pub use_local_relay: bool,
    /// Connection strategy.
    pub network_mode: NetworkMode,
    /// Friendly name advertised to peers.
    pub device_name: String,
    /// UI language.
    pub language: Language,
    /// Allow unattended access to this host.
    pub unattended_access: bool,
    /// Optional PERSISTENT connect password (empty = none). Accepted alongside the rotating
    /// one-time password — a client presenting either is let in without the Allow/Deny prompt.
    /// Wrong attempts are rate-limited host-side.
    pub connect_password: String,
    /// Stream this host's audio to the client (host → client). When off, the session is
    /// video-only.
    pub transmit_audio: bool,
    /// Silence this host's *local* speakers while streaming (the sound then plays only on the
    /// client). Independent of [`Self::transmit_audio`].
    pub mute_host_audio: bool,
    /// Audio capture source override (empty = platform default). Windows: a DirectShow device
    /// name; Linux: a PulseAudio/PipeWire source (typically a sink `.monitor`); macOS: an
    /// AVFoundation device index.
    pub audio_input: String,
    /// Local node listen port for direct/P2P connections (`0` = pick automatically).
    pub node_port: u16,
    /// What identity to present to a peer when connecting: the OS account photo (`user`), the
    /// desktop wallpaper (`wallpaper`), or nothing (`anonymous`).
    pub avatar_mode: String,
    /// Use the **native renderer** for incoming video instead of the in-webview canvas.
    pub native_player: bool,
    /// Host audio channel layout to capture + encode (stereo / 5.1 / 7.1).
    pub audio_layout: ChannelLayout,
    /// Hardware acceleration for the APP'S OWN UI. `None` = platform default, `Some` overrides.
    pub ui_hardware_accel: Option<bool>,
    /// (Windows) Re-launch elevated (UAC) on startup so this machine can act as a full host.
    pub request_admin: bool,
}

pub fn default_avatar_mode() -> (s: String)
    ensures
        s@ == "user"@,
{
    "user".to_owned()
}

pub fn default_true() -> (b: bool)
    ensures
        b,
{
    true
}

// ── The device name ───────────────────────────────────────────────────────────────────

/// `whoami::fallible::hostname`: the name that the operating system gives this machine, `None`
/// where it gives none that is text. Which name that is depends on the machine alone, so nothing
/// is said of it.
#[verifier::external_body]
fn hostname() -> (name: Option<String>) {
    whoami::fallible::hostname().ok()
}

/// The device name for what the operating system calls this machine: that name, or a placeholder
/// where there is none or it is blank.
pub fn device_name_from(host: Option<String>) -> (name: String)
    ensures
        match host {
            Some(h) if text::trimmed(h@).len() > 0 => name@ == h@,
            _ => name@ == "Pulsar Cihazı"@,
        },
        text::trimmed(name@).len() > 0,
{
    if let Some(h) = host {
        if text::trim(h.as_str()).unicode_len() > 0 {
            return h;
        }
    }
    proof {
        reveal_strlit("Pulsar Cihazı");
        let name = "Pulsar Cihazı"@;
        assert(!text::is_white(name[0]) && !text::is_white(name.last()));
    }
    "Pulsar Cihazı".to_owned()
}

/// The real OS hostname cross-platform, or a placeholder.
pub fn default_device_name() -> (name: String)
    ensures
        text::trimmed(name@).len() > 0,
{
    device_name_from(hostname())
}

/// The settings of a fresh install. (The device name is what the machine is called.)
pub open spec fn is_default(c: Config) -> bool {
    &&& c.relay@ == DEFAULT_RELAY@
    &&& c.relay_keys@ == Map::<Seq<char>, Seq<char>>::empty()
    &&& !c.use_local_relay
    &&& c.network_mode == NetworkMode::Auto
    &&& text::trimmed(c.device_name@).len() > 0
    &&& c.language == Language::Tr
    &&& !c.unattended_access
    &&& c.connect_password@ == Seq::<char>::empty()
    &&& c.transmit_audio
    &&& !c.mute_host_audio
    &&& c.audio_input@ == Seq::<char>::empty()
    &&& c.node_port == 0
    &&& c.avatar_mode@ == "user"@
    &&& !c.native_player
    &&& c.audio_layout == ChannelLayout::Stereo
    &&& c.ui_hardware_accel is None
    &&& c.request_admin
}

impl Default for Config {
    fn default() -> (c: Self)
        ensures
            is_default(c),
    {
        Config {
            relay: DEFAULT_RELAY.to_owned(),
            relay_keys: RelayKeys::new(),
            use_local_relay: false,
            network_mode: NetworkMode::Auto,
            device_name: default_device_name(),
            language: Language::Tr,
            unattended_access: false,
            connect_password: String::new(),
            transmit_audio: true,
            mute_host_audio: false,
            audio_input: String::new(),
            node_port: 0,
            avatar_mode: default_avatar_mode(),
            native_player: false,
            audio_layout: ChannelLayout::Stereo,
            ui_hardware_accel: None,
            request_admin: true,
        }
    }
}

// ── Relay addresses ───────────────────────────────────────────────────────────────────

/// The host and the port of a relay address that carries a port: `[v6]:port`, or `host:port`
/// with a single colon. (An unbracketed IPv6 literal is a bare host: its colons are part of the
/// address.)
pub open spec fn relay_parts(address: Seq<char>) -> Option<(Seq<char>, Seq<char>)> {
    let s = text::trimmed(address);
    if s.len() > 0 && s[0] == '[' {
        if s.contains(']') {
            let close = s.index_of_first(']')->0;
            if close + 1 < s.len() && s[close + 1] == ':' {
                Some((s.take(close + 1), s.skip(close + 2)))
            } else {
                None
            }
        } else {
            None
        }
    } else if s.contains(':') {
        let colon = s.index_of_first(':')->0;
        if s.skip(colon + 1).contains(':') {
            None
        } else {
            Some((s.take(colon), s.skip(colon + 1)))
        }
    } else {
        None
    }
}

/// Split `host:port` when the address really carries a port. Returns `None` for a bare host,
/// including an unbracketed IPv6 literal. `[v6]:port` is split at the bracket.
pub fn split_relay_port<'a>(s: &'a str) -> (parts: Option<(&'a str, &'a str)>)
    ensures
        match parts {
            Some((host, port)) => relay_parts(s@) == Some((host@, port@)),
            None => relay_parts(s@) is None,
        },
{
    let t: &'a str = text::trim(s);
    let len: usize = t.unicode_len();
    if len > 0 && t.get_char(0) == '[' {
        // Bracketed IPv6: `[::1]:21116` → ("[::1]", "21116"); `[::1]` → None.
        match text::find(t, ']') {
            Some(close) => {
                proof {
                    text::lemma_first(t@, ']', close as int);
                }
                if close + 1 < len && t.get_char(close + 1) == ':' {
                    let host: &'a str = t.substring_char(0, close + 1);
                    let port: &'a str = t.substring_char(close + 2, len);
                    assert(host@ =~= t@.take(close + 1));
                    assert(port@ =~= t@.skip(close + 2));
                    Some((host, port))
                } else {
                    None
                }
            },
            None => None,
        }
    } else {
        match text::find(t, ':') {
            Some(colon) => {
                proof {
                    text::lemma_first(t@, ':', colon as int);
                }
                let host: &'a str = t.substring_char(0, colon);
                let port: &'a str = t.substring_char(colon + 1, len);
                assert(host@ =~= t@.take(colon as int));
                assert(port@ =~= t@.skip(colon + 1));
                // More than one colon and no brackets → a bare IPv6 literal, not host:port.
                match text::find(port, ':') {
                    Some(again) => {
                        assert(port@[again as int] == ':');
                        None
                    },
                    None => Some((host, port)),
                }
            },
            None => None,
        }
    }
}

/// A relay address without a redundant default port, and without white space around it.
pub open spec fn normalised_relay(address: Seq<char>) -> Seq<char> {
    match relay_parts(address) {
        Some((host, port)) if host.len() > 0 && port == text::decimal(
            DEFAULT_RELAY_PORT as nat,
        ) => host,
        _ => text::trimmed(address),
    }
}

/// A usable relay address: a host, and a port that is one where a port is given.
pub open spec fn valid_relay(address: Seq<char>) -> bool {
    &&& text::trimmed(address).len() > 0
    &&& match relay_parts(address) {
        Some((host, port)) => host.len() > 0 && text::number(port, u16::MAX as int) is Some,
        None => true,
    }
}

/// What a relay's access key is kept under: the address, trimmed and lowercased.
pub open spec fn key_name(relay: Seq<char>) -> Seq<char> {
    text::lowered(text::trimmed(relay))
}

fn key_name_of(relay: &str) -> (name: String)
    ensures
        name@ == key_name(relay@),
{
    text::to_lower(text::trim(relay))
}

impl Config {
    /// The configuration from what was stored: that, or the defaults where nothing usable was
    /// stored, with the relay address normalised.
    pub fn from_stored(stored: Option<Config>) -> (c: Config)
        ensures
            match stored {
                Some(s) => {
                    &&& c.relay@ == normalised_relay(s.relay@)
                    &&& c == (Config { relay: c.relay, ..s })
                },
                None => is_default(c),
            },
    {
        let mut c: Config = match stored {
            Some(s) => s,
            None => Config::default(),
        };
        c.normalise_relay();
        proof {
            laws::law_default_relay_is_valid();
        }
        c
    }

    /// Drop a redundant `:21116` from the stored relay address.
    ///
    /// The default port is implied everywhere it matters (resolution fills it in), so carrying
    /// it in the value only shows the user a port they never chose — including on installs
    /// written before the address became port-optional. A NON-default port is left exactly as
    /// typed, because there it is the whole point.
    pub fn normalise_relay(&mut self)
        ensures
            final(self).relay@ == normalised_relay(old(self).relay@),
            *final(self) == (Config { relay: final(self).relay, ..*old(self) }),
    {
        let mut default_port: String = String::new();
        text::push_decimal(&mut default_port, DEFAULT_RELAY_PORT as u32);
        assert(default_port@ =~= text::decimal(DEFAULT_RELAY_PORT as nat));
        let next: String = match split_relay_port(self.relay.as_str()) {
            Some((host, port)) => if host.unicode_len() > 0 && text::same(
                port,
                default_port.as_str(),
            ) {
                host.to_owned()
            } else {
                text::trim(self.relay.as_str()).to_owned()
            },
            None => text::trim(self.relay.as_str()).to_owned(),
        };
        self.relay = next;
    }

    /// The audio toggles as an [`AudioSettings`] for policy resolution.
    pub fn audio_settings(&self) -> (s: AudioSettings)
        ensures
            s.transmit == self.transmit_audio,
            s.mute_host == self.mute_host_audio,
            s.layout == self.audio_layout,
    {
        AudioSettings {
            transmit: self.transmit_audio,
            mute_host: self.mute_host_audio,
            layout: self.audio_layout,
        }
    }

    /// The configured capture source as an [`AudioInput`]; an empty override resolves to the
    /// platform default.
    pub fn audio_input(&self, platform: Platform) -> (input: AudioInput)
        ensures
            ({
                let dev = text::trimmed(self.audio_input@);
                if dev.len() == 0 {
                    input is PlatformDefault
                } else {
                    match platform {
                        Platform::Windows => input matches AudioInput::Dshow(d) && d@ == dev,
                        Platform::MacOs => input matches AudioInput::AvFoundation(i) && i == (
                        match text::number(dev, u32::MAX as int) {
                            Some(n) => n,
                            None => 0,
                        }),
                        Platform::Other => input matches AudioInput::Pulse(d) && d@ == dev,
                    }
                }
            }),
    {
        let dev: &str = text::trim(self.audio_input.as_str());
        if dev.unicode_len() == 0 {
            return AudioInput::PlatformDefault;
        }
        match platform {
            Platform::Windows => AudioInput::Dshow(dev.to_owned()),
            Platform::MacOs => match text::parse_number(dev, u32::MAX) {
                Some(n) => AudioInput::AvFoundation(n),
                None => AudioInput::AvFoundation(0),
            },
            Platform::Other => AudioInput::Pulse(dev.to_owned()),
        }
    }

    /// Windows only: capture system audio via **WASAPI loopback** (the default render endpoint)
    /// rather than a DirectShow device. True when no explicit device is set or it's the
    /// `loopback`/`wasapi` sentinel — so audio streams out of the box without a capture device
    /// installed. A named device opts back into the DirectShow path ([`Self::audio_input`]).
    pub fn audio_loopback(&self, platform: Platform) -> (b: bool)
        ensures
            b == (platform == Platform::Windows && {
                let dev = text::lowered(text::trimmed(self.audio_input@));
                dev.len() == 0 || dev == "loopback"@ || dev == "wasapi"@
            }),
    {
        if platform != Platform::Windows {
            return false;
        }
        let dev: &str = text::trim(self.audio_input.as_str());
        proof {
            reveal_strlit("loopback");
            reveal_strlit("wasapi");
            assert(text::lowered("loopback"@) =~= "loopback"@);
            assert(text::lowered("wasapi"@) =~= "wasapi"@);
        }
        dev.unicode_len() == 0 || text::same_but_case(dev, "loopback") || text::same_but_case(
            dev,
            "wasapi",
        )
    }

    /// The stored access key for a relay address (normalised the same way the pins are: trimmed
    /// + lowercased), if this device has already authenticated there.
    pub fn relay_key_for(&self, relay: &str) -> (key: Option<&str>)
        ensures
            match key {
                Some(k) => self.relay_keys@.dom().contains(key_name(relay@))
                    && self.relay_keys@[key_name(relay@)] == k@,
                None => !self.relay_keys@.dom().contains(key_name(relay@)),
            },
    {
        let name: String = key_name_of(relay);
        self.relay_keys.get(name.as_str())
    }

    /// Remember the access key a relay just issued (or, with `None`, forget it — e.g. the
    /// operator rotated the credentials and the key stopped working).
    pub fn set_relay_key(&mut self, relay: &str, key: Option<String>)
        ensures
            final(self).relay_keys@ == (match key {
                Some(k) => old(self).relay_keys@.insert(key_name(relay@), k@),
                None => old(self).relay_keys@.remove(key_name(relay@)),
            }),
            *final(self) == (Config { relay_keys: final(self).relay_keys, ..*old(self) }),
    {
        let name: String = key_name_of(relay);
        match key {
            Some(k) => {
                self.relay_keys.insert(name, k);
            },
            None => {
                self.relay_keys.remove(name.as_str());
            },
        }
    }

    /// Is the configured relay address usable? A bare host (`relay.pulsardesk.com`,
    /// `192.168.1.5`) is valid on its own — the default relay port is implied. An explicit port
    /// is validated when one is given. IPv6 literals must be bracketed to carry a port
    /// (`[::1]:21116`); a bare `::1` is treated as a host, which is what a user means.
    pub fn relay_is_valid(&self) -> (b: bool)
        ensures
            b == valid_relay(self.relay@),
    {
        let s: &str = text::trim(self.relay.as_str());
        if s.unicode_len() == 0 {
            return false;
        }
        match split_relay_port(self.relay.as_str()) {
            Some((host, port)) => host.unicode_len() > 0 && text::parse_number(
                port,
                65535,
            ).is_some(),
            None => true,
        }
    }
}

} // verus!
