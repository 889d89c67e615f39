//! What holds of relay addresses and access keys.

use super::{Config, Language, NetworkMode};
use crate::audio::ChannelLayout;
use crate::config;
use crate::proto::DEFAULT_RELAY_PORT;
use crate::text;
use vstd::prelude::*;

verus! {

// ── Relay addresses ───────────────────────────────────────────────────────────────────

/// A text without white space around it.
pub open spec fn is_trim(s: Seq<char>) -> bool {
    s.len() > 0 ==> !text::is_white(s[0]) && !text::is_white(s.last())
}

/// A host name or an IPv4 address: no colon, and no bracket in front.
pub open spec fn is_plain_host(host: Seq<char>) -> bool {
    &&& host.len() > 0
    &&& is_trim(host)
    &&& host[0] != '['
    &&& !host.contains(':')
}

/// A bracketed IPv6 literal.
pub open spec fn is_bracketed(host: Seq<char>) -> bool {
    &&& host.len() >= 2
    &&& host[0] == '['
    &&& host.last() == ']'
    &&& !host.drop_last().contains(']')
}

/// `host:port`.
pub open spec fn with_port(host: Seq<char>, port: Seq<char>) -> Seq<char> {
    host.push(':') + port
}

/// A bare host carries no port.
pub proof fn law_bare_hosts_carry_no_port(host: Seq<char>)
    requires
        is_plain_host(host) || is_bracketed(host),
    ensures
        config::relay_parts(host) is None,
        config::valid_relay(host),
        config::normalised_relay(host) == host,
{
    if is_bracketed(host) {
        assert(host.take(host.len() - 1) =~= host.drop_last());
        text::lemma_first(host, ']', host.len() - 1);
    }
}

/// An unbracketed IPv6 literal (two colons or more) is a host, not `host:port`.
pub proof fn law_unbracketed_v6_is_a_host(host: Seq<char>, i: int, j: int)
    requires
        is_trim(host),
        host[0] != '[',
        0 <= i < j < host.len(),
        host[i] == ':',
        host[j] == ':',
    ensures
        config::relay_parts(host) is None,
        config::valid_relay(host),
        config::normalised_relay(host) == host,
{
    assert(host.contains(':'));
    host.index_of_first_ensures(':');
    let k = host.index_of_first(':')->0;
    assert(k <= i);
    assert(host.skip(k + 1)[j - k - 1] == ':');
}

/// `host:port` and `[v6]:port` are split at the colon before the port.
pub proof fn law_explicit_ports_split(host: Seq<char>, port: Seq<char>)
    requires
        is_plain_host(host) || is_bracketed(host),
        is_plain_host(host) ==> !port.contains(':'),
        port.len() > 0 ==> !text::is_white(port.last()),
    ensures
        config::relay_parts(with_port(host, port)) == Some((host, port)),
{
    let s = with_port(host, port);
    let n = host.len() as int;
    assert(s[0] == host[0]);
    assert(s[n] == ':');
    assert(s.skip(n + 1) =~= port);
    assert(s.take(n) =~= host);
    assert(s.last() == (if port.len() > 0 {
        port.last()
    } else {
        ':'
    }));
    assert(text::trimmed(s) == s);
    if is_bracketed(host) {
        assert(s[n - 1] == ']');
        assert(s.take(n - 1) =~= host.drop_last());
        text::lemma_first(s, ']', n - 1);
        assert(s.skip(n - 1 + 2) =~= port);
    } else {
        text::lemma_first(s, ':', n);
    }
}

/// A redundant default port is dropped, any other port is left exactly as typed.
pub proof fn law_only_the_default_port_is_dropped(host: Seq<char>, port: Seq<char>)
    requires
        is_plain_host(host) || is_bracketed(host),
        is_plain_host(host) ==> !port.contains(':'),
        port.len() > 0 ==> !text::is_white(port.last()),
    ensures
        port == text::decimal(DEFAULT_RELAY_PORT as nat) ==> config::normalised_relay(
            with_port(host, port),
        ) == host,
        port != text::decimal(DEFAULT_RELAY_PORT as nat) ==> config::normalised_relay(
            with_port(host, port),
        ) == with_port(host, port),
{
    law_explicit_ports_split(host, port);
    let s = with_port(host, port);
    assert(s[0] == host[0]);
    assert(s.last() == (if port.len() > 0 {
        port.last()
    } else {
        ':'
    }));
}

/// What an address carries is what it carries without the white space around it.
proof fn lemma_parts_of_trimmed(address: Seq<char>)
    ensures
        config::relay_parts(text::trimmed(address)) == config::relay_parts(address),
{
    text::lemma_trimmed(address);
}

/// The host of an address that carries a port starts as the address does, and carries none
/// itself.
proof fn lemma_host_is_bare(address: Seq<char>)
    requires
        config::relay_parts(address) is Some,
        (config::relay_parts(address)->0).0.len() > 0,
    ensures
        ({
            let host = (config::relay_parts(address)->0).0;
            &&& !text::is_white(host[0])
            &&& text::trimmed(host).len() > 0
            &&& is_trim(host) ==> config::relay_parts(host) is None
            &&& config::valid_relay(host)
        }),
{
    let s = text::trimmed(address);
    let host = (config::relay_parts(address)->0).0;
    text::lemma_trimmed(address);
    s.index_of_first_ensures(']');
    s.index_of_first_ensures(':');
    assert(host[0] == s[0]);
    let t = text::trimmed(host);
    lemma_trimmed_is_prefix(host);
    if s[0] == '[' {
        let close = s.index_of_first(']')->0;
        assert(host.last() == s[close]);
        assert(t == host);
        assert(!host.drop_last().contains(']'));
        law_bare_hosts_carry_no_port(host);
    } else {
        assert(!host.contains(':'));
        assert(!t.contains(':')) by {
            if t.contains(':') {
                let k = choose|k: int| 0 <= k < t.len() && t[k] == ':';
                assert(host[k] == ':');
            }
        }
    }
}

/// A text that does not start with white space starts as it does without white space around it.
proof fn lemma_trimmed_is_prefix(s: Seq<char>)
    requires
        s.len() > 0,
        !text::is_white(s[0]),
    ensures
        0 < text::trimmed(s).len() <= s.len(),
        text::trimmed(s) == s.take(text::trimmed(s).len() as int),
        text::trimmed(s)[0] == s[0],
    decreases s.len(),
{
    assert(text::trimmed_start(s) == s);
    if text::is_white(s.last()) {
        assert(s.len() > 1);
        assert(s.drop_last()[0] == s[0]);
        lemma_trimmed_is_prefix(s.drop_last());
        let t = text::trimmed(s);
        assert(t == text::trimmed(s.drop_last()));
        assert(s.drop_last().take(t.len() as int) =~= s.take(t.len() as int));
    } else {
        assert(s.take(s.len() as int) =~= s);
    }
}

/// Dropping the default port does not change whether an address is usable.
pub proof fn law_normalising_keeps_validity(address: Seq<char>)
    ensures
        config::valid_relay(config::normalised_relay(address)) == config::valid_relay(address),
{
    text::lemma_trimmed(address);
    lemma_parts_of_trimmed(address);
    let port = text::decimal(DEFAULT_RELAY_PORT as nat);
    match config::relay_parts(address) {
        Some((h, p)) => {
            if h.len() > 0 && p == port {
                lemma_host_is_bare(address);
                lemma_default_port_is_a_number();
            }
        },
        None => {},
    }
}

proof fn lemma_default_port_is_a_number()
    ensures
        text::number(text::decimal(DEFAULT_RELAY_PORT as nat), u16::MAX as int) == Some(21116int),
{
    reveal_with_fuel(text::decimal, 6);
    reveal_with_fuel(text::digits_value, 6);
    let d = text::decimal(DEFAULT_RELAY_PORT as nat);
    assert(d =~= seq!['2', '1', '1', '1', '6']);
    assert(d.drop_last() =~= seq!['2', '1', '1', '1']);
    assert(d.drop_last().drop_last() =~= seq!['2', '1', '1']);
    assert(d.drop_last().drop_last().drop_last() =~= seq!['2', '1']);
    assert(d.drop_last().drop_last().drop_last().drop_last() =~= seq!['2']);
    assert(text::digits_value(d) == 21116);
}

/// Normalising twice changes nothing more (where no white space stands between the host and a
/// port).
pub proof fn law_normalising_is_idempotent(address: Seq<char>)
    requires
        config::relay_parts(address) matches Some((host, _)) ==> is_trim(host),
    ensures
        config::normalised_relay(config::normalised_relay(address)) == config::normalised_relay(
            address,
        ),
{
    text::lemma_trimmed(address);
    lemma_parts_of_trimmed(address);
    match config::relay_parts(address) {
        Some((h, p)) => {
            if h.len() > 0 && p == text::decimal(DEFAULT_RELAY_PORT as nat) {
                lemma_host_is_bare(address);
            }
        },
        None => {},
    }
}

/// The default relay is a usable address, and as short as it gets.
pub proof fn law_default_relay_is_valid()
    ensures
        config::valid_relay(config::DEFAULT_RELAY@),
        config::normalised_relay(config::DEFAULT_RELAY@) == config::DEFAULT_RELAY@,
{
    reveal_strlit("relay.pulsardesk.com");
    law_bare_hosts_carry_no_port(config::DEFAULT_RELAY@);
}

/// An explicit port must be a number of at most 65535.
pub proof fn law_an_explicit_port_is_checked(host: Seq<char>, n: nat)
    requires
        is_plain_host(host) || is_bracketed(host),
    ensures
        config::valid_relay(with_port(host, text::decimal(n))) <==> n <= 65535,
{
    let port = text::decimal(n);
    text::laws::lemma_decimal(n);
    text::laws::law_decimals_read_back(n, 65535);
    assert(!port.contains(':')) by {
        if port.contains(':') {
            let k = choose|k: int| 0 <= k < port.len() && port[k] == ':';
            assert(text::is_digit(port[k]));
        }
    }
    assert(text::is_digit(port[port.len() - 1]));
    law_explicit_ports_split(host, port);
    lemma_with_port_is_trim(host, port);
}

/// `host:port` has no white space around it where neither part has.
proof fn lemma_with_port_is_trim(host: Seq<char>, port: Seq<char>)
    requires
        is_plain_host(host) || is_bracketed(host),
        port.len() > 0 ==> !text::is_white(port.last()),
    ensures
        text::trimmed(with_port(host, port)) == with_port(host, port),
{
    let s = with_port(host, port);
    assert(s[0] == host[0]);
    assert(s.last() == (if port.len() > 0 {
        port.last()
    } else {
        ':'
    }));
}

/// A port that is missing behind its colon, or has anything but digits in it (but for a `+` in
/// front), makes an address unusable.
pub proof fn law_a_port_that_is_no_number_is_refused(host: Seq<char>, port: Seq<char>, i: int)
    requires
        is_plain_host(host) || is_bracketed(host),
        is_plain_host(host) ==> !port.contains(':'),
        port.len() > 0 ==> !text::is_white(port.last()),
        port.len() == 0 || (0 <= i < port.len() && !('0' as u32 <= port[i] as u32 <= '9' as u32)
            && !(i == 0 && port[0] == '+')),
    ensures
        !config::valid_relay(with_port(host, port)),
{
    law_explicit_ports_split(host, port);
    text::laws::law_only_digits_are_a_number(port, 65535, i);
}

/// Nothing, nothing but white space, and a port without a host are no addresses.
pub proof fn law_an_address_needs_a_host(address: Seq<char>, port: Seq<char>)
    requires
        !port.contains(':'),
        port.len() > 0 ==> !text::is_white(port.last()),
    ensures
        (forall|i: int| 0 <= i < address.len() ==> text::is_white(#[trigger] address[i]))
            ==> !config::valid_relay(address),
        !config::valid_relay(seq![':'] + port),
{
    text::laws::law_trimming_takes_the_ends(address);
    if forall|i: int| 0 <= i < address.len() ==> text::is_white(#[trigger] address[i]) {
        let t = text::trimmed(address);
        let (from, to) = choose|from: int, to: int|
            text::laws::is_trimmed(address, text::trimmed(address), from, to);
        if t.len() > 0 {
            assert(t[0] == address[from]);
        }
    }
    let s = seq![':'] + port;
    assert(s.last() == (if port.len() > 0 {
        port.last()
    } else {
        ':'
    }));
    assert(text::trimmed(s) == s);
    assert(s.take(0).len() == 0);
    text::lemma_first(s, ':', 0);
    assert(s.skip(1) =~= port);
}

/// The port that goes without saying is 21116: behind a host it is dropped, and only it.
pub proof fn law_the_default_port_is_21116(host: Seq<char>, n: nat)
    requires
        is_plain_host(host) || is_bracketed(host),
    ensures
        config::normalised_relay(with_port(host, text::decimal(n))) == (if n == 21116 {
            host
        } else {
            with_port(host, text::decimal(n))
        }),
{
    let port = text::decimal(n);
    text::laws::lemma_decimal(n);
    text::laws::lemma_decimal(21116);
    assert(!port.contains(':')) by {
        if port.contains(':') {
            let k = choose|k: int| 0 <= k < port.len() && port[k] == ':';
            assert(text::is_digit(port[k]));
        }
    }
    assert(text::is_digit(port[port.len() - 1]));
    law_only_the_default_port_is_dropped(host, port);
}

/// An address that starts with a bracket carries a port only behind the first closing bracket.
pub proof fn law_a_bracket_must_be_closed_before_a_port(address: Seq<char>, close: int)
    requires
        address.len() > 0,
        is_trim(address),
        address[0] == '[',
        !address.contains(']') || (0 <= close < address.len() && address[close] == ']'
            && !address.take(close).contains(']') && (close + 1 == address.len() || address[close
            + 1] != ':')),
    ensures
        config::relay_parts(address) is None,
        config::valid_relay(address),
        config::normalised_relay(address) == address,
{
    if address.contains(']') {
        text::lemma_first(address, ']', close);
    }
}

/// White space around an address does not count.
pub proof fn law_spaces_around_an_address_do_not_count(address: Seq<char>)
    ensures
        config::relay_parts(text::trimmed(address)) == config::relay_parts(address),
        config::valid_relay(text::trimmed(address)) == config::valid_relay(address),
        config::normalised_relay(text::trimmed(address)) == config::normalised_relay(address),
{
    text::lemma_trimmed(address);
}

// ── Defaults ──────────────────────────────────────────────────────────────────────────

/// A fresh install goes to the public relay, direct first; it lets nobody in unattended and has no
/// standing password; it sends its sound and keeps its speakers on.
pub proof fn law_how_a_fresh_install_is_set(c: Config)
    requires
        config::is_default(c),
    ensures
        c.relay@ == "relay.pulsardesk.com"@,
        c.relay_keys@.dom() =~= Set::<Seq<char>>::empty(),
        !c.use_local_relay,
        c.network_mode == NetworkMode::Auto,
        c.language == Language::Tr,
        !c.unattended_access,
        c.connect_password@.len() == 0,
        c.transmit_audio,
        !c.mute_host_audio,
        c.audio_input@.len() == 0,
        c.node_port == 0,
        c.avatar_mode@ == "user"@,
        !c.native_player,
        c.audio_layout == ChannelLayout::Stereo,
        c.ui_hardware_accel is None,
        c.request_admin,
{
}

// ── Access keys ───────────────────────────────────────────────────────────────────────

/// A key that a relay issued is found again under that relay, however its address is spaced or
/// capitalised, and keys of other relays stay; once forgotten it is gone.
pub proof fn law_relay_keys(
    keys: Map<Seq<char>, Seq<char>>,
    relay: Seq<char>,
    key: Seq<char>,
    other: Seq<char>,
)
    ensures
        ({
            let name = config::key_name(relay);
            let kept = keys.insert(name, key);
            let forgotten = kept.remove(name);
            &&& config::key_name(other) == name ==> kept.dom().contains(config::key_name(other))
                && kept[config::key_name(other)] == key
            &&& config::key_name(other) != name ==> {
                &&& kept.dom().contains(config::key_name(other)) == keys.dom().contains(
                    config::key_name(other),
                )
                &&& keys.dom().contains(config::key_name(other)) ==> kept[config::key_name(other)]
                    == keys[config::key_name(other)]
            }
            &&& !forgotten.dom().contains(name)
        }),
        config::key_name(text::trimmed(relay)) == config::key_name(relay),
        config::key_name(text::lowered(relay)) == config::key_name(relay),
{
    text::lemma_trimmed(relay);
    lemma_trim_lowered(relay);
    text::lemma_lowered_twice(text::trimmed(relay));
}

/// Relays that differ in more than case and the spaces around them keep their keys apart.
pub proof fn law_other_relays_have_other_keys(a: Seq<char>, b: Seq<char>)
    requires
        text::lowered(text::trimmed(a)) != text::lowered(text::trimmed(b)),
    ensures
        config::key_name(a) != config::key_name(b),
{
}

/// Case and white space do not mix.
proof fn lemma_trim_lowered(s: Seq<char>)
    ensures
        text::trimmed(text::lowered(s)) == text::lowered(text::trimmed(s)),
{
    lemma_trim_start_lowered(s);
    lemma_trim_end_lowered(text::trimmed_start(s));
}

proof fn lemma_trim_start_lowered(s: Seq<char>)
    ensures
        text::trimmed_start(text::lowered(s)) == text::lowered(text::trimmed_start(s)),
    decreases s.len(),
{
    if s.len() > 0 && text::is_white(s[0]) {
        lemma_trim_start_lowered(s.skip(1));
        assert(text::lowered(s).skip(1) =~= text::lowered(s.skip(1)));
    }
}

proof fn lemma_trim_end_lowered(s: Seq<char>)
    ensures
        text::trimmed_end(text::lowered(s)) == text::lowered(text::trimmed_end(s)),
    decreases s.len(),
{
    if s.len() > 0 && text::is_white(s.last()) {
        lemma_trim_end_lowered(s.drop_last());
        assert(text::lowered(s).drop_last() =~= text::lowered(s.drop_last()));
    }
}

} // verus!
