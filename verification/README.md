# pulsar_core

The verified core of the Pulsar remote-desktop and game-streaming apps: executable Rust whose
behaviour is stated in contracts and proved with Verus.

- `adapt` — adaptive streaming. `adapt::Controller` takes one decision per 2 s window (target
  rate, operating point, encoder bitrate, loss-recovery mode); `adapt::rules` states what a window
  does, `adapt::laws` what holds over all of them. Under it: the delay-gradient estimator
  (`adapt::delay`), the resolution × fps ladder (`adapt::ladder`), the FEC sizing
  (`adapt::fec_policy`).
- `service::media` — media frames inside the session, and XOR parity that rebuilds a lost packet.
- `config` — relay addresses, access keys, audio settings and their defaults.
- `capture` — what is decided about a Wayland capture.
- `text`, `math` — helpers.

All arithmetic is on integers: rates in kbit/s, times in microseconds, ratios (loss, noise floor,
parity overhead) in parts per billion, slopes in millionths.

One item is trusted: the host name, which `config` has from the `whoami` crate; nothing is assumed
of it.

`app/` holds what touches the machine: the configuration file, the clocks, the portal session and
the GStreamer pipeline. `tests/` runs the library.
