# captura_bandera

A capture-the-flag game for a local network: an authoritative server over TCP,
discovery over UDP broadcast, a binary big-endian protocol (version 3), and a
player client, both with a macroquad window.

The library (`src/`) holds the protocol and the rules, verified with Verus:

- `codes`, `wire`, `messages`, `encode`, `decode`: the one-byte codes, the
  byte layout of every message, encoders and decoders with exact contracts;
  `round_trip` proves that decoding gives back what was encoded.
- `framing`, `discovery`: the two-byte length frame and the discovery
  packets, and the broadcast addresses a request goes to.
- `game`: the lobby, the countdown, ticks, flag pickup and theft, victory.
  Positions are opaque coordinates; the geometry reaches the rules as plain
  results (new positions, who is in reach, who is outside the circle).
- `lobby`, `control`: who may join, the countdown steps, and the server's
  answer to each command of its connections and its host.
- `client_view`: what a client knows of the game, updated by each server
  message.

`app/` is the program around it: sockets, threads, clocks, floating-point
geometry and the windows.
