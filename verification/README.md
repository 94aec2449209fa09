# jamjam

Low-latency peer-to-peer audio for musicians.

- `src/` is the library, verified with Verus: the packet and FEC wire
  formats, sequence tracking, the jitter buffer, STUN message parsing, the
  signaling server's room logic, key derivation and packet encryption, the
  WAV header, the metronome clock, the echo server's delay line, presets and
  settings, and the small state machines of connections and sessions.
- `tests/` runs the library on concrete values.
- `app/` is the program around it: the command line, sockets, WebSockets,
  audio devices, files, and the floating-point audio processing.
