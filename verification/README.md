# sound_push_core

The rules and bookkeeping of the SoundPush audio-routing engine, written in Verus and proved
against their contracts.

- `src/` — the verified library: errors and their support codes, route kinds, link health and
  the lossless fallback, microphone noise-suppression supervision, reconnection backoff and
  flap detection, pairing rate limits, refused-handshake runs, session resume tokens, settings
  sanitizing and per-device profiles, stream profiles, the jitter buffer, the PCM wire format,
  the per-frame sender decisions (DTX, redundancy framing, receiver flags), dial-candidate
  ordering and the dial race's outcome, the engine's device commands (connect, disconnect,
  forget, block, permissions), pairing decisions and control-message routing, the handling of
  closed sessions, the once-a-second timeouts, the connection ladder and device list order,
  the audit log's bookkeeping, crash-report text rules (truncation, redaction, ordering,
  pruning, report names), log-file naming and rotation, network-test advice, and the mobile binding names.
  Laws that span functions are public proof functions named `lemma_*`.
- `tests/` — tests run against the compiled library.
- `app/` — the shell around it: files, clocks, the panic hook, the `tracing` subscriber,
  JSON forms of the library's types, and the floating-point audio path (DSP, drift
  compensation, Opus).
