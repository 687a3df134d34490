# openmeters

The routing, capture and persistence logic of OpenMeters, an audio
metering suite for PipeWire, as a Verus-verified library.

- `src/` is the library; its functions carry contracts that Verus proves,
  apart from a few small calls into std and `serde_json` whose contracts
  are taken on trust. It covers the registry model and its snapshots (`registry`,
  `registry_state`), the capture graph and what the backend publishes
  (`graph`, `node`, `capture`), what is captured and how it is linked
  (`policy`, `pairing`, `links`, `router`), channel layouts (`channel`),
  the timing and buffer arithmetic of the capture transport (`transport`,
  `batcher`, `sink`), the backend's retry and reconcile decisions (`session`) and
  the persisted settings and themes (`settings`), and the palette field of
  the visual modules' configurations (`visuals`). Public proof functions
  named `law_*` state properties that hold across calls.
- `tests/` runs the library on concrete values.
- `app/` is the program around it: settings and theme files on disk, the
  JSON form of module configurations, and the loops that drive the backend,
  the routing monitor and the meter tap.
  The PipeWire session and the interface are not part of this build.
