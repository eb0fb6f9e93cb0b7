# maritime_mesh

The verified core of a maritime tracking service: AIS decoding and
encoding, normalisation of AIS traffic into frames, dark-zone detection,
storage and mesh key layouts, and the request rules of the HTTP API.

- `src/` — the library, written in Verus. Every executable function has a
  contract over mathematical models (`Seq`, `Map`, `int`); the public
  `law_*` proof functions state what holds across functions (encode then
  parse gives the fix back, sweeps keep event numbering, key layouts sort
  and round-trip).
- The dark-zone detector keeps its open events in a `Vec` with an invariant
  of one event per vessel, and a sweep takes the vessels as an ordered list.
  A `HashMap` would list its events, and walk the vessels, in an order that
  changes from run to run and that no contract can state; the order of the
  vessels decides which number each new event gets, so the detector takes
  that order from the caller and its contracts say exactly what each sweep
  does. The events are still specified as a map from vessel to event.
- Functions that read the clock (`now_ns`, `sweep`, `sentence_to_frame`,
  `aisstream_to_frame`) state only what holds for every reading; each has a
  twin that takes the reading as an argument with an exact contract
  (`ns_from_epoch_nanos`, `sweep_at`, `sentence_to_frame_at`,
  `aisstream_to_frame_at`).
- `tests/` — ordinary Rust tests of the library on concrete values.
- `app/` — the services around the library (`api`, `ingest`, `sim`):
  WebSockets, HTTP, the fjall store, zenoh, and the floating-point
  geometry. Positions cross into the library as fixed-point integers
  (1/10000 arc-minute, tenths of a knot, tenths of a degree).
