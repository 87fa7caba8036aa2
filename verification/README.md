# midijitter

Measures the timing stability of MIDI Clock streams captured through PipeWire
or ALSA RawMIDI, and the path latency between two streams sharing one
PipeWire graph clock.

## Layout

- `src/` — the library; every function in it is proved against its
  contract. The control block shared with PipeWire's realtime thread is
  the exception in what it states: its atomics change under other threads, so
  its methods promise nothing of the values they read.
  - `capture/` — the capture file model (v1 single stream, v2 paired),
    its validation, and the realtime MIDI byte parser;
  - `backend/` — the decisions of a capture: source selection, termination
    bounds, ALSA clock choice and error classification, PipeWire timing
    arithmetic, SPA control sequences, per-cycle recording and assembling the
    finished capture;
  - `analysis/` — placing Clock events on the tick grid, startup anchoring,
    exclusion counts, and pairing two streams tick by tick with lag selection
    and latency summaries;
  - `output/` — report warnings, graph timing profiles, comparison warnings
    and the paired latency report;
  - `simulate.rs` — the splitmix64 generator behind synthetic captures.
- `app/` — the `midijitter` command: argument handling, device and file I/O,
  JSON and CSV encoding, plots, and the floating-point statistics (clock fit,
  phase and period jitter, rolling tempo, synthetic timing).
- `tests/` — tests of the library.
