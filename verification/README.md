# audio-checker

Measures the audio latency of a conference system from two recordings, one
made at the sender and one at the receiver. Each recording carries a timing
sidecar (`<wav>.timing.json`) whose anchors tie WAV sample indices to UTC.
Plucked-string events are detected in both recordings, paired in order, and
the latency of each pair is the receiver's UTC instant minus the sender's.

Layout:

- `src/` — the verified library: sidecar validation and the anchor
  interpolation from sample index to UTC (`timing`), the SHA-256 hex digest of
  the recording (`hash`), the FSK time-mark bit layout and time-of-day text
  (`timestamp`), the frame-level event decisions (`detector`), the accepted WAV
  formats (`wav`), resampled lengths (`preprocess`), the clock-pair check and
  event instants (`analyze`), the report file name (`output`), error codes
  (`error`) and text helpers (`text`).
- `app/` — the command-line program: argument parsing, file I/O, JSON, WAV
  decoding, and the floating-point signal processing (features, thresholds,
  correlation, latency statistics) around the library.
- `tests/` — tests of the library on concrete values.
