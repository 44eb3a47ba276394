# Workshop Timer

An always-on-top overlay that counts down the segments of a workshop listed
in `segments.yaml` (each with a `name`, a `duration` and an optional
`description`).

- `src/` is the verified library: reading durations (`25m`, `1h30m`, `90s`,
  `mm:ss`, `hh:mm:ss`), turning the YAML entries into segments, the countdown
  state (jump, play/pause, frame ticks, loading), the clock text and the
  texts the overlay shows, and the PNG bytes of a screenshot.
  `src/laws.rs` holds the laws that tie these together.
- `app/` is the egui program around it: files, the YAML parse, the file
  dialog, the editor launch and the drawing.
- `tests/` runs the library on concrete values.
