# pf_runtime

The verified core of a handheld-console runtime, written in Verus. The functions under `src/`
carry contracts that Verus proves, except a small set of trusted wrappers and declarations
(marked `#[verifier::external_body]`, `assume_specification` or `uninterp`) around std and
`serde_json` calls, whose contracts state what those calls are documented to do. The programs
around the library live in `app/`.

## Layout

- `src/input_decode/` — the serial gamepad protocol: frame scanning, side decoders, the
  face/position frame, evdev codes and ioctl request numbers.
- `src/input_collect/` — guided capture of a device's controls: collection plans, the
  per-control capture window and its verdicts, the emitted TOML capabilities document, and the
  event-source abstraction (a trait, with scripted and multiplexed sources).
- `src/input_map/` — device contracts, bindings and their validation, the effective input map
  (persisted overrides re-resolved against the shipped map), the transactional remap engine,
  and the persisted document.
- `src/scene/` — the semantic scene: node identities, roles, structural state, the retained
  tree and the validated scene that owns focus.
- `src/ports.rs` — the shell's boundary contracts (clock, actions, glyphs, catalog, session,
  preferences, power, time, network, transfer, frame host) with deterministic fakes.
- `src/prefs/`, `src/prefs_port.rs`, `src/prefsd.rs` — the preference schema and validation,
  the stored document and its loader, the shell's preference port over it, and the daemon's
  request rules.
- `src/render.rs` — damage rectangles and render notes.
- `src/text.rs`, `src/keyed.rs` — verified text assembly and keyed lookup shared by the rest.
- `app/` — file, socket, device and serial I/O; serde types; floating-point geometry
  (directional focus moves); the daemon and tool entry points. The rasterizer and the
  flex/grid layout engine are not part of this crate: they are floating-point work built on
  a theme crate and on scene items (content kinds, type roles) this scene model does not have.
- `tests/` — executable tests of the library.

## Checking

Verus verifies `src/`; the tests under `tests/` run against the compiled library with the
real `serde_json` linked.
