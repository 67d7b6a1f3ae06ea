# cheatu

A memory scanner for Linux processes in the style of Cheat Engine and
scanmem, with an injection backend for NW.js / RPG Maker MV/MZ games.

The decision-making core is written in Verus and verified. Its executable
functions state their results in `ensures` clauses; the few items that Verus
takes on trust (wrappers around std and `serde_json`, and the conversion step
of the JSON parser) say in their doc comments what they claim. Properties
that span functions are public proof functions named `law_*` (and
`lemma_decode_encode` / `lemma_encode_decode` for value encodings).

## Layout

- `src/` — the verified library.
  - `text`, `numeral`, `codec`, `ieee` — text handling, integer numerals,
    native-endian byte encoding, and the exact `f64` grid for integers.
  - `value`, `maps`, `scan`, `mem` — scan types and values, `/proc/<pid>/maps`
    parsing, first/next scans with undo, and the write probe.
  - `process`, `privilege` — process labels, Wine/Chromium detection, the
    picker's choice and order; elevated relaunch arguments and the
    environment it forwards.
  - `json`, `fspath`, `agent`, `detect`, `config`, `cdp`, `rpgmaker`, `panel`
    — the injection backend: JSON text (parsed through `serde_json`), the
    plugin and its checksum, actions and commands, snapshots, catalogs, game
    detection, manifest flags, DevTools replies and the game panel's
    decisions.
  - `choices`, `cli` — the decisions of the graphical and command-line front
    ends.
- `tests/` — tests run against the compiled library.
- `app/` — the program around the library: `/proc` and file I/O, threads,
  signals, floating-point semantics, writing JSON text, the WebSocket client, and the
  egui front end.
