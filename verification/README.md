# flappy

A Flappy-Bird-like dot game for the terminal (and a canvas version for the
browser), with its rules and its frame rendering verified by Verus.

- `src/` — the verified library:
  - `rng.rs`: SplitMix64 generator (seeded, deterministic).
  - `rules.rs`: which rows a pipe blocks, collision, scoring and the
    Ready / Playing / GameOver phases, gap spawning, the autopilot's decision.
  - `scene.rs`: a snapshot of the game at cell resolution turned into a frame
    of glyphs and paint tags (Braille pipes or command-output walls, HUD,
    messages, GameOver box, bird).
  - `course.rs`: command output turned into non-blank lines and pipe gaps.
  - `input.rs`, `layout.rs`, `term.rs`, `cli.rs`, `text.rs`: input routing,
    centring, colour runs of a frame row, argument lookup, terminal widths.
  - `laws.rs`: properties that span functions.
- `app/` — the programs: the f32 physics of the game, the crossterm terminal
  loop, headless mode, and the wasm canvas renderer.
- `tests/` — tests of the library.
