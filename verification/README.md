# mm_core

Plain-text scores turned into music: characters sorted by pitch are written
as notes, parsed into a timeline, and synthesized (live playback or WAV).

## Layout

- `src/` — the verified library (Verus):
  - `text.rs` — whitespace, ASCII case folding, trimming, `lines`, decimal
    rendering, each stated over `Seq<char>`;
  - `keymap.rs` — the character-order × pitch-table key map and its invariant;
  - `model.rs` — note events (timed in half beats), waveforms, note names;
  - `parser.rs` — the score grammar as a specification (`parse_result`) and
    the parser proved against it, with error messages;
  - `diagnostics.rs` — the located error report;
  - `config.rs`, `render.rs`, `cli.rs` — configuration checks, error types,
    exit codes, argument checks and key-map listings of the command line;
  - `laws.rs` — properties spanning several functions.
- `app/` — the `mm` command: argument parsing, files, TOML configuration,
  floating-point synthesis, WAV output and audio playback.
- `tests/` — tests of the library.

## Directive numbers

`@BPM` and `@VOL` take decimal floating-point values. The parser does not
read them itself: it returns a `NumberQuery`, the caller answers with a
`NumberVerdict` (in range, out of range, not a number) and parses again with
the verdicts so far. `laws.rs` shows that a score asks at most two questions
and that verdicts beyond the last question change nothing.
