# Cascading Timers

A desktop timer that runs a cohort of countdowns firing one after another:
evenly spaced, geometrically spaced, or at random times within a total
duration, with alert sounds, pausing, resetting and live time adjustment.

## Layout

- `src/` — the verified library (Verus). Time is kept in whole nanoseconds.
  - `timers.rs` — timers and the cohort state machine; `cohort_laws.rs` —
    what every cohort operation keeps (invariant, schedule, reset, ticking).
  - `fields.rs` — the Interval / Count / Duration / Ratio input fields and
    which one is computed from the others.
  - `timetext.rs`, `timetext_laws.rs`, `timetext_reading.rs` — reading and
    writing time strings.
  - `ratio.rs`, `sanitize.rs` — ratio texts and input filtering.
  - `alert.rs` — which sound plays, repeats, and the preview fade.
  - `config.rs` — the persisted settings; `settings_file.rs` — the settings
    as INI text, read and written with configparser.
  - `icon.rs` — the window icon: the first icon file that decodes (with
    image), else a solid square.
  - `text.rs` — character-level helpers with their specifications.
- `app/` — the window, audio, file access, random draws and floating-point
  solving around the library.
- `tests/` — tests of the library on concrete values.
