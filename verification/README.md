# hijri

A `cal`-like Hijri (Umm al-Qura) calendar: conversion between Gregorian and
Hijri dates, month grids, a year overview, and the major Islamic events of a
year. Date arithmetic is ICU4X's (`icu_calendar`); everything around it is
verified with Verus.

Layout:

- `src/engine.rs` — the conversions, behind three small trusted wrappers
  around ICU4X, with round-trip guarantees.
- `src/names.rs` — month and weekday names, and month-name parsing
  (exact key, alias, or unique prefix; case, diacritics and separators are
  ignored, so every printed month name reads back as its month).
- `src/events.rs` — the table of fixed-date events.
- `src/render.rs` — the one-line date view, month and year grids (today in
  reverse video, event days marked `*`), and the events list; each output is
  specified character by character, and colour is shown to add nothing but
  the highlight.
- `src/parse.rs`, `src/text.rs` — decimal parsing as `str::parse` does it,
  and the numeral and padding helpers the renderers use. `text.rs` holds
  the one other trusted function, `string_from_chars`, which collects
  characters into a `String` with std's `collect`.
- `src/cli.rs` — what each command answers (`respond`), given today's date
  and whether output goes to a terminal.
- `app/` — the binary: clap arguments, the clock, printing and JSON output.
- `tests/` — the command scenarios and exact expected outputs.
