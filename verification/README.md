# heft

A disk usage viewer: it lists the immediate children of a directory, sorted
by size, with proportional bars (terminal), raw byte counts (pipes), one
JSON object per line, or a compact tab-separated summary for language
models (`--llm`), the last two optionally filtered by `--threshold-pct` and
`--top`.

- `src/` is the verified library (Verus): the scanner's decisions
  (`scanner`), the grouping, ordering and layout of the listing (`display`,
  `order`, `glyphs`, `rows`), which entries the filters keep (`select`), the
  four output modes (`render`, `json`), the choice of mode (`choices`),
  decimal text (`text`), sizes in binary units (`size`), styling through
  owo-colors (`style`, `paint`) and the properties that span these
  functions (`laws`).
- `app/` is the program: argument parsing, reading the directory tree in
  parallel, asking the terminal for its width, and the floating-point ratios
  of each entry to the total, which it hands to the library.
- `tests/` runs the library on concrete values.
