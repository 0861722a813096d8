# delta

Git history analytics — churn, contributors, hotspots, timeline, ownership,
logical coupling, bus factor and language breakdown — with its logic verified
by Verus.

## Layout

- `src/` — the verified library. Every function states its result in
  `requires`/`ensures` over mathematical models (`Seq`, `Map`, `int`), and
  Verus proves it.
  - `log`, `log_render`, `tally`, `tally_totals`, `report`, `command_line`: reading
    `git log --numstat` output (and the law that it reads back what it
    renders), tallying it per date, author, file and
    language, and rendering the text, JSON and CSV reports.
  - `history`: turning patch lines into per-file line counts and filtering a
    history by date window and path globs.
  - `analytics`: the snapshot engine (contributors, file churn, ownership,
    coupling, bus factor, at-risk files, timeline, languages) and the laws
    that tie its totals together.
  - `exporters`, `commands`, `cache`, `cli`: Markdown and CSV exports, the
    command tables, the snapshot cache key and the command-line options.
  - `utils`: glob matching, table rendering and the calendar facts taken from
    chrono.
  - `text`, `order`, `strmap`, `rank`: strings, their order, a sorted string
    map and the ranking order used by every report.
- `app/` — the program around it: clap's command line, git2's history walk,
  the SQLite cache, JSON through serde, the ratatui dashboard, `git log` as a
  subprocess, and the floating-point scores and bars.
- `tests/` — tests of the library on concrete values.
