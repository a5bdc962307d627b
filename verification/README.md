# RustWeatherML

Daily weather predictions for fourteen cities: fresh Open-Meteo data,
the feature pipeline of the training notebooks, Ridge and random-forest
models, a drift monitor, and a README block that is rewritten on every
run.

## Layout

- `src/` — the verified library (Verus). Every function carries a
  contract over mathematical models (`Seq`, `Set`, `Multiset`, `int`).
  - `data::schema` — WMO weather-code classes and their labels, and the
    city list of the data-collection notebooks.
  - `data::api` — request plan of chunked historical downloads.
  - `production::report` — the README injector: banner refresh,
    marker-anchored splice of the live block, migration of README files
    without markers, and the section builders.
  - `production::readme_laws` — proofs about the injector: a second
    rewrite with the same stamp is a fixed point for every marked block
    whose end line is no banner line (CRLF sources included), a later
    rewrite with another stamp sees nothing of the block content and
    refreshes only the banner lines around it (so the two agree once the
    "Last run" stamps are blanked), the line replacement is
    idempotent for any marker list, and a first rewrite leaves exactly
    one live block.
  - `production::heading_laws` — the live block holds each section
    heading exactly once (the drift heading exactly when a drift snapshot
    is shown), and so does the rewritten README when the text kept around
    the block holds none.
  - `production::config` — the city table of the daily run (every field
    of every city fixed by its contract, the zones checked against the
    one-hot features, the places agreeing with the notebooks' city
    list), and the standard paths.
  - `production::clock` — the UTC minute stamp of the banner.
  - `production::drift_monitor` — bin tallies, distinct cities,
    snapshot file names, the history index and the recent-history window.
  - `production::artifacts` — consistency checks of the model artifacts
    and the vote counts of the rain ensemble.
  - `production::pipeline` — calendar fields of timestamps (through
    `chrono`), lag and one-hot column names, row lookups.
  - `production::predict` — choice of the anchor row of a city.
  - `production::text` — character-level helpers and their lemmas.
- `tests/` — tests of the library on concrete values.
- `app/` — the binary: HTTP clients, Polars feature engineering, model
  arithmetic (floating point), file I/O, and the command line.
