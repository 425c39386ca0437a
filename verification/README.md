# lgo

A gear optimizer for LOTRO characters, written as a Verus library with a thin
command-line program around it.

## Layout

- `src/` is the library. Every function in it is verified by Verus against its
  `requires` / `ensures` contract:
  - `stat.rs`, `gear.rs`: stats, slots, stat maps and their text forms
    (abbreviations, display names) with round-trip and normalisation laws.
  - `optimizer.rs`: the search pools, the exact search over them, the
    objective (`compare_builds`) and the candidate caps; the result is stated
    as the best gear set under the lexicographic objective, the search has a
    single answer, and it does not depend on the order in which candidates
    are given.
  - `build_profiles.rs`, `cli.rs`, `gearstats.rs`, `slot_resolver.rs`,
    `gear_file.rs`, `gear_doc.rs`: reading and writing the gear and build
    files, argument parsing, and merging a fresh export into the canonical
    gear file.
  - `report.rs`, `report_files.rs`: the text and HTML reports and where they
    are written.
  - `plugindata.rs`, `build_db.rs`, `virtues.rs`, `wiki.rs`, `cache.rs`,
    `merge.rs`, `install.rs`, `scrap.rs`, `derivations.rs`: the remaining
    data formats and rules (for the base-stat derivation data, its shape).
  - `virtue_apply.rs`: resolving a gear file's `[Virtues]` selection and
    adding the virtues' tracked and raw Base stats to its innate stats.
  - `json.rs`, `toml_doc.rs`, `gear_doc.rs` and a few functions in
    `build_db.rs`, `plugindata.rs` and `text.rs` hold the trusted items: each
    calls into `serde_json`, `toml`, `toml_edit`, `quick-xml` or std (an edit
    in `gear_doc.rs` parses the text, makes one change and writes it back),
    and its doc comment says what its contract claims.
- `app/` is the program: argument handling, file and network I/O, the clock,
  prompts, and applying the base-stat derivation coefficients, which are
  floating point. Its
  decisions are made by calls into the library.
- `tests/` runs the library on concrete inputs.
