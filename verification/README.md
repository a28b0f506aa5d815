# portcourt

An evidence court for C→Rust ports: it holds what each module *claims*
(`complete` or `partial`, an optional parity floor, the courts it requires)
against the parity view a port produces, and fails when a claim out-runs its
evidence.

- `src/` is the library, written and proved in Verus:
  - `text` — code-point order, equality, suffix and substring tests on text;
  - `table` — a table keyed by text in ascending key order (the order of the
    config's module map);
  - `evidence` — the parity view and the claim ladder, status classification;
  - `tally` — the per-module tally and its laws;
  - `claims` — what a module claims, and the configuration;
  - `verdict` — the closure-math check over every declared module;
  - `explain`, `worklist`, `summary` — the `explain`, `next` and `report`
    subcommands' decisions;
  - `cli` — the command line and the config's base directory.
- `app/` is the command-line program: it reads TOML and JSON (serde, toml,
  serde_json), weighs the floating-point parity floors, and prints.
- `tests/` runs the library on small parity views.
