# makimono

Inserts a new entry into the "unreleased" block of a markdown changelog.

`generate_content` finds the start header (`### Latest Changes` by default),
cuts the unreleased block off where the next release begins (`end_regex`),
parses the configured label sections in it (`#### Features`, ...), puts the
message on top of the first section whose label is asked for, or on top of the
loose entries when none is, and lays the file out again.

Layout:

- `src/text.rs`: Unicode whitespace, trimming, splitting text at byte offsets.
- `src/pattern.rs`: the `regex` crate behind trusted wrappers (`escape`,
  `Regex::new`, `Regex::find`), with the names of their results.
- `src/config.rs`, `src/options.rs`: settings, their defaults and overrides.
- `src/layout.rs`: rebuilding the release block and the file from the parts.
- `src/changelog.rs`: `generate_content` and the error type.
- `src/laws.rs`: properties proved of every input.
- `app/`: the Node.js (napi) and Python (pyo3) bindings.
