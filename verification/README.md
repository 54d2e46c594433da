# bencher (verified core)

The logic of pieces of the Bencher continuous-benchmarking tool, written in
Verus with its contracts proved.

- `src/adapter/`: reading the output of `cargo bench`. `grammar.rs` states
  the grammar as spec functions over bytes, `scan.rs` and `rust.rs` hold the
  parser proved against it, `units.rs` the time units, `laws.rs` the proof
  that the parser reads no further than it consumes.
- `src/messenger/button.rs`: the plain-text and HTML bodies of the e-mails
  with a button; the CSS of the HTML is inlined with `css-inline`.
- `src/organization.rs`: the organization rows and their JSON; UUIDs go
  through the `uuid` crate.
- `src/branch.rs`: which branch a benchmark run reports to, and the search
  for a named branch as a state machine whose network steps the caller runs.
- `src/alert.rs`, `src/boundary.rs`, `src/resource.rs`, `src/text.rs`: alert
  paths, the sample-size check of threshold tests, identifiers and text
  helpers.
- `app/`: the surrounding code that Verus does not check: printing, the
  environment, the network driver of the branch search, serde forms and the
  floating-point statistics.
