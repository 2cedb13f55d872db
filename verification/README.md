# ReRust

Find open-source projects migrating to Rust, and classify each hit as rewrite,
replacement, or noise.

`src/` is the library, written and proved in Verus: the classifier
(`detect/classify.rs`), the scorer (`detect/score.rs`), the reading of commit
histories (`detect/git_history.rs`, `detect/transitions.rs`,
`detect/enrich.rs`), discovery (`detect/heuristics.rs`, `github.rs`), the rules
of the store, the site and the commands (`store.rs`, `site.rs`, `pipeline.rs`),
and what they share (`text.rs`, `order.rs`, `sums.rs`, `types.rs`).

The library holds doubles as bit patterns and computes with them in whole
numbers: `rounding.rs` finds the double that is nearest to an exact result, and
`double.rs` adds, multiplies, divides and rounds by it.

`app/` is the program around it: command line, network, processes and SQLite.
`tests/` runs the library.
