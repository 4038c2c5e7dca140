# rtk_mvn

Condenses what Maven prints: a build to its errors, warnings and verdict, a test
run to its failures and a summary.

- `src/` is the library. Its behaviour is stated in contracts and proved by Verus.
  What the lines of a log look like is described in `grammar.rs`; `pattern.rs` holds
  the regular expressions and is the only place that calls the `regex` crate. The
  modules whose names end in `_laws` prove what holds of the filters as a whole.
- `tests/` runs the library on logs.
- `app/` calls Maven and prints: process handling, with no rules of its own.
