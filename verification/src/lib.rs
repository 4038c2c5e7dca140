//! Condenses what Maven prints to what a reader needs.
//!
//! A build is reduced to its errors and warnings, the outcome of each module and
//! the verdict ([`filter_mvn_build`]), a test run to its failures and a summary
//! ([`filter_mvn_test`]). The commands ([`run_test`], [`run_build_phase`],
//! [`run_other`]) say how Maven is to be called; to call it, and
//! to print, is left to the program around this library.
//!
//! - [`text`], [`ansi`] and [`grammar`] describe texts, colour codes and the forms
//!   of the lines of a log; the contracts are stated in their terms.
//! - [`pattern`] runs the regular expressions that tell the lines apart.
//! - [`build_filter`], [`test_scan`], [`test_report`] and [`failure`] are the
//!   filters.
//! - The modules whose names end in `_laws` state what holds of them as a whole, and
//!   what the words of the contracts mean.

pub mod ansi;
pub mod build_filter;
pub mod build_laws;
pub mod colour_laws;
pub mod command;
pub mod command_laws;
pub mod failure;
pub mod failure_laws;
pub mod form_laws;
pub mod grammar;
pub mod grammar_laws;
pub mod keep_laws;
pub mod log;
pub mod pattern;
pub mod pattern_laws;
pub mod report_laws;
pub mod reword;
pub mod run_laws;
pub mod string_laws;
pub mod strings;
pub mod test_laws;
pub mod test_report;
pub mod test_scan;
pub mod text;
pub mod text_laws;

pub use ansi::strip_ansi;
pub use build_filter::{filter_mvn_build, is_noise_line, BuildRules, BuildScan, MAX_BODY_LINES};
pub use command::{
    condense, run_build_phase, run_compile, run_other, run_package, run_test, whole_output,
    with_hint, CommandError, Condensing, Invocation,
};
pub use failure::{compact_test_name, upsert_failure, MavenTestFailure};
pub use reword::reword_if_failed;
pub use strings::truncate;
pub use test_report::{checked_filter_mvn_test, counts_in_range, filter_mvn_test};
pub use test_scan::{is_compile_error, TestRules, TestScan};
