//! Analysis of log files whose lines have the shape
//! `YYYY-MM-DD HH:MM:SS [LEVEL] message`.
//!
//! The analysis runs in three steps, each a function with a contract that
//! Verus proves:
//!
//! - [`parse_log_line`] and [`parse_lines`] read log entries from lines of
//!   text and pass over the lines of another shape;
//! - [`filter_entries`] keeps the entries that pass the level filter and the
//!   search filter;
//! - [`analyze_logs`] counts the entries, the entries of each level, and the
//!   most frequent error messages.
//!
//! [`analyze_lines`] runs the three steps one after the other, and the
//! functions of [`report`] lay the statistics out as tables and as
//! comma-separated lines.
//!
//! The contracts speak of mathematical values: an entry is seen as a
//! [`LogRecord`](entry::LogRecord), statistics as
//! [`Statistics`](stats::Statistics), and a sequence of entries as a `Seq` of
//! records. What holds of every analysis is stated and proved in the `lemma_`
//! functions of each module.
//!
//! Three things are done by code that Verus does not see, and are taken on
//! trust: matching a line against the pattern, by the `regex` crate (module
//! [`pattern`]); changing the case of a text and searching a text, by the
//! standard library (module [`text`]); and keeping the rows of a table, by
//! the `prettytable` crate (module [`report`]).

pub mod entry;
pub mod filter;
pub mod level;
pub mod pattern;
pub mod pipeline;
pub mod ranking;
pub mod report;
pub mod stats;
pub mod tally;
pub mod text;

pub use entry::{
    entry_from_groups, parse_lines, parse_log_line, LogEntry, LogRecord, LINE_PATTERN,
};
pub use filter::{
    entry_holds, filter_by_level, filter_by_search, filter_entries, found_in_any, FilterConfig,
};
pub use level::LogLevel;
pub use pipeline::analyze_lines;
pub use ranking::top_ranked;
pub use report::{csv_lines, error_table, level_table};
pub use stats::{analyze_logs, LevelCount, LogStats};
pub use tally::ErrorFrequency;
pub use text::{decimal_text, push_decimal, same_text};
