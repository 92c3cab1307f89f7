//! The whole analysis of a log: parsing its lines, filtering the entries and
//! aggregating what is left.

use vstd::prelude::*;

use crate::entry::{parse_lines, records_of_lines};
use crate::filter::{both_filters, filter_entries, Filter, FilterConfig};
use crate::tally::Tally;
use crate::stats::{analyze_logs, statistics, LogStats, Statistics};

verus! {

/// The statistics of the lines of a log: those of the records that the lines
/// stand for and that pass the filters.
pub open spec fn analysis(lines: Seq<Seq<char>>, filter: Filter, top_n: nat) -> Statistics {
    statistics(records_of_lines(lines).filter(both_filters(filter)), top_n)
}

/// Analyses the lines of a log: parses them, passing over the lines that
/// stand for no entry, keeps the entries that pass the filters, and
/// aggregates those into statistics with the `top_n` most frequent error
/// messages.
pub fn analyze_lines(lines: &[String], config: &FilterConfig, top_n: usize) -> (stats: LogStats)
    ensures
        stats@ == analysis(lines.deep_view(), config@, top_n as nat),
        stats.well_formed(),
        stats.top_errors.len() <= top_n,
        top_n == 0 ==> stats@.top_errors == Seq::<Tally>::empty(),
{
    let parsed = parse_lines(lines);
    let kept = filter_entries(parsed, config);
    analyze_logs(kept.as_slice(), top_n)
}

} // verus!
