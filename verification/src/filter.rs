//! The filters that choose the entries to analyse: by level and by a search
//! text.

use vstd::prelude::*;

use crate::entry::{LogEntry, LogRecord};
use crate::level::LogLevel;
use crate::text::{contains_text, lower_case, occurs_in, to_lower};

verus! {

/// Which entries to analyse.
#[derive(Debug, PartialEq, Eq)]
pub struct FilterConfig {
    /// Keep only the entries of level `Error`.
    pub errors_only: bool,
    /// Keep only the entries in which this text occurs, without regard to
    /// case.
    pub search: Option<String>,
}

/// A filter configuration as a mathematical value.
pub struct Filter {
    pub errors_only: bool,
    pub search: Option<Seq<char>>,
}

impl View for FilterConfig {
    type V = Filter;

    open spec fn view(&self) -> Filter {
        Filter { errors_only: self.errors_only, search: self.search.deep_view() }
    }
}

/// Whether one of three texts holds `needle`.
pub open spec fn occurs_in_any(
    needle: Seq<char>,
    message: Seq<char>,
    timestamp: Seq<char>,
    level: Seq<char>,
) -> bool {
    occurs_in(needle, message) || occurs_in(needle, timestamp) || occurs_in(needle, level)
}

/// Whether a record passes the level filter: every record does unless only
/// errors are asked for, and then the records of level `Error` do.
pub open spec fn passes_level(errors_only: bool, record: LogRecord) -> bool {
    !errors_only || record.level == LogLevel::Error
}

/// Whether `needle`, which is in lower case already, occurs in the lower-case
/// form of the message, the timestamp or the level name of a record.
pub open spec fn holds_lowered(needle: Seq<char>, record: LogRecord) -> bool {
    occurs_in_any(
        needle,
        lower_case(record.message),
        lower_case(record.timestamp),
        lower_case(record.level.display_name()),
    )
}

/// Whether a record passes the search filter: every record does where no
/// search text is given; otherwise those do in which the search text occurs
/// without regard to case.
pub open spec fn passes_search(search: Option<Seq<char>>, record: LogRecord) -> bool {
    match search {
        Some(needle) => holds_lowered(lower_case(needle), record),
        None => true,
    }
}

/// Whether a record passes both filters.
pub open spec fn passes(filter: Filter, record: LogRecord) -> bool {
    passes_level(filter.errors_only, record) && passes_search(filter.search, record)
}

/// The level filter as a predicate.
pub open spec fn level_filter(errors_only: bool) -> spec_fn(LogRecord) -> bool {
    |record: LogRecord| passes_level(errors_only, record)
}

/// The search filter as a predicate.
pub open spec fn search_filter(search: Option<Seq<char>>) -> spec_fn(LogRecord) -> bool {
    |record: LogRecord| passes_search(search, record)
}

/// Both filters as one predicate.
pub open spec fn both_filters(filter: Filter) -> spec_fn(LogRecord) -> bool {
    |record: LogRecord| passes(filter, record)
}

/// Tells whether one of three texts holds `needle`.
pub fn found_in_any(needle: &str, message: &str, timestamp: &str, level: &str) -> (found: bool)
    ensures
        found == occurs_in_any(needle@, message@, timestamp@, level@),
{
    contains_text(message, needle) || contains_text(timestamp, needle) || contains_text(
        level,
        needle,
    )
}

/// Tells whether `needle`, which the caller has put in lower case, occurs in
/// the lower-case form of the message, the timestamp or the level name of an
/// entry.
pub fn entry_holds(entry: &LogEntry, needle: &str) -> (found: bool)
    ensures
        found == holds_lowered(needle@, entry@),
{
    let message = to_lower(entry.message.as_str());
    let timestamp = to_lower(entry.timestamp.as_str());
    let level = to_lower(entry.level.name());
    found_in_any(needle, message.as_str(), timestamp.as_str(), level.as_str())
}

/// Keeps the entries that pass the level filter, in their order.
pub fn filter_by_level(entries: Vec<LogEntry>, errors_only: bool) -> (kept: Vec<LogEntry>)
    ensures
        kept.deep_view() == entries.deep_view().filter(level_filter(errors_only)),
{
    let ghost records = entries.deep_view();
    let mut kept: Vec<LogEntry> = Vec::new();
    proof {
        records.take(0).lemma_filter_len(level_filter(errors_only));
    }
    for entry in it: entries.into_iter()
        invariant
            it.seq().len() == records.len(),
            forall|k: int| 0 <= k < records.len() ==> (#[trigger] it.seq()[k])@ == records[k],
            kept.deep_view() == records.take(it.index() as int).filter(level_filter(errors_only)),
    {
        proof {
            broadcast use Seq::lemma_filter_push;

            assert(records.take(it.index() + 1) == records.take(it.index() as int).push(entry@));
        }
        if !errors_only || entry.level == LogLevel::Error {
            kept.push(entry);
        }
    }
    assert(records.take(records.len() as int) == records);
    kept
}

/// Keeps the entries that pass the search filter, in their order.
pub fn filter_by_search(entries: Vec<LogEntry>, search: &Option<String>) -> (kept: Vec<LogEntry>)
    ensures
        kept.deep_view() == entries.deep_view().filter(search_filter(search.deep_view())),
{
    let ghost records = entries.deep_view();
    let ghost wanted = search_filter(search.deep_view());
    match search {
        None => {
            proof {
                lemma_filter_all(records, wanted);
            }
            entries
        },
        Some(text) => {
            let needle = to_lower(text.as_str());
            let mut kept: Vec<LogEntry> = Vec::new();
            proof {
                records.take(0).lemma_filter_len(wanted);
            }
            for entry in it: entries.into_iter()
                invariant
                    it.seq().len() == records.len(),
                    forall|k: int|
                        0 <= k < records.len() ==> (#[trigger] it.seq()[k])@ == records[k],
                    wanted == search_filter(search.deep_view()),
                    search.deep_view() == Some(text@),
                    needle@ == lower_case(text@),
                    kept.deep_view() == records.take(it.index() as int).filter(wanted),
            {
                proof {
                    broadcast use Seq::lemma_filter_push;

                    assert(records.take(it.index() + 1) == records.take(it.index() as int).push(
                        entry@,
                    ));
                }
                if entry_holds(&entry, needle.as_str()) {
                    kept.push(entry);
                }
            }
            assert(records.take(records.len() as int) == records);
            kept
        },
    }
}

/// Keeps the entries that pass both filters, in their order: first the level
/// filter is applied, then the search filter.
pub fn filter_entries(entries: Vec<LogEntry>, config: &FilterConfig) -> (kept: Vec<LogEntry>)
    ensures
        kept.deep_view() == entries.deep_view().filter(both_filters(config@)),
{
    proof {
        lemma_filters_commute(entries.deep_view(), config@);
    }
    let errors = filter_by_level(entries, config.errors_only);
    filter_by_search(errors, &config.search)
}

/// A filter that every record passes keeps all records.
proof fn lemma_filter_all(records: Seq<LogRecord>, pred: spec_fn(LogRecord) -> bool)
    requires
        forall|record: LogRecord| #[trigger] pred(record),
    ensures
        records.filter(pred) == records,
    decreases records.len(),
{
    broadcast use Seq::lemma_filter_push;

    if records.len() == 0 {
        records.lemma_filter_len(pred);
    } else {
        lemma_filter_all(records.drop_last(), pred);
        assert(records == records.drop_last().push(records.last()));
    }
}

/// Filtering twice keeps what passes both predicates.
proof fn lemma_filter_twice(
    records: Seq<LogRecord>,
    first: spec_fn(LogRecord) -> bool,
    second: spec_fn(LogRecord) -> bool,
    both: spec_fn(LogRecord) -> bool,
)
    requires
        forall|record: LogRecord| #[trigger] both(record) == (first(record) && second(record)),
    ensures
        records.filter(first).filter(second) == records.filter(both),
    decreases records.len(),
{
    broadcast use Seq::lemma_filter_push;

    if records.len() == 0 {
        records.lemma_filter_len(first);
        records.lemma_filter_len(both);
        records.filter(first).lemma_filter_len(second);
    } else {
        lemma_filter_twice(records.drop_last(), first, second, both);
        assert(records == records.drop_last().push(records.last()));
    }
}

/// The two filters may be applied in either order: the level filter and then
/// the search filter, or the search filter and then the level filter, keep
/// the same records in the same order, namely those that pass both.
pub proof fn lemma_filters_commute(records: Seq<LogRecord>, filter: Filter)
    ensures
        records.filter(level_filter(filter.errors_only)).filter(search_filter(filter.search))
            == records.filter(both_filters(filter)),
        records.filter(search_filter(filter.search)).filter(level_filter(filter.errors_only))
            == records.filter(both_filters(filter)),
{
    lemma_filter_twice(
        records,
        level_filter(filter.errors_only),
        search_filter(filter.search),
        both_filters(filter),
    );
    lemma_filter_twice(
        records,
        search_filter(filter.search),
        level_filter(filter.errors_only),
        both_filters(filter),
    );
}

} // verus!
