//! Aggregation of log entries into statistics: the number of entries, the
//! number of entries of each level, and the most frequent error messages.

use vstd::prelude::*;

use crate::entry::{has_level, LogEntry, LogRecord};
use crate::level::LogLevel;
use crate::ranking::{
    descending, leading, lemma_ranked_holds, lemma_ranked_order, lemma_ranked_rows,
    lemma_ranked_sorts, ranked, top_ranked,
};
use crate::tally::{
    error_count, error_tally, lemma_error_tally_rows, lemma_tally_order, lemma_tally_skip,
    occurs_before, ErrorCounter, ErrorFrequency, Tally,
};

verus! {

/// The number of entries of one level.
#[derive(Debug, PartialEq, Eq)]
pub struct LevelCount {
    pub level: String,
    pub count: usize,
}

impl View for LevelCount {
    type V = Tally;

    open spec fn view(&self) -> Tally {
        Tally { name: self.level@, count: self.count as nat }
    }
}

impl DeepView for LevelCount {
    type V = Tally;

    open spec fn deep_view(&self) -> Tally {
        self@
    }
}

/// The number of records of one level.
pub open spec fn level_count(records: Seq<LogRecord>, level: LogLevel) -> nat {
    records.filter(has_level(level)).len()
}

/// The row of one level in the per-level counts: the level's name with the
/// number of its records, or nothing where the level does not occur.
pub open spec fn level_row(records: Seq<LogRecord>, level: LogLevel) -> Seq<Tally> {
    if level_count(records, level) > 0 {
        seq![Tally { name: level.display_name(), count: level_count(records, level) }]
    } else {
        Seq::empty()
    }
}

/// The per-level counts of a sequence of records: one row for each level that
/// occurs, in the order `Info`, `Warning`, `Error`, `Debug`.
pub open spec fn level_rows(records: Seq<LogRecord>) -> Seq<Tally> {
    level_row(records, LogLevel::Info) + level_row(records, LogLevel::Warning) + level_row(
        records,
        LogLevel::Error,
    ) + level_row(records, LogLevel::Debug)
}

/// The sum of the counts of a sequence of rows.
pub open spec fn total_count(rows: Seq<Tally>) -> nat
    decreases rows.len(),
{
    if rows.len() == 0 {
        0
    } else {
        total_count(rows.drop_last()) + rows.last().count
    }
}

/// Every record has exactly one level, so the numbers of records of the four
/// levels add up to the number of records.
pub proof fn lemma_levels_partition(records: Seq<LogRecord>)
    ensures
        level_count(records, LogLevel::Info) + level_count(records, LogLevel::Warning)
            + level_count(records, LogLevel::Error) + level_count(records, LogLevel::Debug)
            == records.len(),
    decreases records.len(),
{
    broadcast use Seq::lemma_filter_len_push;

    if records.len() == 0 {
        assert(level_count(records, LogLevel::Info) == 0) by {
            records.lemma_filter_len(has_level(LogLevel::Info));
        }
        assert(level_count(records, LogLevel::Warning) == 0) by {
            records.lemma_filter_len(has_level(LogLevel::Warning));
        }
        assert(level_count(records, LogLevel::Error) == 0) by {
            records.lemma_filter_len(has_level(LogLevel::Error));
        }
        assert(level_count(records, LogLevel::Debug) == 0) by {
            records.lemma_filter_len(has_level(LogLevel::Debug));
        }
    } else {
        let earlier = records.drop_last();
        lemma_levels_partition(earlier);
        assert(records == earlier.push(records.last()));
    }
}

/// The counts in the per-level rows add up to the number of records.
pub proof fn lemma_level_rows_total(records: Seq<LogRecord>)
    ensures
        total_count(level_rows(records)) == records.len(),
{
    lemma_levels_partition(records);
    let info = level_row(records, LogLevel::Info);
    let warning = level_row(records, LogLevel::Warning);
    let error = level_row(records, LogLevel::Error);
    let debug = level_row(records, LogLevel::Debug);
    lemma_total_count_row(Seq::empty(), records, LogLevel::Info);
    lemma_total_count_row(info, records, LogLevel::Warning);
    lemma_total_count_row(info + warning, records, LogLevel::Error);
    lemma_total_count_row(info + warning + error, records, LogLevel::Debug);
    assert(Seq::<Tally>::empty() + info == info);
    assert(total_count(Seq::<Tally>::empty()) == 0);
}

/// Adding the row of one level to some rows adds the number of that level's
/// records to their sum.
proof fn lemma_total_count_row(rows: Seq<Tally>, records: Seq<LogRecord>, level: LogLevel)
    ensures
        total_count(rows + level_row(records, level)) == total_count(rows) + level_count(
            records,
            level,
        ),
{
    let row = level_row(records, level);
    if row.len() == 0 {
        assert(rows + row == rows);
    } else {
        assert((rows + row).drop_last() == rows);
    }
}

/// What an analysis of log entries yields.
#[derive(Debug, PartialEq, Eq)]
pub struct LogStats {
    /// The number of entries.
    pub total_entries: usize,
    /// The number of entries of each level that occurs, in the order `Info`,
    /// `Warning`, `Error`, `Debug`.
    pub by_level: Vec<LevelCount>,
    /// The most frequent error messages, the most frequent first.
    pub top_errors: Vec<ErrorFrequency>,
}

/// Statistics as a mathematical value.
pub struct Statistics {
    pub total_entries: nat,
    pub by_level: Seq<Tally>,
    pub top_errors: Seq<Tally>,
}

impl View for LogStats {
    type V = Statistics;

    open spec fn view(&self) -> Statistics {
        Statistics {
            total_entries: self.total_entries as nat,
            by_level: self.by_level.deep_view(),
            top_errors: self.top_errors.deep_view(),
        }
    }
}

/// The statistics of a sequence of records, with at most `top_n` error
/// messages: the number of records, the per-level counts, and the `top_n`
/// most frequent error messages. Among error messages of equal frequency the
/// one that occurs first in the records comes first.
pub open spec fn statistics(records: Seq<LogRecord>, top_n: nat) -> Statistics {
    Statistics {
        total_entries: records.len(),
        by_level: level_rows(records),
        top_errors: leading(ranked(error_tally(records)), top_n),
    }
}

impl LogStats {
    /// What holds of all statistics that an analysis yields: the per-level
    /// counts add up to the number of entries, and the counts of the error
    /// messages never rise from one to the next.
    pub open spec fn well_formed(&self) -> bool {
        &&& total_count(self@.by_level) == self@.total_entries
        &&& descending(self@.top_errors)
    }
}

/// Adds the row of `level` to the per-level rows, unless `count` is zero.
fn push_level_row(rows: &mut Vec<LevelCount>, level: LogLevel, count: usize)
    ensures
        final(rows).deep_view() == old(rows).deep_view() + (if count > 0 {
            seq![Tally { name: level.display_name(), count: count as nat }]
        } else {
            Seq::empty()
        }),
{
    if count > 0 {
        rows.push(LevelCount { level: level.name().to_owned(), count });
    }
    assert(rows.deep_view() =~= old(rows).deep_view() + (if count > 0 {
        seq![Tally { name: level.display_name(), count: count as nat }]
    } else {
        Seq::empty()
    }));
}

/// Aggregates log entries into statistics: the number of entries, the number
/// of entries of each level that occurs, and the `top_n` most frequent
/// messages of the error entries, the most frequent first. Error messages of
/// equal frequency stand in the order in which they first occur in `entries`.
pub fn analyze_logs(entries: &[LogEntry], top_n: usize) -> (stats: LogStats)
    ensures
        stats@ == statistics(entries.deep_view(), top_n as nat),
        stats.well_formed(),
        stats.total_entries == entries.len(),
        stats.top_errors.len() <= top_n,
        top_n == 0 ==> stats@.top_errors == Seq::<Tally>::empty(),
{
    let ghost records = entries.deep_view();
    let mut info: usize = 0;
    let mut warning: usize = 0;
    let mut error: usize = 0;
    let mut debug: usize = 0;
    let mut counter = ErrorCounter::new();
    let mut seen: usize = 0;
    proof {
        let none = records.take(0);
        none.lemma_filter_len(has_level(LogLevel::Info));
        none.lemma_filter_len(has_level(LogLevel::Warning));
        none.lemma_filter_len(has_level(LogLevel::Error));
        none.lemma_filter_len(has_level(LogLevel::Debug));
        assert(error_tally(none) =~= Seq::empty());
    }
    while seen < entries.len()
        invariant
            seen <= entries.len(),
            records == entries.deep_view(),
            info == level_count(records.take(seen as int), LogLevel::Info),
            warning == level_count(records.take(seen as int), LogLevel::Warning),
            error == level_count(records.take(seen as int), LogLevel::Error),
            debug == level_count(records.take(seen as int), LogLevel::Debug),
            counter.well_formed(),
            counter.tally() == error_tally(records.take(seen as int)),
        decreases entries.len() - seen,
    {
        let entry = &entries[seen];
        let ghost earlier = records.take(seen as int);
        proof {
            broadcast use Seq::lemma_filter_len_push;

            assert(records.take(seen + 1) == earlier.push(entry@));
            lemma_levels_partition(earlier);
        }
        match entry.level {
            LogLevel::Info => {
                info += 1;
            },
            LogLevel::Warning => {
                warning += 1;
            },
            LogLevel::Error => {
                error += 1;
                counter.count(&entry.message, Ghost(earlier), Ghost(entry@));
            },
            LogLevel::Debug => {
                debug += 1;
            },
        }
        proof {
            if entry.level != LogLevel::Error {
                lemma_tally_skip(earlier, entry@);
            }
        }
        seen += 1;
    }
    assert(records.take(seen as int) == records);
    let mut by_level: Vec<LevelCount> = Vec::new();
    push_level_row(&mut by_level, LogLevel::Info, info);
    push_level_row(&mut by_level, LogLevel::Warning, warning);
    push_level_row(&mut by_level, LogLevel::Error, error);
    push_level_row(&mut by_level, LogLevel::Debug, debug);
    assert(by_level.deep_view() =~= level_rows(records));
    let top_errors = top_ranked(counter.into_rows(), top_n);
    proof {
        lemma_level_rows_total(records);
        lemma_top_errors(records, top_n as nat);
    }
    LogStats { total_entries: entries.len(), by_level, top_errors }
}

/// The most frequent error messages of the statistics: there are `top_n` of
/// them, or as many as there are distinct error messages if those are fewer;
/// their counts never rise from one to the next; each is the message of some
/// error record, stands there once, and has as its count the number of error
/// records that bear it; and no error message that is left out is borne by
/// more error records than one that is kept.
pub proof fn lemma_top_errors(records: Seq<LogRecord>, top_n: nat)
    ensures
        ({
            let top = statistics(records, top_n).top_errors;
            let distinct = error_tally(records).len();
            &&& top.len() == if top_n < distinct { top_n } else { distinct }
            &&& descending(top)
            &&& forall|k: int|
                0 <= k < top.len() ==> {
                    let row = #[trigger] top[k];
                    row.count == error_count(records, row.name) && row.count > 0
                }
            &&& forall|i: int, j: int| 0 <= i < j < top.len() ==> top[i].name != top[j].name
            &&& forall|message: Seq<char>, k: int|
                error_count(records, message) > 0 && !top.contains(
                    Tally { name: message, count: error_count(records, message) },
                ) && 0 <= k < top.len() ==> (#[trigger] top[k]).count >= #[trigger] error_count(
                    records,
                    message,
                )
        }),
{
    let tally = error_tally(records);
    let ranking = ranked(tally);
    let top = leading(ranking, top_n);
    lemma_error_tally_rows(records);
    lemma_ranked_sorts(tally);
    lemma_ranked_rows(tally);
    assert(tally.no_duplicates());
    assert forall|k: int| 0 <= k < top.len() implies {
        let row = #[trigger] top[k];
        row.count == error_count(records, row.name) && row.count > 0
    } by {
        assert(top[k] == ranking[k]);
        assert(tally.contains(ranking[k]));
    }
    assert forall|i: int, j: int| 0 <= i < j < top.len() implies top[i].name != top[j].name by {
        assert(top[i] == ranking[i] && top[j] == ranking[j]);
        assert(tally.contains(ranking[i]) && tally.contains(ranking[j]));
    }
    assert forall|message: Seq<char>, k: int|
        error_count(records, message) > 0 && !top.contains(
            Tally { name: message, count: error_count(records, message) },
        ) && 0 <= k < top.len() implies (#[trigger] top[k]).count >= #[trigger] error_count(
        records,
        message,
    ) by {
        let row = Tally { name: message, count: error_count(records, message) };
        let at = choose|at: int| 0 <= at < tally.len() && tally[at] == row;
        lemma_ranked_holds(tally, at);
        let i = choose|i: int| 0 <= i < ranking.len() && ranking[i] == row;
        if i < top.len() {
            assert(top[i] == row);
        }
        assert(top[k] == ranking[k]);
    }
}

/// Among the most frequent error messages of the statistics, those with
/// equal counts stand in the order in which they first occur in the records.
pub proof fn lemma_equal_counts_order(records: Seq<LogRecord>, top_n: nat, first: int, second: int)
    requires
        0 <= first < second < statistics(records, top_n).top_errors.len(),
        statistics(records, top_n).top_errors[first].count == statistics(
            records,
            top_n,
        ).top_errors[second].count,
    ensures
        occurs_before(
            records,
            statistics(records, top_n).top_errors[first].name,
            statistics(records, top_n).top_errors[second].name,
        ),
{
    let tally = error_tally(records);
    let ranking = ranked(tally);
    let top = leading(ranking, top_n);
    lemma_error_tally_rows(records);
    lemma_ranked_sorts(tally);
    lemma_ranked_rows(tally);
    assert(tally.no_duplicates());
    assert(top[first] == ranking[first] && top[second] == ranking[second]);
    assert(tally.contains(ranking[first]) && tally.contains(ranking[second]));
    let i = choose|i: int| 0 <= i < tally.len() && tally[i] == ranking[first];
    let j = choose|j: int| 0 <= j < tally.len() && tally[j] == ranking[second];
    if i < j {
        lemma_tally_order(records, i, j);
    } else {
        assert(j < i);
        lemma_ranked_order(tally, j, i);
        let (early, late) = choose|early: int, late: int|
            0 <= early < late < ranking.len() && ranking[early] == tally[j] && ranking[late]
                == tally[i];
        assert(early == second && late == first);
    }
}

/// Analysing the same records with the same limit twice gives the same
/// statistics: whatever two analyses return, their values are equal.
pub proof fn lemma_analysis_repeatable(
    first: LogStats,
    second: LogStats,
    records: Seq<LogRecord>,
    top_n: nat,
)
    requires
        first@ == statistics(records, top_n),
        second@ == statistics(records, top_n),
    ensures
        first@ == second@,
        first@.by_level == second@.by_level,
        first@.top_errors == second@.top_errors,
{
}

} // verus!
