//! Log records and the parser that reads one from a line of text.

use vstd::prelude::*;

use crate::level::LogLevel;
use crate::pattern::{capture_groups, regex_captures};
use crate::text::upper_case;

verus! {

/// The shape of a log line: a timestamp `YYYY-MM-DD HH:MM:SS`, a level token
/// of word characters in square brackets, and the message, which is the rest
/// of the line and may be empty. Runs of whitespace separate date and time,
/// timestamp and bracket, bracket and message. The pattern is anchored at
/// both ends of the line and captures timestamp, level token and message as
/// groups 1, 2 and 3.
pub const LINE_PATTERN: &'static str =
    r"^(\d{4}-\d{2}-\d{2}\s+\d{2}:\d{2}:\d{2})\s+\[(\w+)\]\s+(.*)$";

/// One parsed log line.
#[derive(Debug, PartialEq, Eq)]
pub struct LogEntry {
    pub timestamp: String,
    pub level: LogLevel,
    pub message: String,
}

/// A log entry as a mathematical value.
pub struct LogRecord {
    pub timestamp: Seq<char>,
    pub level: LogLevel,
    pub message: Seq<char>,
}

impl View for LogEntry {
    type V = LogRecord;

    open spec fn view(&self) -> LogRecord {
        LogRecord { timestamp: self.timestamp@, level: self.level, message: self.message@ }
    }
}

impl DeepView for LogEntry {
    type V = LogRecord;

    open spec fn deep_view(&self) -> LogRecord {
        self@
    }
}

impl Clone for LogEntry {
    fn clone(&self) -> (copy: Self)
        ensures
            copy == *self,
    {
        LogEntry {
            timestamp: self.timestamp.clone(),
            level: self.level,
            message: self.message.clone(),
        }
    }
}

/// The predicate that holds of the records of one level.
pub open spec fn has_level(level: LogLevel) -> spec_fn(LogRecord) -> bool {
    |record: LogRecord| record.level == level
}

/// The record that the capture groups of a matched line give: groups 1, 2 and
/// 3 must all have taken part in the match, and the level token, put in upper
/// case, must name a level. The timestamp and the message are the texts of
/// groups 1 and 3 as they stand.
pub open spec fn record_of_groups(groups: Seq<Option<Seq<char>>>) -> Option<LogRecord> {
    if groups.len() >= 4 && groups[1] is Some && groups[2] is Some && groups[3] is Some {
        match LogLevel::of_token(upper_case(groups[2]->0)) {
            Some(level) => Some(
                LogRecord { timestamp: groups[1]->0, level, message: groups[3]->0 },
            ),
            None => None,
        }
    } else {
        None
    }
}

/// The record that a line stands for, if any: the line must match
/// [`LINE_PATTERN`] and its capture groups must give a record.
pub open spec fn record_of_line(line: Seq<char>) -> Option<LogRecord> {
    match regex_captures(LINE_PATTERN@, line) {
        Some(groups) => record_of_groups(groups),
        None => None,
    }
}

/// A line that matches the pattern, and whose level token names a level
/// without regard to case, stands for the record of its captured groups: the
/// timestamp and the message are the texts of groups 1 and 3, and the level
/// is the one that the text of group 2 names.
pub proof fn lemma_matching_line_parses(
    line: Seq<char>,
    groups: Seq<Option<Seq<char>>>,
    level: LogLevel,
)
    requires
        regex_captures(LINE_PATTERN@, line) == Some(groups),
        groups.len() >= 4,
        groups[1] is Some,
        groups[2] is Some,
        groups[3] is Some,
        LogLevel::of_token(upper_case(groups[2]->0)) == Some(level),
    ensures
        record_of_line(line) == Some(
            LogRecord { timestamp: groups[1]->0, level, message: groups[3]->0 },
        ),
{
}

/// A line that does not match the pattern stands for no record, and neither
/// does a line whose level token names no level.
pub proof fn lemma_other_line_is_rejected(line: Seq<char>)
    requires
        match regex_captures(LINE_PATTERN@, line) {
            Some(groups) => groups.len() >= 4 && groups[2] is Some && LogLevel::of_token(
                upper_case(groups[2]->0),
            ) is None,
            None => true,
        },
    ensures
        record_of_line(line) is None,
{
}

/// Builds the entry from the capture groups of a matched line.
pub fn entry_from_groups(groups: Vec<Option<String>>) -> (entry: Option<LogEntry>)
    ensures
        entry.deep_view() == record_of_groups(groups.deep_view()),
{
    let mut groups = groups;
    if groups.len() < 4 {
        return None;
    }
    let message = groups.remove(3);
    let token = groups.remove(2);
    let timestamp = groups.remove(1);
    match (timestamp, token, message) {
        (Some(timestamp), Some(token), Some(message)) => {
            match LogLevel::from_str(token.as_str()) {
                Some(level) => Some(LogEntry { timestamp, level, message }),
                None => None,
            }
        },
        _ => None,
    }
}

/// Parses one line of a log. A line that does not match [`LINE_PATTERN`], or
/// whose level token names no level, gives `None`; every other line gives the
/// entry whose fields are the captured timestamp, the level that the captured
/// token names, and the captured message.
pub fn parse_log_line(line: &str) -> (entry: Option<LogEntry>)
    ensures
        entry.deep_view() == record_of_line(line@),
{
    match capture_groups(LINE_PATTERN, line) {
        Some(groups) => entry_from_groups(groups),
        None => None,
    }
}

/// The function that gives the record of a line, if the line stands for one.
pub open spec fn line_record() -> spec_fn(Seq<char>) -> Option<LogRecord> {
    |line: Seq<char>| record_of_line(line)
}

/// The records of the lines that stand for one, in the order of the lines.
/// Lines that stand for no record are passed over.
pub open spec fn records_of_lines(lines: Seq<Seq<char>>) -> Seq<LogRecord> {
    lines.filter_map(line_record())
}

/// Parses the lines of a log, passing over those that stand for no record.
pub fn parse_lines(lines: &[String]) -> (entries: Vec<LogEntry>)
    ensures
        entries.deep_view() == records_of_lines(lines.deep_view()),
{
    let ghost texts = lines.deep_view();
    let mut entries: Vec<LogEntry> = Vec::new();
    let mut read: usize = 0;
    assert(texts.take(0).filter_map(line_record()) == Seq::<LogRecord>::empty()) by {
        reveal_with_fuel(Seq::filter_map, 1);
    }
    while read < lines.len()
        invariant
            read <= lines.len(),
            texts == lines.deep_view(),
            entries.deep_view() == records_of_lines(texts.take(read as int)),
        decreases lines.len() - read,
    {
        proof {
            texts.lemma_filter_map_take_succ(line_record(), read as int);
        }
        if let Some(entry) = parse_log_line(lines[read].as_str()) {
            entries.push(entry);
        }
        read += 1;
    }
    assert(texts.take(read as int) == texts);
    entries
}

} // verus!
