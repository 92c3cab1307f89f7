//! The statistics laid out for a reader: as tables of the `prettytable`
//! crate and as comma-separated lines.
//!
//! The table type and the two functions that make a table and add a row to
//! it are trusted: Verus takes their contracts for granted and does not look
//! at their bodies.

use vstd::prelude::*;
use vstd::string::StringExecFns;

use crate::tally::Tally;
use crate::stats::LogStats;
use crate::text::{decimal, decimal_text, push_decimal};

verus! {

/// `prettytable::Table`, a table of rows of text cells.
#[verifier::external_type_specification]
#[verifier::external_body]
pub struct ExTable(prettytable::Table);

/// The rows of a table, each as the texts of its cells, as
/// `prettytable::Cell::get_content` gives them.
pub uninterp spec fn table_rows(table: prettytable::Table) -> Seq<Seq<Seq<char>>>;

/// The text that `prettytable::Cell::get_content` gives for a cell that
/// `prettytable::Cell::new` has made from `text`.
pub uninterp spec fn cell_text(text: Seq<char>) -> Seq<char>;

/// Calls `prettytable::Table::new`, which makes a table without rows.
#[verifier::external_body]
fn empty_table() -> (table: prettytable::Table)
    ensures
        table_rows(table) == Seq::<Seq<Seq<char>>>::empty(),
{
    prettytable::Table::new()
}

/// Calls `prettytable::Table::add_row` with a row of one cell for each text,
/// made by `prettytable::Row::new` and `prettytable::Cell::new`: the row is
/// added behind the rows that the table has.
#[verifier::external_body]
fn add_text_row(table: &mut prettytable::Table, texts: &Vec<String>)
    ensures
        table_rows(*final(table)) == table_rows(*old(table)).push(
            texts.deep_view().map_values(|text: Seq<char>| cell_text(text)),
        ),
{
    let cells = texts.iter().map(|text| prettytable::Cell::new(text)).collect();
    table.add_row(prettytable::Row::new(cells));
}

/// The texts of a row with a name and a count.
pub open spec fn counted_row(row: Tally) -> Seq<Seq<char>> {
    seq![cell_text(row.name), cell_text(decimal(row.count))]
}

/// The rows of a table with two columns: the headings, then one row for each
/// counted name, with the name and the count in decimal digits.
pub open spec fn counted_rows(
    name_heading: Seq<char>,
    count_heading: Seq<char>,
    rows: Seq<Tally>,
) -> Seq<Seq<Seq<char>>> {
    seq![seq![cell_text(name_heading), cell_text(count_heading)]] + rows.map_values(
        |row: Tally| counted_row(row),
    )
}

/// Adds a row of two cells to a table.
fn add_pair(table: &mut prettytable::Table, first: &str, second: &str)
    ensures
        table_rows(*final(table)) == table_rows(*old(table)).push(
            seq![cell_text(first@), cell_text(second@)],
        ),
{
    let mut texts: Vec<String> = Vec::new();
    texts.push(first.to_owned());
    texts.push(second.to_owned());
    add_text_row(table, &texts);
    assert(texts.deep_view().map_values(|text: Seq<char>| cell_text(text)) == seq![
        cell_text(first@),
        cell_text(second@),
    ]);
}

/// Adds the row of a counted name to a table.
fn add_counted(table: &mut prettytable::Table, name: &str, count: usize)
    ensures
        table_rows(*final(table)) == table_rows(*old(table)).push(
            counted_row(Tally { name: name@, count: count as nat }),
        ),
{
    let digits = decimal_text(count);
    add_pair(table, name, digits.as_str());
}

/// The table of the per-level counts: the headings `Level` and `Count`, then
/// one row for each level that occurs.
pub fn level_table(stats: &LogStats) -> (table: prettytable::Table)
    ensures
        table_rows(table) == counted_rows("Level"@, "Count"@, stats@.by_level),
{
    let mut table = empty_table();
    add_pair(&mut table, "Level", "Count");
    let mut done: usize = 0;
    while done < stats.by_level.len()
        invariant
            done <= stats.by_level.len(),
            table_rows(table) == counted_rows(
                "Level"@,
                "Count"@,
                stats@.by_level.take(done as int),
            ),
        decreases stats.by_level.len() - done,
    {
        let row = &stats.by_level[done];
        add_counted(&mut table, row.level.as_str(), row.count);
        assert(counted_rows("Level"@, "Count"@, stats@.by_level.take(done + 1))
            == counted_rows("Level"@, "Count"@, stats@.by_level.take(done as int)).push(
            counted_row(row@),
        ));
        done += 1;
    }
    table
}

/// The table of the most frequent error messages: the headings `Message` and
/// `Occurrences`, then one row for each message. Where the statistics hold no
/// error message there is no table.
pub fn error_table(stats: &LogStats) -> (table: Option<prettytable::Table>)
    ensures
        stats.top_errors.len() == 0 ==> table is None,
        stats.top_errors.len() > 0 ==> table is Some && table_rows(table->0) == counted_rows(
            "Message"@,
            "Occurrences"@,
            stats@.top_errors,
        ),
{
    if stats.top_errors.len() == 0 {
        return None;
    }
    let mut table = empty_table();
    add_pair(&mut table, "Message", "Occurrences");
    let mut done: usize = 0;
    while done < stats.top_errors.len()
        invariant
            done <= stats.top_errors.len(),
            table_rows(table) == counted_rows(
                "Message"@,
                "Occurrences"@,
                stats@.top_errors.take(done as int),
            ),
        decreases stats.top_errors.len() - done,
    {
        let row = &stats.top_errors[done];
        add_counted(&mut table, row.message.as_str(), row.count);
        assert(counted_rows("Message"@, "Occurrences"@, stats@.top_errors.take(done + 1))
            == counted_rows("Message"@, "Occurrences"@, stats@.top_errors.take(done as int)).push(
            counted_row(row@),
        ));
        done += 1;
    }
    Some(table)
}

/// A line of comma-separated values with a name and a count.
pub open spec fn csv_line(row: Tally) -> Seq<char> {
    row.name + ","@ + decimal(row.count)
}

/// The per-level counts as comma-separated lines: the heading `level,count`,
/// then one line for each level that occurs.
pub open spec fn csv_text(by_level: Seq<Tally>) -> Seq<Seq<char>> {
    seq!["level,count"@] + by_level.map_values(|row: Tally| csv_line(row))
}

/// The per-level counts as comma-separated lines: the heading `level,count`,
/// then one line for each level that occurs, with the level's name and the
/// count in decimal digits.
pub fn csv_lines(stats: &LogStats) -> (lines: Vec<String>)
    ensures
        lines.deep_view() == csv_text(stats@.by_level),
{
    let mut lines: Vec<String> = Vec::new();
    lines.push("level,count".to_owned());
    let mut done: usize = 0;
    while done < stats.by_level.len()
        invariant
            done <= stats.by_level.len(),
            lines.deep_view() == csv_text(stats@.by_level.take(done as int)),
        decreases stats.by_level.len() - done,
    {
        let row = &stats.by_level[done];
        let mut line = row.level.clone();
        line.append(",");
        push_decimal(&mut line, row.count);
        let ghost before = lines.deep_view();
        lines.push(line);
        assert(lines.deep_view() == before.push(csv_line(row@)));
        done += 1;
    }
    lines
}

} // verus!
