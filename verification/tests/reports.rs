use loglyzer::{csv_lines, error_table, level_table, ErrorFrequency, LevelCount, LogStats};

fn stats() -> LogStats {
    LogStats {
        total_entries: 1234,
        by_level: vec![
            LevelCount { level: "Info".to_string(), count: 1 },
            LevelCount { level: "Warning".to_string(), count: 23 },
            LevelCount { level: "Error".to_string(), count: 1210 },
        ],
        top_errors: vec![
            ErrorFrequency { message: "disk full".to_string(), count: 1200 },
            ErrorFrequency { message: "a, b".to_string(), count: 10 },
        ],
    }
}

fn empty() -> LogStats {
    LogStats { total_entries: 0, by_level: vec![], top_errors: vec![] }
}

fn cells(table: &prettytable::Table) -> Vec<Vec<String>> {
    table
        .row_iter()
        .map(|row| row.iter().map(|cell| cell.get_content()).collect())
        .collect()
}

fn texts(rows: &[[&str; 2]]) -> Vec<Vec<String>> {
    rows.iter().map(|row| row.iter().map(|cell| cell.to_string()).collect()).collect()
}

#[test]
fn level_table_has_headings_and_one_row_for_each_level() {
    assert_eq!(
        cells(&level_table(&stats())),
        texts(&[["Level", "Count"], ["Info", "1"], ["Warning", "23"], ["Error", "1210"]])
    );
}

#[test]
fn level_table_of_nothing_has_the_headings_only() {
    assert_eq!(cells(&level_table(&empty())), texts(&[["Level", "Count"]]));
}

#[test]
fn level_table_prints_as_a_grid() {
    let printed = level_table(&stats()).to_string();
    let lines: Vec<&str> = printed.lines().collect();
    assert_eq!(
        lines,
        vec![
            "+---------+-------+",
            "| Level   | Count |",
            "+---------+-------+",
            "| Info    | 1     |",
            "+---------+-------+",
            "| Warning | 23    |",
            "+---------+-------+",
            "| Error   | 1210  |",
            "+---------+-------+",
        ]
    );
}

#[test]
fn error_table_has_headings_and_one_row_for_each_message() {
    let table = error_table(&stats()).unwrap();
    assert_eq!(
        cells(&table),
        texts(&[["Message", "Occurrences"], ["disk full", "1200"], ["a, b", "10"]])
    );
}

#[test]
fn error_table_is_missing_without_top_errors() {
    assert!(error_table(&empty()).is_none());
    let no_errors = LogStats {
        total_entries: 1,
        by_level: vec![LevelCount { level: "Info".to_string(), count: 1 }],
        top_errors: vec![],
    };
    assert!(error_table(&no_errors).is_none());
}

#[test]
fn csv_lines_start_with_the_heading() {
    assert_eq!(csv_lines(&empty()), vec!["level,count".to_string()]);
}

#[test]
fn csv_lines_hold_name_and_count() {
    assert_eq!(
        csv_lines(&stats()),
        vec![
            "level,count".to_string(),
            "Info,1".to_string(),
            "Warning,23".to_string(),
            "Error,1210".to_string(),
        ]
    );
}

#[test]
fn counts_are_written_in_decimal() {
    for count in [0usize, 7, 9, 10, 11, 99, 100, 101, 4096, 1_000_000, usize::MAX] {
        let one = LogStats {
            total_entries: count,
            by_level: vec![LevelCount { level: "Debug".to_string(), count }],
            top_errors: vec![],
        };
        assert_eq!(csv_lines(&one)[1], format!("Debug,{}", count));
    }
    let big = LogStats {
        total_entries: 9081726354,
        by_level: vec![LevelCount { level: "Debug".to_string(), count: 9081726354 }],
        top_errors: vec![],
    };
    assert_eq!(csv_lines(&big)[1], "Debug,9081726354");
}
