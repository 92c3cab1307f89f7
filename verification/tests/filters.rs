use loglyzer::{
    entry_holds, filter_by_level, filter_by_search, filter_entries, found_in_any, FilterConfig,
    LogEntry, LogLevel,
};

fn entry(timestamp: &str, level: LogLevel, message: &str) -> LogEntry {
    LogEntry { timestamp: timestamp.to_string(), level, message: message.to_string() }
}

fn sample() -> Vec<LogEntry> {
    vec![
        entry("2024-01-01 10:00:00", LogLevel::Error, "disk full"),
        entry("2024-01-01 10:00:05", LogLevel::Info, "startup complete"),
        entry("2024-01-01 10:00:10", LogLevel::Error, "Disk FULL again"),
        entry("2024-01-01 10:00:15", LogLevel::Warning, "low memory"),
        entry("2024-02-01 11:30:00", LogLevel::Debug, "memory map: error table empty"),
    ]
}

fn config(errors_only: bool, search: Option<&str>) -> FilterConfig {
    FilterConfig { errors_only, search: search.map(|text| text.to_string()) }
}

#[test]
fn no_filter_keeps_everything() {
    assert_eq!(filter_entries(sample(), &config(false, None)), sample());
}

#[test]
fn errors_only_keeps_the_errors_in_order() {
    let kept = filter_entries(sample(), &config(true, None));
    assert_eq!(
        kept,
        vec![
            entry("2024-01-01 10:00:00", LogLevel::Error, "disk full"),
            entry("2024-01-01 10:00:10", LogLevel::Error, "Disk FULL again"),
        ]
    );
}

#[test]
fn search_looks_at_the_message_without_regard_to_case() {
    let kept = filter_entries(sample(), &config(false, Some("DISK full")));
    assert_eq!(
        kept,
        vec![
            entry("2024-01-01 10:00:00", LogLevel::Error, "disk full"),
            entry("2024-01-01 10:00:10", LogLevel::Error, "Disk FULL again"),
        ]
    );
}

#[test]
fn search_looks_at_the_timestamp() {
    let kept = filter_entries(sample(), &config(false, Some("10:00:1")));
    assert_eq!(
        kept,
        vec![
            entry("2024-01-01 10:00:10", LogLevel::Error, "Disk FULL again"),
            entry("2024-01-01 10:00:15", LogLevel::Warning, "low memory"),
        ]
    );
}

#[test]
fn search_looks_at_the_level_name() {
    let kept = filter_entries(sample(), &config(false, Some("Warn")));
    assert_eq!(kept, vec![entry("2024-01-01 10:00:15", LogLevel::Warning, "low memory")]);
    // `error` is the name of a level and part of a debug message.
    let kept = filter_entries(sample(), &config(false, Some("error")));
    assert_eq!(
        kept,
        vec![
            entry("2024-01-01 10:00:00", LogLevel::Error, "disk full"),
            entry("2024-01-01 10:00:10", LogLevel::Error, "Disk FULL again"),
            entry("2024-02-01 11:30:00", LogLevel::Debug, "memory map: error table empty"),
        ]
    );
}

#[test]
fn search_for_the_short_level_token_finds_nothing_by_itself() {
    // The level is searched by its name, `Warning`, which holds `warn`
    // but not `WARN ` with a blank.
    let kept = filter_entries(sample(), &config(false, Some("warn ")));
    assert_eq!(kept, Vec::<LogEntry>::new());
}

#[test]
fn empty_search_text_keeps_everything() {
    assert_eq!(filter_entries(sample(), &config(false, Some(""))), sample());
}

#[test]
fn search_that_nothing_holds_keeps_nothing() {
    assert_eq!(filter_entries(sample(), &config(false, Some("kernel"))), Vec::<LogEntry>::new());
}

#[test]
fn both_filters_must_hold() {
    let kept = filter_entries(sample(), &config(true, Some("memory")));
    assert_eq!(kept, Vec::<LogEntry>::new());
    let kept = filter_entries(sample(), &config(true, Some("again")));
    assert_eq!(kept, vec![entry("2024-01-01 10:00:10", LogLevel::Error, "Disk FULL again")]);
}

#[test]
fn filters_commute() {
    for errors_only in [false, true] {
        for search in [None, Some("memory"), Some("disk"), Some("error"), Some("10:00"), Some("")] {
            let search_text = search.map(|text| text.to_string());
            let level_first =
                filter_by_search(filter_by_level(sample(), errors_only), &search_text);
            let search_first =
                filter_by_level(filter_by_search(sample(), &search_text), errors_only);
            let both = filter_entries(sample(), &config(errors_only, search));
            assert_eq!(level_first, search_first);
            assert_eq!(level_first, both);
        }
    }
}

#[test]
fn filter_by_level_alone() {
    assert_eq!(filter_by_level(sample(), false), sample());
    assert_eq!(filter_by_level(sample(), true).len(), 2);
    assert_eq!(filter_by_level(Vec::new(), true), Vec::<LogEntry>::new());
}

#[test]
fn filter_by_search_alone() {
    assert_eq!(filter_by_search(sample(), &None), sample());
    assert_eq!(
        filter_by_search(sample(), &Some("MEMORY".to_string())),
        vec![
            entry("2024-01-01 10:00:15", LogLevel::Warning, "low memory"),
            entry("2024-02-01 11:30:00", LogLevel::Debug, "memory map: error table empty"),
        ]
    );
}

#[test]
fn entry_holds_wants_a_lower_case_needle() {
    let record = entry("2024-01-01 10:00:10", LogLevel::Error, "Disk FULL again");
    assert!(entry_holds(&record, "disk full"));
    assert!(entry_holds(&record, "error"));
    assert!(entry_holds(&record, "01-01 10"));
    assert!(entry_holds(&record, ""));
    // The entry is put in lower case, the needle is not.
    assert!(!entry_holds(&record, "Disk"));
    assert!(!entry_holds(&record, "Error"));
    assert!(!entry_holds(&record, "warning"));
}

#[test]
fn found_in_any_looks_in_all_three_texts() {
    assert!(found_in_any("b", "abc", "", ""));
    assert!(found_in_any("b", "", "abc", ""));
    assert!(found_in_any("b", "", "", "abc"));
    assert!(found_in_any("abc", "abc", "x", "y"));
    assert!(found_in_any("", "", "", ""));
    assert!(!found_in_any("d", "abc", "abc", "abc"));
    assert!(!found_in_any("ac", "abc", "a", "c"));
    assert!(!found_in_any("abcd", "abc", "bcd", ""));
}
