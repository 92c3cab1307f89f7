use loglyzer::{analyze_lines, ErrorFrequency, FilterConfig, LevelCount, LogStats};

fn sample() -> Vec<String> {
    [
        "2024-01-01 10:00:00 [ERROR] disk full",
        "2024-01-01 10:00:05 [INFO] startup complete",
        "2024-01-01 10:00:10 [ERROR] disk full",
        "2024-01-01 10:00:15 [WARN] low memory",
        "garbage line",
    ]
    .iter()
    .map(|line| line.to_string())
    .collect()
}

fn level(name: &str, count: usize) -> LevelCount {
    LevelCount { level: name.to_string(), count }
}

fn frequency(message: &str, count: usize) -> ErrorFrequency {
    ErrorFrequency { message: message.to_string(), count }
}

fn config(errors_only: bool, search: Option<&str>) -> FilterConfig {
    FilterConfig { errors_only, search: search.map(|text| text.to_string()) }
}

#[test]
fn whole_log_without_filters() {
    assert_eq!(
        analyze_lines(&sample(), &config(false, None), 5),
        LogStats {
            total_entries: 4,
            by_level: vec![level("Info", 1), level("Warning", 1), level("Error", 2)],
            top_errors: vec![frequency("disk full", 2)],
        }
    );
}

#[test]
fn whole_log_errors_only() {
    assert_eq!(
        analyze_lines(&sample(), &config(true, None), 5),
        LogStats {
            total_entries: 2,
            by_level: vec![level("Error", 2)],
            top_errors: vec![frequency("disk full", 2)],
        }
    );
}

#[test]
fn whole_log_searched_for_memory() {
    assert_eq!(
        analyze_lines(&sample(), &config(false, Some("memory")), 5),
        LogStats { total_entries: 1, by_level: vec![level("Warning", 1)], top_errors: vec![] }
    );
}

#[test]
fn whole_log_with_limit_zero() {
    for errors_only in [false, true] {
        for search in [None, Some("disk"), Some("memory")] {
            let stats = analyze_lines(&sample(), &config(errors_only, search), 0);
            assert_eq!(stats.top_errors, vec![]);
        }
    }
    assert_eq!(analyze_lines(&sample(), &config(true, Some("disk")), 0).total_entries, 2);
}

#[test]
fn log_without_a_parsable_line() {
    let lines = vec!["garbage".to_string(), String::new(), "[ERROR] no timestamp".to_string()];
    assert_eq!(
        analyze_lines(&lines, &config(false, None), 5),
        LogStats { total_entries: 0, by_level: vec![], top_errors: vec![] }
    );
}

#[test]
fn whole_log_twice_gives_the_same() {
    let first = analyze_lines(&sample(), &config(false, Some("disk")), 3);
    let second = analyze_lines(&sample(), &config(false, Some("disk")), 3);
    assert_eq!(first, second);
    assert_eq!(first.total_entries, 2);
}
