use loglyzer::{entry_from_groups, parse_lines, parse_log_line, LogEntry, LogLevel, LINE_PATTERN};

fn entry(timestamp: &str, level: LogLevel, message: &str) -> LogEntry {
    LogEntry { timestamp: timestamp.to_string(), level, message: message.to_string() }
}

fn groups(texts: &[Option<&str>]) -> Vec<Option<String>> {
    texts.iter().map(|text| text.map(|t| t.to_string())).collect()
}

#[test]
fn parses_a_plain_line() {
    assert_eq!(
        parse_log_line("2024-01-01 10:00:00 [ERROR] disk full"),
        Some(entry("2024-01-01 10:00:00", LogLevel::Error, "disk full"))
    );
}

#[test]
fn parses_each_level() {
    assert_eq!(
        parse_log_line("2024-01-01 10:00:05 [INFO] startup complete"),
        Some(entry("2024-01-01 10:00:05", LogLevel::Info, "startup complete"))
    );
    assert_eq!(
        parse_log_line("2024-01-01 10:00:15 [WARN] low memory"),
        Some(entry("2024-01-01 10:00:15", LogLevel::Warning, "low memory"))
    );
    assert_eq!(
        parse_log_line("2024-01-01 10:00:15 [WARNING] low memory"),
        Some(entry("2024-01-01 10:00:15", LogLevel::Warning, "low memory"))
    );
    assert_eq!(
        parse_log_line("2024-01-01 10:00:20 [DEBUG] tick"),
        Some(entry("2024-01-01 10:00:20", LogLevel::Debug, "tick"))
    );
}

#[test]
fn level_token_is_read_in_any_case() {
    assert_eq!(
        parse_log_line("2024-01-01 10:00:00 [error] disk full"),
        Some(entry("2024-01-01 10:00:00", LogLevel::Error, "disk full"))
    );
    assert_eq!(
        parse_log_line("2024-01-01 10:00:00 [Warn] low memory"),
        Some(entry("2024-01-01 10:00:00", LogLevel::Warning, "low memory"))
    );
}

#[test]
fn timestamp_keeps_the_whitespace_between_date_and_time() {
    assert_eq!(
        parse_log_line("2024-01-01   10:00:00 [INFO] x"),
        Some(entry("2024-01-01   10:00:00", LogLevel::Info, "x"))
    );
    assert_eq!(
        parse_log_line("2024-01-01\t10:00:00 [INFO] x"),
        Some(entry("2024-01-01\t10:00:00", LogLevel::Info, "x"))
    );
}

#[test]
fn whitespace_around_the_bracket_is_dropped() {
    assert_eq!(
        parse_log_line("2024-01-01 10:00:00    [INFO]  \t two  words "),
        Some(entry("2024-01-01 10:00:00", LogLevel::Info, "two  words "))
    );
}

#[test]
fn message_is_taken_as_it_stands() {
    assert_eq!(
        parse_log_line("2024-01-01 10:00:00 [ERROR] [db] lost: a=[1, 2] \u{e9}t\u{e9}"),
        Some(entry("2024-01-01 10:00:00", LogLevel::Error, "[db] lost: a=[1, 2] \u{e9}t\u{e9}"))
    );
}

#[test]
fn message_may_be_empty() {
    assert_eq!(
        parse_log_line("2024-01-01 10:00:00 [INFO] "),
        Some(entry("2024-01-01 10:00:00", LogLevel::Info, ""))
    );
    assert_eq!(
        parse_log_line("2024-01-01 10:00:00 [INFO]   "),
        Some(entry("2024-01-01 10:00:00", LogLevel::Info, ""))
    );
}

#[test]
fn bracket_must_be_followed_by_whitespace() {
    assert_eq!(parse_log_line("2024-01-01 10:00:00 [INFO]"), None);
    assert_eq!(parse_log_line("2024-01-01 10:00:00 [INFO]message"), None);
}

#[test]
fn rejects_lines_of_another_shape() {
    assert_eq!(parse_log_line("garbage line"), None);
    assert_eq!(parse_log_line(""), None);
    assert_eq!(parse_log_line("[ERROR] disk full"), None);
    assert_eq!(parse_log_line("2024-01-01 [ERROR] disk full"), None);
    assert_eq!(parse_log_line("10:00:00 [ERROR] disk full"), None);
    assert_eq!(parse_log_line("2024-01-01 10:00:00 ERROR disk full"), None);
    assert_eq!(parse_log_line("2024-01-01 10:00:00 [] disk full"), None);
    assert_eq!(parse_log_line("2024-01-01 10:00:00 [ERROR disk full"), None);
    assert_eq!(parse_log_line("2024-01-01 10:00:00 [NOT OK] disk full"), None);
    assert_eq!(parse_log_line("2024-01-01 10:00:00[ERROR] disk full"), None);
    assert_eq!(parse_log_line("2024-01-0110:00:00 [ERROR] disk full"), None);
}

#[test]
fn rejects_timestamps_of_another_width() {
    assert_eq!(parse_log_line("24-01-01 10:00:00 [ERROR] disk full"), None);
    assert_eq!(parse_log_line("2024-1-01 10:00:00 [ERROR] disk full"), None);
    assert_eq!(parse_log_line("2024-01-01 10:00 [ERROR] disk full"), None);
    assert_eq!(parse_log_line("2024-01-01 10:00:0 [ERROR] disk full"), None);
    assert_eq!(parse_log_line("2024-01-01 10:00:000 [ERROR] disk full"), None);
    assert_eq!(parse_log_line("2024/01/01 10:00:00 [ERROR] disk full"), None);
    assert_eq!(parse_log_line("2024-01-01T10:00:00 [ERROR] disk full"), None);
}

#[test]
fn pattern_is_anchored_at_both_ends() {
    assert_eq!(parse_log_line(" 2024-01-01 10:00:00 [ERROR] disk full"), None);
    assert_eq!(parse_log_line("x2024-01-01 10:00:00 [ERROR] disk full"), None);
    assert_eq!(parse_log_line("2024-01-01 10:00:00 [ERROR] disk\nfull"), None);
}

#[test]
fn rejects_unknown_levels() {
    assert_eq!(parse_log_line("2024-01-01 10:00:00 [TRACE] details"), None);
    assert_eq!(parse_log_line("2024-01-01 10:00:00 [FATAL] crash"), None);
    assert_eq!(parse_log_line("2024-01-01 10:00:00 [ERR] disk full"), None);
}

#[test]
fn parsed_fields_are_the_captured_groups() {
    let line = "2031-12-31  23:59:59\t[debug]   value = 7";
    let captures = regex::Regex::new(LINE_PATTERN).unwrap().captures(line).unwrap();
    let parsed = parse_log_line(line).unwrap();
    assert_eq!(parsed.timestamp, &captures[1]);
    assert_eq!(LogLevel::from_str(&captures[2]), Some(parsed.level));
    assert_eq!(parsed.message, &captures[3]);
    assert_eq!(parsed, entry("2031-12-31  23:59:59", LogLevel::Debug, "value = 7"));
}

#[test]
fn entry_from_groups_reads_groups_one_to_three() {
    assert_eq!(
        entry_from_groups(groups(&[Some("whole"), Some("ts"), Some("warn"), Some("msg")])),
        Some(entry("ts", LogLevel::Warning, "msg"))
    );
    assert_eq!(
        entry_from_groups(groups(&[None, Some("ts"), Some("INFO"), Some(""), Some("more")])),
        Some(entry("ts", LogLevel::Info, ""))
    );
}

#[test]
fn entry_from_groups_needs_all_three_groups() {
    assert_eq!(entry_from_groups(groups(&[])), None);
    assert_eq!(entry_from_groups(groups(&[Some("whole"), Some("ts"), Some("INFO")])), None);
    assert_eq!(
        entry_from_groups(groups(&[Some("whole"), None, Some("INFO"), Some("msg")])),
        None
    );
    assert_eq!(
        entry_from_groups(groups(&[Some("whole"), Some("ts"), None, Some("msg")])),
        None
    );
    assert_eq!(
        entry_from_groups(groups(&[Some("whole"), Some("ts"), Some("INFO"), None])),
        None
    );
}

#[test]
fn entry_from_groups_needs_a_known_level() {
    assert_eq!(
        entry_from_groups(groups(&[Some("whole"), Some("ts"), Some("NOTICE"), Some("msg")])),
        None
    );
}

#[test]
fn parse_lines_passes_over_what_it_cannot_parse() {
    let lines: Vec<String> = [
        "2024-01-01 10:00:00 [ERROR] disk full",
        "garbage line",
        "2024-01-01 10:00:05 [INFO] startup complete",
        "",
        "2024-01-01 10:00:10 [TRACE] noise",
        "2024-01-01 10:00:15 [WARN] low memory",
    ]
    .iter()
    .map(|line| line.to_string())
    .collect();
    assert_eq!(
        parse_lines(&lines),
        vec![
            entry("2024-01-01 10:00:00", LogLevel::Error, "disk full"),
            entry("2024-01-01 10:00:05", LogLevel::Info, "startup complete"),
            entry("2024-01-01 10:00:15", LogLevel::Warning, "low memory"),
        ]
    );
}

#[test]
fn parse_lines_of_nothing_is_nothing() {
    assert_eq!(parse_lines(&[]), Vec::<LogEntry>::new());
}
