use record_engine::entry::{DecodeError, LogEntry, ValidationError};
use record_engine::entry_rules::{check_entry, is_known_level, rank_of_level, validate_entry};
use record_engine::log_filter::{filter_entries, filter_logs};
use record_engine::log_stats::{compute_stats, entry_stats};
use record_engine::pipeline::{batch_process, parse_logs, validate_logs};

fn entry(level: &str, duration_ms: Option<f64>, status_code: Option<i32>) -> LogEntry {
    LogEntry {
        timestamp: "2024-01-15T10:00:00Z".to_string(),
        level: level.to_string(),
        message: "request served".to_string(),
        duration_ms: duration_ms.map(|d| (d * 1000.0).round() as i64),
        status_code,
        user_id: None,
    }
}

fn line(level: &str, duration_ms: Option<f64>, status_code: Option<i32>) -> Result<LogEntry, String> {
    Ok(entry(level, duration_ms, status_code))
}

fn broken(detail: &str) -> Result<LogEntry, String> {
    Err(detail.to_string())
}

#[test]
fn empty_timestamp_is_reported_at_its_line() {
    let mut bad = entry("INFO", None, None);
    bad.timestamp = "".to_string();
    let lines = vec![line("INFO", None, None), Ok(bad), line("WARN", Some(1.0), Some(200))];
    let (valid, errors) = validate_logs(&lines);
    assert_eq!(valid, 2);
    assert_eq!(errors.len(), 1);
    assert!(errors[0].contains("Missing or empty timestamp"));
    assert_eq!(errors[0], "Line 2: Missing or empty timestamp");
}

#[test]
fn unknown_level_is_rejected_strictly_and_ranked_lowest_leniently() {
    let lines = vec![line("INFO", None, None), line("CRITICAL", None, None)];
    let (valid, errors) = validate_logs(&lines);
    assert_eq!(valid, 1);
    assert_eq!(
        errors,
        vec!["Line 2: Invalid log level 'CRITICAL'. Must be one of: ERROR, WARN, INFO, DEBUG"]
    );

    let refused = parse_logs(&lines).unwrap_err();
    assert_eq!(refused.line, 2);
    assert_eq!(
        refused.detail,
        "Invalid log level 'CRITICAL'. Must be one of: ERROR, WARN, INFO, DEBUG"
    );

    assert_eq!(rank_of_level("CRITICAL"), 0);
    let all = filter_logs(&lines, &None, None, &None);
    assert_eq!(all.len(), 2);
    assert_eq!(all[1].level, "CRITICAL");
    let debug_up = filter_logs(&lines, &Some("DEBUG".to_string()), None, &None);
    assert_eq!(debug_up.len(), 2);
    let info_up = filter_logs(&lines, &Some("INFO".to_string()), None, &None);
    assert_eq!(info_up.len(), 1);
    assert_eq!(info_up[0].level, "INFO");
}

#[test]
fn stats_of_nothing_fail_with_empty_batch() {
    let none: Vec<Result<LogEntry, String>> = Vec::new();
    let error = compute_stats(&none).unwrap_err();
    assert_eq!(error.message(), "No valid log entries found");
    assert!(compute_stats(&vec![broken("eof"), broken("bad")]).is_err());
    assert!(entry_stats(&Vec::new()).is_err());
    assert!(batch_process(&none).is_err());
    assert!(batch_process(&vec![broken("eof")]).is_err());
}

#[test]
fn minimum_duration_needs_a_duration() {
    let lines = vec![
        line("INFO", None, Some(200)),
        line("INFO", Some(49.999), Some(200)),
        line("INFO", Some(50.0), Some(200)),
        line("INFO", Some(75.0), None),
    ];
    let kept = filter_logs(&lines, &None, Some(50_000), &None);
    assert_eq!(kept.len(), 2);
    assert_eq!(kept[0].duration_ms, Some(50_000));
    assert_eq!(kept[1].duration_ms, Some(75_000));
    let only_absent = vec![line("ERROR", None, None)];
    assert!(filter_logs(&only_absent, &None, Some(50_000), &None).is_empty());
    assert_eq!(filter_logs(&only_absent, &None, None, &None).len(), 1);
}

#[test]
fn levels_have_their_ranks() {
    assert_eq!(rank_of_level("ERROR"), 3);
    assert_eq!(rank_of_level("WARN"), 2);
    assert_eq!(rank_of_level("INFO"), 1);
    assert_eq!(rank_of_level("DEBUG"), 0);
    assert_eq!(rank_of_level("error"), 0);
    assert_eq!(rank_of_level(""), 0);
    assert!(is_known_level("DEBUG"));
    assert!(is_known_level("ERROR"));
    assert!(!is_known_level("Error"));
    assert!(!is_known_level("ERRORS"));
    assert!(!is_known_level(""));
}

#[test]
fn filter_applies_every_criterion() {
    let lines = vec![
        line("ERROR", Some(120.0), Some(500)),
        broken("expected value at line 1 column 1"),
        line("WARN", Some(80.0), Some(404)),
        line("INFO", Some(200.0), Some(200)),
        line("ERROR", Some(10.0), Some(503)),
        line("ERROR", Some(300.0), None),
        line("DEBUG", None, Some(500)),
    ];
    let warn_up = filter_logs(&lines, &Some("WARN".to_string()), None, &None);
    let levels: Vec<&str> = warn_up.iter().map(|e| e.level.as_str()).collect();
    assert_eq!(levels, vec!["ERROR", "WARN", "ERROR", "ERROR"]);

    let codes = Some(vec![500, 503]);
    let by_code = filter_logs(&lines, &None, None, &codes);
    let seen: Vec<Option<i32>> = by_code.iter().map(|e| e.status_code).collect();
    assert_eq!(seen, vec![Some(500), Some(503), Some(500)]);

    let all_three = filter_logs(&lines, &Some("ERROR".to_string()), Some(100_000), &codes);
    assert_eq!(all_three.len(), 1);
    assert_eq!(all_three[0].duration_ms, Some(120_000));

    let empty_codes = Some(Vec::new());
    assert_eq!(filter_logs(&lines, &None, None, &empty_codes).len(), 6);
    assert_eq!(filter_logs(&lines, &None, None, &None).len(), 6);
    let nonsense_level = filter_logs(&lines, &Some("LOUD".to_string()), None, &None);
    assert_eq!(nonsense_level.len(), 6);
}

#[test]
fn filter_entries_keeps_order_and_content() {
    let mut with_user = entry("ERROR", Some(5.0), Some(500));
    with_user.user_id = Some("u-17".to_string());
    with_user.message = "boom".to_string();
    let entries = vec![entry("INFO", None, None), with_user, entry("ERROR", Some(1.0), None)];
    let kept = filter_entries(&entries, &Some("ERROR".to_string()), None, &None);
    assert_eq!(kept.len(), 2);
    assert_eq!(kept[0].user_id, Some("u-17".to_string()));
    assert_eq!(kept[0].message, "boom");
    assert_eq!(kept[0].status_code, Some(500));
    assert_eq!(kept[0].duration_ms, Some(5_000));
    assert_eq!(kept[0].timestamp, "2024-01-15T10:00:00Z");
    assert_eq!(kept[1].duration_ms, Some(1_000));
}

#[test]
fn validation_reports_each_rule() {
    let mut no_time = entry("LOUD", Some(-1.0), Some(99));
    no_time.timestamp = "".to_string();
    assert_eq!(check_entry(&no_time), Some("Missing or empty timestamp".to_string()));
    assert_eq!(
        check_entry(&entry("LOUD", Some(-1.0), Some(99))),
        Some("Invalid log level 'LOUD'. Must be one of: ERROR, WARN, INFO, DEBUG".to_string())
    );
    assert_eq!(
        check_entry(&entry("INFO", Some(-5.5), Some(99))),
        Some("Invalid duration_ms -5.5. Must be >= 0".to_string())
    );
    assert_eq!(
        check_entry(&entry("INFO", Some(0.0), Some(99))),
        Some("Invalid status_code 99. Must be 100-599".to_string())
    );
    assert_eq!(
        check_entry(&entry("INFO", None, Some(600))),
        Some("Invalid status_code 600. Must be 100-599".to_string())
    );
    assert_eq!(
        check_entry(&entry("INFO", None, Some(-7))),
        Some("Invalid status_code -7. Must be 100-599".to_string())
    );
    assert_eq!(check_entry(&entry("INFO", Some(0.0), Some(100))), None);
    assert_eq!(check_entry(&entry("DEBUG", None, Some(599))), None);
    assert_eq!(check_entry(&entry("WARN", None, None)), None);
}

#[test]
fn validate_entry_carries_the_line_number() {
    let e: ValidationError = validate_entry(&entry("INFO", Some(-0.25), None), 12).unwrap_err();
    assert_eq!(e.line_number, 12);
    assert_eq!(e.message, "Invalid duration_ms -0.25. Must be >= 0");
    assert_eq!(e.report(), "Line 12: Invalid duration_ms -0.25. Must be >= 0");
    assert!(validate_entry(&entry("INFO", None, None), 1).is_ok());
    let twice = validate_entry(&entry("INFO", Some(-0.25), None), 12).unwrap_err();
    assert_eq!(twice.message, e.message);
    assert_eq!(twice.line_number, e.line_number);
}

#[test]
fn validate_logs_numbers_lines_by_input_position() {
    let lines = vec![
        broken("EOF while parsing an object at line 1 column 1"),
        line("INFO", None, None),
        line("INFO", None, Some(42)),
        broken("expected value at line 1 column 1"),
        line("ERROR", Some(3.0), Some(500)),
    ];
    let (valid, errors) = validate_logs(&lines);
    assert_eq!(valid, 2);
    assert_eq!(
        errors,
        vec![
            "Line 1: JSON parse error: EOF while parsing an object at line 1 column 1",
            "Line 3: Invalid status_code 42. Must be 100-599",
            "Line 4: JSON parse error: expected value at line 1 column 1",
        ]
    );
    let (valid, errors) = validate_logs(&Vec::new());
    assert_eq!(valid, 0);
    assert!(errors.is_empty());
}

#[test]
fn validate_logs_counts_line_numbers_past_nine() {
    let mut lines: Vec<Result<LogEntry, String>> = Vec::new();
    for _ in 0..104 {
        lines.push(line("INFO", None, None));
    }
    lines.push(broken("x"));
    let (valid, errors) = validate_logs(&lines);
    assert_eq!(valid, 104);
    assert_eq!(errors, vec!["Line 105: JSON parse error: x"]);
}

#[test]
fn strict_parse_fails_on_first_malformed_line() {
    let lines = vec![
        line("INFO", None, None),
        broken("first problem"),
        broken("second problem"),
    ];
    let e: DecodeError = parse_logs(&lines).unwrap_err();
    assert_eq!(e.line, 2);
    assert_eq!(e.detail, "first problem");
    assert_eq!(e.message(), "Parse error: first problem");

    let good = vec![line("INFO", Some(1.5), None), line("DEBUG", None, Some(200))];
    let entries = parse_logs(&good).unwrap();
    assert_eq!(entries.len(), 2);
    assert_eq!(entries[0].duration_ms, Some(1_500));
    assert_eq!(entries[1].level, "DEBUG");
    assert_eq!(entries[1].status_code, Some(200));
    assert!(parse_logs(&Vec::new()).unwrap().is_empty());
}

#[test]
fn strict_parse_keeps_entries_that_only_fail_other_rules() {
    let lines = vec![line("INFO", Some(-1.0), Some(42))];
    assert_eq!(parse_logs(&lines).unwrap().len(), 1);
}

#[test]
fn stats_count_levels_and_codes() {
    let lines = vec![
        line("ERROR", Some(100.0), Some(500)),
        line("WARN", Some(200.0), Some(404)),
        broken("bad"),
        line("INFO", Some(300.0), Some(200)),
        line("ERROR", None, Some(500)),
        line("DEBUG", Some(400.0), None),
        line("TRACE", None, Some(399)),
    ];
    let stats = compute_stats(&lines).unwrap();
    assert_eq!(stats.total_count, 6);
    assert_eq!(stats.error_count, 2);
    assert_eq!(stats.warn_count, 1);
    assert_eq!(stats.info_count, 1);
    assert!(stats.error_count + stats.warn_count + stats.info_count <= stats.total_count);
    assert_eq!(stats.avg_duration_ms, 250_000);
    assert_eq!(stats.min_duration_ms, 100_000);
    assert_eq!(stats.max_duration_ms, 400_000);
    assert_eq!(stats.p50_duration_ms, 300_000);
    assert_eq!(stats.p95_duration_ms, 400_000);
    assert_eq!(stats.p99_duration_ms, 400_000);
    assert_eq!(stats.status_code_distribution.len(), 4);
    assert_eq!(stats.status_code_distribution.get(&500), Some(&2));
    assert_eq!(stats.status_code_distribution.get(&404), Some(&1));
    assert_eq!(stats.status_code_distribution.get(&200), Some(&1));
    assert_eq!(stats.status_code_distribution.get(&399), Some(&1));
    assert_eq!(stats.error_count_by_code.len(), 2);
    assert_eq!(stats.error_count_by_code.get(&500), Some(&2));
    assert_eq!(stats.error_count_by_code.get(&404), Some(&1));
    assert_eq!(stats.error_count_by_code.get(&399), None);
}

#[test]
fn level_counts_fill_the_batch_when_all_levels_are_known() {
    let entries = vec![
        entry("ERROR", None, None),
        entry("WARN", None, None),
        entry("INFO", None, None),
        entry("INFO", None, None),
    ];
    let stats = entry_stats(&entries).unwrap();
    assert_eq!(stats.error_count + stats.warn_count + stats.info_count, stats.total_count);
    let with_debug = vec![entry("ERROR", None, None), entry("DEBUG", None, None)];
    let stats = entry_stats(&with_debug).unwrap();
    assert_eq!(stats.error_count + stats.warn_count + stats.info_count + 1, stats.total_count);
}

#[test]
fn stats_without_durations_are_zero() {
    let stats = entry_stats(&vec![entry("INFO", None, Some(200))]).unwrap();
    assert_eq!(stats.total_count, 1);
    assert_eq!(stats.avg_duration_ms, 0);
    assert_eq!(stats.min_duration_ms, 0);
    assert_eq!(stats.max_duration_ms, 0);
    assert_eq!(stats.p50_duration_ms, 0);
    assert_eq!(stats.p95_duration_ms, 0);
    assert_eq!(stats.p99_duration_ms, 0);
    assert!(stats.error_count_by_code.is_empty());
}

#[test]
fn percentiles_use_the_clamped_floor_rank() {
    let mut entries: Vec<LogEntry> = Vec::new();
    for k in 0..100 {
        let d = ((k * 37) % 100 + 1) as f64;
        entries.push(entry("INFO", Some(d), None));
    }
    let stats = entry_stats(&entries).unwrap();
    assert_eq!(stats.min_duration_ms, 1_000);
    assert_eq!(stats.p50_duration_ms, 51_000);
    assert_eq!(stats.p95_duration_ms, 96_000);
    assert_eq!(stats.p99_duration_ms, 100_000);
    assert_eq!(stats.max_duration_ms, 100_000);
    assert_eq!(stats.avg_duration_ms, 50_500);

    let one = entry_stats(&vec![entry("INFO", Some(7.0), None)]).unwrap();
    assert_eq!(one.p50_duration_ms, 7_000);
    assert_eq!(one.p99_duration_ms, 7_000);

    let pair = entry_stats(&vec![entry("INFO", Some(9.0), None), entry("INFO", Some(2.0), None)])
        .unwrap();
    assert_eq!(pair.p50_duration_ms, 9_000);
    assert_eq!(pair.p95_duration_ms, 9_000);
    assert_eq!(pair.min_duration_ms, 2_000);
}

#[test]
fn percentiles_rise_within_the_extremes() {
    let durations = [5.0, 1.0, 9.0, 3.0, 3.0, 8.0, 2.0, 7.0, 7.0, 4.0, 6.0, 0.5, 12.0];
    let entries: Vec<LogEntry> = durations.iter().map(|d| entry("INFO", Some(*d), None)).collect();
    let stats = entry_stats(&entries).unwrap();
    assert!(stats.min_duration_ms <= stats.p50_duration_ms);
    assert!(stats.p50_duration_ms <= stats.p95_duration_ms);
    assert!(stats.p95_duration_ms <= stats.p99_duration_ms);
    assert!(stats.p99_duration_ms <= stats.max_duration_ms);
    assert_eq!(stats.p50_duration_ms, 5_000);
    assert_eq!(stats.p95_duration_ms, 12_000);
}

#[test]
fn batch_process_reports_and_counts_independently() {
    let lines = vec![
        line("ERROR", Some(10.0), Some(500)),
        broken("trailing characters at line 1 column 5"),
        line("CRITICAL", Some(30.0), Some(200)),
    ];
    let (stats, errors) = batch_process(&lines).unwrap();
    assert_eq!(stats.total_count, 2);
    assert_eq!(stats.error_count, 1);
    assert_eq!(stats.avg_duration_ms, 20_000);
    assert_eq!(
        errors,
        vec![
            "Line 2: JSON parse error: trailing characters at line 1 column 5",
            "Line 3: Invalid log level 'CRITICAL'. Must be one of: ERROR, WARN, INFO, DEBUG",
        ]
    );
}

#[test]
fn stats_render_as_text() {
    let lines = vec![
        line("ERROR", Some(1.005), Some(500)),
        line("WARN", Some(2.0), None),
        line("INFO", Some(2.5), None),
    ];
    let stats = compute_stats(&lines).unwrap();
    assert_eq!(stats.avg_duration_ms, 1_835);
    assert_eq!(
        stats.headline(),
        "LogStats(total=3, errors=1, avg_duration=1.84ms, p95=2.50ms)"
    );
    assert_eq!(
        stats.summary(),
        "Total logs: 3\nError count: 1\nWarning count: 1\nInfo count: 1\n\
         Average duration: 1.84ms\nP95 duration: 2.50ms\nP99 duration: 2.50ms"
    );
}

#[test]
fn entry_fields_are_rendered_as_texts() {
    let mut full = entry("WARN", Some(12.5), Some(404));
    full.user_id = Some("u1".to_string());
    let pairs = |v: &[(&str, &str)]| -> Vec<(String, String)> {
        v.iter().map(|(k, x)| (k.to_string(), x.to_string())).collect()
    };
    assert_eq!(
        full.fields(),
        pairs(&[
            ("timestamp", "2024-01-15T10:00:00Z"),
            ("level", "WARN"),
            ("message", "request served"),
            ("duration_ms", "12.5"),
            ("status_code", "404"),
            ("user_id", "u1"),
        ])
    );
    assert_eq!(
        entry("INFO", None, None).fields(),
        pairs(&[
            ("timestamp", "2024-01-15T10:00:00Z"),
            ("level", "INFO"),
            ("message", "request served"),
        ])
    );
}
