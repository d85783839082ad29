use skills_manager::logs::{diagnostics_markdown, excerpt_of_log, is_alert_line, is_exported_log_name, newest_files};

#[test]
fn empty_log_gets_a_note() {
    let (text, warn) = excerpt_of_log("");
    assert_eq!(text, "(log file is empty or not yet created)");
    assert!(!warn);
}

#[test]
fn quiet_log_shows_its_last_lines() {
    let log: Vec<String> = (0..100).map(|i| format!("t{i} INFO line {i}")).collect();
    let (text, warn) = excerpt_of_log(&log.join("\n"));
    assert!(!warn);
    assert_eq!(text.lines().count(), 80);
    assert!(text.starts_with("t20 INFO line 20"));
    assert!(text.ends_with("t99 INFO line 99"));
}

#[test]
fn warnings_are_shown_with_context_and_gaps() {
    let mut log: Vec<String> = (0..60).map(|i| format!("t{i} INFO line {i}")).collect();
    log[5] = "t5 WARN first".to_string();
    log[40] = "t40 ERROR second".to_string();
    let (text, warn) = excerpt_of_log(&log.join("\n"));
    assert!(warn);
    let lines: Vec<&str> = text.lines().collect();
    assert_eq!(lines[0], "t0 INFO line 0");
    assert!(lines.contains(&"t5 WARN first"));
    assert!(lines.contains(&"t15 INFO line 15"));
    assert!(!lines.contains(&"t16 INFO line 16"));
    assert!(lines.contains(&"... (gap)"));
    assert!(lines.contains(&"t30 INFO line 30"));
    assert_eq!(*lines.last().unwrap(), "t50 INFO line 50");
}

#[test]
fn only_the_last_two_hundred_lines_are_scanned() {
    let mut log: Vec<String> = (0..300).map(|i| format!("t{i} INFO line {i}")).collect();
    log[10] = "t10 ERROR too old".to_string();
    let (_, warn) = excerpt_of_log(&log.join("\n"));
    assert!(!warn);
}

#[test]
fn alert_lines() {
    assert!(is_alert_line("2026 ERROR [x] boom"));
    assert!(is_alert_line("2026 WARN  [x] hmm"));
    assert!(!is_alert_line("2026 INFO ERRORS"));
}

#[test]
fn exported_log_names() {
    assert!(is_exported_log_name("app.log"));
    assert!(is_exported_log_name("app.2.log"));
    assert!(!is_exported_log_name("last_panic.log"));
    assert!(!is_exported_log_name(".log"));
    assert!(!is_exported_log_name("app.txt"));
    assert!(!is_exported_log_name("log"));
}

#[test]
fn newest_three_logs_in_order() {
    let files = vec![
        ("a".to_string(), 10u64),
        ("b".to_string(), 30),
        ("c".to_string(), 20),
        ("d".to_string(), 30),
        ("e".to_string(), 5),
    ];
    assert_eq!(newest_files(&files, 3), vec![1, 3, 2]);
    assert_eq!(newest_files(&files[..1].to_vec(), 3), vec![0]);
    assert!(newest_files(&Vec::new(), 3).is_empty());
}

#[test]
fn diagnostics_file_lists_the_facts() {
    let text = diagnostics_markdown("2026-01-01T00:00:00Z", "1.2.3", "linux", "Ubuntu", "x86_64", "/home/u/.skills", true, 3, 7);
    assert_eq!(
        text,
        "# Diagnostics\n\nExported: 2026-01-01T00:00:00Z\n\n- App version: `1.2.3`\n- OS: `linux Ubuntu (x86_64)`\n- Central repo: `/home/u/.skills` (custom path)\n- Log files included: 3\n- Audit entries included: 7\n"
    );
    let plain = diagnostics_markdown("t", "v", "o", "ov", "a", "r", false, 0, 0);
    assert!(plain.contains("- Central repo: `r`\n"));
}
