use skills_manager::logs::{collapse_consecutive_repeats, line_fingerprint};

#[test]
fn collapses_repeated_tray_lines_old_format() {
    let log = "\
[2026-03-22][04:20:02][app_lib][INFO] Tray icon created
[2026-03-22][04:21:02][app_lib][INFO] Tray icon created
[2026-03-22][04:22:02][app_lib][INFO] Tray icon created
[2026-03-22][04:23:02][app_lib][INFO] Tray icon created
[2026-03-22][04:24:02][app_lib][INFO] Migrated legacy tool key X -> Y";
    let out = collapse_consecutive_repeats(log);
    assert!(out.contains("repeated 3 more times"), "got: {out}");
    assert!(out.contains("Migrated legacy tool key X -> Y"));
    assert_eq!(out.lines().count(), 3);
}

#[test]
fn keeps_distinct_lines() {
    let log = "\
2026-05-17T17:56:13 INFO  [app_lib] app start
2026-05-17T17:56:14 ERROR [app_lib] something failed
2026-05-17T17:56:15 INFO  [app_lib] scan complete";
    let out = collapse_consecutive_repeats(log);
    assert_eq!(out.lines().count(), 3);
    assert!(out.contains("app start"));
    assert!(out.contains("something failed"));
}

#[test]
fn pair_repeat_kept_as_is() {
    let log = "a INFO  [m] foo\nb INFO  [m] foo\nc INFO  [m] bar";
    let out = collapse_consecutive_repeats(log);
    assert_eq!(out.lines().count(), 3);
    assert!(!out.contains("repeated"));
}

#[test]
fn fingerprint_drops_old_format_date_and_time() {
    assert_eq!(
        line_fingerprint("[2026-03-22][04:20:02][app_lib][INFO] Tray icon created"),
        "[app_lib][INFO] Tray icon created"
    );
}

#[test]
fn fingerprint_drops_new_format_timestamp() {
    assert_eq!(
        line_fingerprint("2026-05-17T17:56:13.845+10:00 INFO  [app_lib] msg"),
        "INFO  [app_lib] msg"
    );
}

#[test]
fn fingerprint_keeps_lines_without_timestamp() {
    assert_eq!(line_fingerprint("[only-one] bracket"), "[only-one] bracket");
    assert_eq!(line_fingerprint("nospace"), "nospace");
}

#[test]
fn collapse_exact_output_for_a_run_of_three() {
    let out = collapse_consecutive_repeats("1 x\n2 x\n3 x\n4 y");
    assert_eq!(out, "1 x\n... (line above repeated 2 more times)\n4 y");
}

#[test]
fn collapse_of_empty_text_is_empty() {
    assert_eq!(collapse_consecutive_repeats(""), "");
}

#[test]
fn collapse_drops_carriage_returns_and_final_newline() {
    assert_eq!(collapse_consecutive_repeats("1 a\r\n2 b\n"), "1 a\n2 b");
}
