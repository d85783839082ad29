use skills_manager::ai::{non_empty, parse_u64_setting};
use skills_manager::settings::{
    app_update_info, numeric_version_parts, os_version_from_release, parse_u64, show_tray_icon,
    version_gt, version_gt_given,
};

#[test]
fn parse_u64_follows_std() {
    assert_eq!(parse_u64("42"), Some(42));
    assert_eq!(parse_u64("+7"), Some(7));
    assert_eq!(parse_u64("18446744073709551615"), Some(u64::MAX));
    assert_eq!(parse_u64("18446744073709551616"), None);
    assert_eq!(parse_u64(""), None);
    assert_eq!(parse_u64("+"), None);
    assert_eq!(parse_u64("-1"), None);
    assert_eq!(parse_u64(" 1"), None);
    assert_eq!(parse_u64("1a"), None);
    for s in ["0", "00012", "999999999999", "+0"] {
        assert_eq!(parse_u64(s), s.parse::<u64>().ok());
    }
}

#[test]
fn numeric_parts_skip_non_numbers() {
    assert_eq!(numeric_version_parts("1.2.3"), vec![1, 2, 3]);
    assert_eq!(numeric_version_parts("v1.x.3"), vec![3]);
    assert_eq!(numeric_version_parts(""), Vec::<u64>::new());
    assert_eq!(numeric_version_parts("1..2."), vec![1, 2]);
}

#[test]
fn semver_versions_compare_by_precedence() {
    assert!(version_gt("1.10.0", "1.9.0"));
    assert!(!version_gt("1.9.0", "1.10.0"));
    assert!(version_gt("1.0.0", "1.0.0-beta.1"));
    assert!(!version_gt("1.0.0", "1.0.0"));
}

#[test]
fn non_semver_versions_compare_numerically() {
    assert!(version_gt("1.2", "1.1.9"));
    assert!(version_gt("1.2.1", "1.2"));
    assert!(!version_gt("1.2", "1.2"));
    assert!(!version_gt("1.2", "1.10"));
}

#[test]
fn version_decision_takes_the_semver_answer_when_there_is_one() {
    assert!(version_gt_given(Some(true), "0.1", "9.9"));
    assert!(!version_gt_given(Some(false), "9.9", "0.1"));
    assert!(version_gt_given(None, "9.9", "0.1"));
}

#[test]
fn update_info_strips_the_v_of_the_tag() {
    let info = app_update_info("1.2.0", Some("v1.3.0"), Some("https://example.com/r")).unwrap();
    assert!(info.has_update);
    assert_eq!(info.latest_version, "1.3.0");
    assert_eq!(info.current_version, "1.2.0");
    assert_eq!(info.release_url, "https://example.com/r");

    let same = app_update_info("1.3.0", Some("1.3.0"), None).unwrap();
    assert!(!same.has_update);
    assert_eq!(
        same.release_url,
        "https://github.com/xingkongliang/skills-manager/releases"
    );
}

#[test]
fn update_info_without_tag_is_a_network_error() {
    let err = app_update_info("1.0.0", None, None).err().unwrap();
    assert_eq!(err.message, "No tag_name in response");
}

#[test]
fn tray_icon_is_hidden_only_by_off_words() {
    assert!(show_tray_icon(None));
    assert!(show_tray_icon(Some("true")));
    assert!(show_tray_icon(Some("")));
    assert!(!show_tray_icon(Some(" FALSE ")));
    assert!(!show_tray_icon(Some("0")));
    assert!(!show_tray_icon(Some("No")));
    assert!(!show_tray_icon(Some("off")));
    assert!(show_tray_icon(Some("offline")));
}

#[test]
fn os_version_reads_pretty_name() {
    let release = "NAME=\"Ubuntu\"\nPRETTY_NAME=\"Ubuntu 24.04 LTS\"\nID=ubuntu\n";
    assert_eq!(os_version_from_release(release), "Ubuntu 24.04 LTS");
    assert_eq!(os_version_from_release("NAME=x\n"), "unknown");
    assert_eq!(os_version_from_release("PRETTY_NAME=\"\"\n"), "unknown");
    assert_eq!(os_version_from_release("PRETTY_NAME=  Arch  \r\n"), "Arch");
}

#[test]
fn non_empty_trims_and_drops_blank_values() {
    assert_eq!(non_empty(Some("  key ".to_string())), Some("key".to_string()));
    assert_eq!(non_empty(Some("   ".to_string())), None);
    assert_eq!(non_empty(None), None);
}

#[test]
fn u64_settings_fall_back_to_default() {
    assert_eq!(parse_u64_setting(Some(" 30 ".to_string()), 5), 30);
    assert_eq!(parse_u64_setting(Some("abc".to_string()), 5), 5);
    assert_eq!(parse_u64_setting(None, 5), 5);
}
