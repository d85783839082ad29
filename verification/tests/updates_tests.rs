use skills_manager::skills::{
    collect_git_skill_dirs, resolve_skill_dir, GitSkillSource, LocalSourceProbe, ReimportDecision,
    SideState, SkillRecord,
};
use skills_manager::updates::{
    begin_git_update, begin_reimport, content_changed, git_check_result, git_update_writes,
    local_check_write, parse_i64, plan_update_check, reimport_decision, reimport_write,
    should_skip_update_check, source_missing, StoreWrite, UpdateCheckPlan,
};

fn skill(source_type: &str) -> SkillRecord {
    SkillRecord {
        id: "s1".to_string(),
        name: "demo".to_string(),
        description: None,
        source_type: source_type.to_string(),
        source_ref: Some("owner/repo/demo".to_string()),
        source_ref_resolved: None,
        source_subpath: None,
        source_branch: None,
        source_revision: Some("abc".to_string()),
        remote_revision: Some("old".to_string()),
        central_path: "/c/demo".to_string(),
        content_hash: Some("h1".to_string()),
        enabled: true,
        created_at: 0,
        updated_at: 0,
        status: "ok".to_string(),
        update_status: "up_to_date".to_string(),
        last_checked_at: Some(1_000),
        last_check_error: None,
    }
}

fn check_state(w: &StoreWrite) -> (String, Option<String>, String, Option<String>) {
    match w {
        StoreWrite::CheckState { skill_id, remote_revision, status, error } => {
            (skill_id.clone(), remote_revision.clone(), status.clone(), error.clone())
        }
        _ => panic!("not a check-state write"),
    }
}

#[test]
fn i64_parsing_follows_std() {
    for s in ["0", "-1", "+5", "9223372036854775807", "-9223372036854775808", "9223372036854775808", "", "-", "1x", " 1"] {
        assert_eq!(parse_i64(s), s.parse::<i64>().ok(), "{s}");
    }
}

#[test]
fn recent_checks_are_skipped_unless_forced() {
    let s = skill("skillssh");
    assert!(should_skip_update_check(&s, false, &None, 1_000 + 59 * 60_000));
    assert!(!should_skip_update_check(&s, false, &None, 1_000 + 60 * 60_000));
    assert!(!should_skip_update_check(&s, true, &None, 1_001));
    assert!(should_skip_update_check(&s, false, &Some("5".to_string()), 1_000 + 4 * 60_000));
    assert!(!should_skip_update_check(&s, false, &Some("5".to_string()), 1_000 + 5 * 60_000));
    assert!(should_skip_update_check(&s, false, &Some("junk".to_string()), 1_000 + 30 * 60_000));
    let mut e = skill("skillssh");
    e.update_status = "error".to_string();
    assert!(!should_skip_update_check(&e, false, &None, 1_001));
}

#[test]
fn check_plans_by_source_type() {
    let s = skill("skillssh");
    match plan_update_check(&s, true, &None, 0, None).unwrap() {
        UpdateCheckPlan::Git { source, metadata } => {
            assert_eq!(source.clone_url, "https://github.com/owner/repo.git");
            assert!(metadata.is_some());
        }
        _ => panic!("expected a git check"),
    }
    let l = skill("local");
    assert!(matches!(plan_update_check(&l, true, &None, 0, None).unwrap(), UpdateCheckPlan::Local { .. }));
    match plan_update_check(&skill("other"), true, &None, 0, None).unwrap() {
        UpdateCheckPlan::Other { write } => assert_eq!(check_state(&write).2, "unknown"),
        _ => panic!("expected nothing to check"),
    }
    assert!(matches!(plan_update_check(&s, false, &None, 1_001, None).unwrap(), UpdateCheckPlan::Skip));
}

#[test]
fn remote_check_outcomes() {
    let s = skill("git");
    let (w, e) = git_check_result(&s, Ok("abc".to_string()));
    assert_eq!(check_state(&w), ("s1".to_string(), Some("abc".to_string()), "up_to_date".to_string(), None));
    assert!(e.is_none());
    let (w, _) = git_check_result(&s, Ok("def".to_string()));
    assert_eq!(check_state(&w).2, "update_available");
    let (w, e) = git_check_result(&s, Err("boom".to_string()));
    assert_eq!(check_state(&w), ("s1".to_string(), Some("old".to_string()), "error".to_string(), Some("boom".to_string())));
    assert_eq!(e.unwrap().message, "boom");
}

#[test]
fn local_check_outcomes() {
    let s = skill("local");
    assert_eq!(check_state(&local_check_write(&s, LocalSourceProbe::Hashed("h1".to_string()))).2, "up_to_date");
    assert_eq!(check_state(&local_check_write(&s, LocalSourceProbe::Hashed("h2".to_string()))).2, "update_available");
    assert_eq!(check_state(&local_check_write(&s, LocalSourceProbe::Missing)).2, "source_missing");
}

#[test]
fn git_update_steps() {
    assert_eq!(begin_git_update(None, None).err().unwrap().message, "Skill not found");
    assert_eq!(
        begin_git_update(Some(&skill("local")), None).err().unwrap().message,
        "Only git-based skills can be updated"
    );
    let s = skill("git");
    assert!(!content_changed(&s, "h1"));
    assert!(content_changed(&s, "h2"));
    let source = GitSkillSource {
        clone_url: "https://x/y.git".to_string(),
        branch: Some("main".to_string()),
        subpath: None,
        locator_skill_id: None,
    };
    let writes = git_update_writes(&s, &source, Some("sub".to_string()), "rev9", None);
    assert_eq!(writes.len(), 2);
    assert_eq!(check_state(&writes[1]), ("s1".to_string(), Some("rev9".to_string()), "up_to_date".to_string(), None));
    let writes = git_update_writes(&s, &source, None, "rev9", Some((None, "h2".to_string())));
    assert!(matches!(&writes[1], StoreWrite::AfterInstall { content_hash: Some(h), .. } if h == "h2"));
}

#[test]
fn reimport_steps() {
    assert_eq!(begin_reimport(Some(&skill("git"))).err().unwrap().message, "Only local skills can be reimported");
    assert_eq!(begin_reimport(Some(&skill("local"))).unwrap(), "owner/repo/demo");
    let mut no_ref = skill("import");
    no_ref.source_ref = None;
    assert_eq!(
        begin_reimport(Some(&no_ref)).err().unwrap().message,
        "Local skill is missing its original source path"
    );
    let (w, e) = source_missing(&skill("local"));
    assert_eq!(check_state(&w).2, "source_missing");
    assert_eq!(e.message, "Original source path no longer exists");
    let side = |h: &str, t: i64| SideState { hash: Some(h.to_string()), mtime_ms: Some(t) };
    assert_eq!(reimport_decision(false, &side("a", 0), &side("b", 9_999), 1000), ReimportDecision::OverwriteCenter);
    assert_eq!(reimport_decision(true, &side("a", 0), &side("b", 9_999), 1000), ReimportDecision::KeepCenter);
    assert_eq!(check_state(&reimport_write(&skill("local"), ReimportDecision::KeepCenter, None, "h")).2, "local_only");
}

#[test]
fn repository_skill_dirs() {
    assert_eq!(collect_git_skill_dirs("/r", true, vec!["/r/x".to_string()]), vec!["/r".to_string()]);
    let found = vec!["/r/b".to_string(), "/r/a-b".to_string(), "/r/a/b".to_string()];
    assert_eq!(
        collect_git_skill_dirs("/r", false, found.clone()),
        vec!["/r/a/b".to_string(), "/r/a-b".to_string(), "/r/b".to_string()]
    );
    let mut as_paths: Vec<std::path::PathBuf> = found.iter().map(std::path::PathBuf::from).collect();
    as_paths.sort();
    let sorted: Vec<String> = as_paths.iter().map(|p| p.to_string_lossy().to_string()).collect();
    assert_eq!(collect_git_skill_dirs("/r", false, found), sorted);
    assert!(collect_git_skill_dirs("/r", false, vec![]).is_empty());
}

#[test]
fn skill_dir_resolution() {
    assert_eq!(resolve_skill_dir("/repo", Some("skills/x"), true, Err("no".to_string())).unwrap(), "/repo/skills/x");
    assert_eq!(resolve_skill_dir("/repo", Some("skills/x"), false, Ok("/repo/y".to_string())).unwrap(), "/repo/y");
    assert_eq!(resolve_skill_dir("/repo", None, true, Err("missing".to_string())).err().unwrap().message, "missing");
}
