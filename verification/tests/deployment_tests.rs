use skills_manager::cli::{
    changed_deployment_pairs, deployment_target, resolve_skill, resolve_skill_references,
    targets_left_behind,
};
use skills_manager::deployment::{
    deployed_pair_issue, incomplete_message, removed_pair_check, PathState,
};
use skills_manager::error::ErrorKind;
use skills_manager::skills::{SkillRecord, SkillTargetRecord};

fn skill(id: &str, name: &str, central_path: &str) -> SkillRecord {
    SkillRecord {
        id: id.to_string(),
        name: name.to_string(),
        description: None,
        source_type: "local".to_string(),
        source_ref: None,
        source_ref_resolved: None,
        source_subpath: None,
        source_branch: None,
        source_revision: None,
        remote_revision: None,
        central_path: central_path.to_string(),
        content_hash: None,
        enabled: true,
        created_at: 0,
        updated_at: 0,
        status: "ok".to_string(),
        update_status: "unknown".to_string(),
        last_checked_at: None,
        last_check_error: None,
    }
}

fn target(skill_id: &str, tool: &str, path: &str, status: &str) -> SkillTargetRecord {
    SkillTargetRecord {
        id: format!("{skill_id}-{tool}"),
        skill_id: skill_id.to_string(),
        tool: tool.to_string(),
        target_path: path.to_string(),
        mode: "symlink".to_string(),
        status: status.to_string(),
        synced_at: None,
        last_error: None,
        source_hash: None,
    }
}

fn store() -> Vec<SkillRecord> {
    vec![
        skill("id-1", "alpha", "/center/alpha-dir"),
        skill("id-2", "beta", "/center/beta"),
        skill("id-3", "beta", "/center/beta-2"),
    ]
}

#[test]
fn resolves_by_id_name_path_and_directory() {
    let skills = store();
    assert_eq!(resolve_skill(&skills, "id-1").unwrap(), 0);
    assert_eq!(resolve_skill(&skills, "alpha").unwrap(), 0);
    assert_eq!(resolve_skill(&skills, "/center/alpha-dir").unwrap(), 0);
    assert_eq!(resolve_skill(&skills, "alpha-dir").unwrap(), 0);
    assert_eq!(resolve_skill(&skills, "beta-2").unwrap(), 2);
}

#[test]
fn unknown_and_ambiguous_references_fail() {
    let skills = store();
    let missing = resolve_skill(&skills, "gamma").unwrap_err();
    assert_eq!(missing.kind, ErrorKind::NotFound);
    assert_eq!(missing.message, "skill not found: gamma");
    let ambiguous = resolve_skill(&skills, "beta").unwrap_err();
    assert_eq!(ambiguous.kind, ErrorKind::InvalidInput);
    assert_eq!(ambiguous.message, "skill reference is ambiguous: beta");
}

#[test]
fn references_resolve_in_order_without_repeats() {
    let skills = store();
    let refs = vec!["beta-2".to_string(), "alpha".to_string(), "id-3".to_string()];
    assert_eq!(resolve_skill_references(&skills, &refs).unwrap(), vec![2, 0]);
    let empty: Vec<String> = Vec::new();
    assert_eq!(resolve_skill_references(&skills, &empty).unwrap_err().message, "no skill ref provided");
    let bad = vec!["alpha".to_string(), "nope".to_string(), "beta".to_string()];
    assert_eq!(resolve_skill_references(&skills, &bad).unwrap_err().message, "skill not found: nope");
}

#[test]
fn deploying_counts_pairs_not_yet_deployed() {
    let skills = vec!["s1".to_string(), "s2".to_string()];
    let agents = vec!["cursor".to_string(), "codex".to_string()];
    let targets = vec![
        target("s1", "cursor", "/a/s1", "ok"),
        target("s2", "cursor", "/a/s2", "error"),
    ];
    let pairs = changed_deployment_pairs(&skills, &agents, &targets, true);
    assert_eq!(
        pairs,
        vec![
            ("s1".to_string(), "codex".to_string()),
            ("s2".to_string(), "cursor".to_string()),
            ("s2".to_string(), "codex".to_string()),
        ]
    );
}

#[test]
fn removing_counts_deployed_pairs_once() {
    let skills = vec!["s1".to_string(), "s2".to_string(), "s1".to_string()];
    let agents = vec!["cursor".to_string(), "codex".to_string()];
    let targets = vec![
        target("s1", "cursor", "/a/s1", "ok"),
        target("s2", "cursor", "/a/s2", "error"),
    ];
    let pairs = changed_deployment_pairs(&skills, &agents, &targets, false);
    assert_eq!(
        pairs,
        vec![("s1".to_string(), "cursor".to_string()), ("s2".to_string(), "cursor".to_string())]
    );
}

#[test]
fn finds_targets_and_paths_left_after_removal() {
    let previous = vec![
        target("s1", "cursor", "/a/s1", "ok"),
        target("s2", "cursor", "/a/s2", "ok"),
        target("s1", "cursor", "/b/s1", "ok"),
    ];
    let current = vec![target("s9", "codex", "/b/s1", "ok")];
    assert_eq!(deployment_target(&previous, "s1", "cursor"), Some(0));
    assert_eq!(deployment_target(&previous, "s1", "codex"), None);
    assert_eq!(targets_left_behind(&previous, &current, "s1", "cursor"), vec![0]);
    assert_eq!(targets_left_behind(&previous, &current, "s2", "cursor"), vec![1]);
}

#[test]
fn deployed_pair_without_record_was_not_created() {
    let targets = vec![target("skill-other", "test_agent", "/t/other", "ok")];
    let issue = deployed_pair_issue(&targets, "skill-broken", "test_agent", &PathState::Ours);
    assert_eq!(issue.as_deref(), Some("skill-broken@test_agent: target was not created"));
}

#[test]
fn deployed_pair_whose_first_record_failed_was_not_created() {
    let targets = vec![
        target("skill-demo", "test_agent", "/t/demo", "error"),
        target("skill-demo", "test_agent", "/t/demo2", "ok"),
    ];
    let issue = deployed_pair_issue(&targets, "skill-demo", "test_agent", &PathState::Ours);
    assert_eq!(issue.as_deref(), Some("skill-demo@test_agent: target was not created"));
}

#[test]
fn deployed_pair_on_disk_is_verified() {
    let targets = vec![target("skill-demo", "test_agent", "/t/demo", "ok")];
    assert_eq!(deployed_pair_issue(&targets, "skill-demo", "test_agent", &PathState::Ours), None);
    assert_eq!(deployed_pair_issue(&targets, "skill-demo", "test_agent", &PathState::Foreign), None);
}

#[test]
fn deployed_pair_missing_on_disk_reports_the_error() {
    let targets = vec![target("skill-demo", "test_agent", "/t/demo", "ok")];
    let state = PathState::NotFound("No such file or directory (os error 2)".to_string());
    let issue = deployed_pair_issue(&targets, "skill-demo", "test_agent", &state);
    assert_eq!(
        issue.as_deref(),
        Some("skill-demo@test_agent: target is missing (No such file or directory (os error 2))")
    );
    let state = PathState::Unreadable("Permission denied".to_string());
    let issue = deployed_pair_issue(&targets, "skill-demo", "test_agent", &state);
    assert_eq!(issue.as_deref(), Some("skill-demo@test_agent: target is missing (Permission denied)"));
}

#[test]
fn removed_pair_with_record_left_is_an_issue() {
    let targets = vec![target("skill-demo", "test_agent", "/t/demo", "ok")];
    let left = vec![("/t/demo".to_string(), PathState::Foreign)];
    let check = removed_pair_check(&targets, "skill-demo", "test_agent", &left);
    assert!(!check.verified);
    assert_eq!(check.issues, vec!["skill-demo@test_agent: target record still exists".to_string()]);
    assert!(check.preserved.is_empty());
}

#[test]
fn removed_pair_paths_give_issues_or_are_preserved() {
    let targets = vec![target("skill-other", "test_agent", "/t/other", "ok")];
    let left = vec![
        ("/t/a".to_string(), PathState::Ours),
        ("/t/b".to_string(), PathState::Foreign),
        ("/t/c".to_string(), PathState::NotFound("gone".to_string())),
        ("/t/d".to_string(), PathState::Unreadable("Permission denied".to_string())),
    ];
    let check = removed_pair_check(&targets, "skill-demo", "test_agent", &left);
    assert!(!check.verified);
    assert_eq!(
        check.issues,
        vec![
            "skill-demo@test_agent: target path still exists".to_string(),
            "skill-demo@test_agent: cannot verify removal (Permission denied)".to_string(),
        ]
    );
    assert_eq!(check.preserved, vec!["/t/b".to_string()]);
}

#[test]
fn removed_pair_with_nothing_left_is_verified() {
    let targets: Vec<SkillTargetRecord> = Vec::new();
    let left = vec![
        ("/t/b".to_string(), PathState::Foreign),
        ("/t/c".to_string(), PathState::NotFound("gone".to_string())),
    ];
    let check = removed_pair_check(&targets, "skill-demo", "test_agent", &left);
    assert!(check.verified);
    assert!(check.issues.is_empty());
    assert_eq!(check.preserved, vec!["/t/b".to_string()]);
}

#[test]
fn incomplete_deployment_message_counts_pairs_and_issues() {
    let issues = vec![
        "skill-broken@test_agent: target was not created".to_string(),
        "x@y: target path still exists".to_string(),
    ];
    let message = incomplete_message(1, &issues);
    assert_eq!(
        message,
        "deployment incomplete: 1 pair(s) verified, 2 verification issue(s): \
         skill-broken@test_agent: target was not created; x@y: target path still exists"
    );
    assert!(message.contains("deployment incomplete"));
}
