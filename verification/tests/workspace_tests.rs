use skills_manager::skills::{SkillRecord, SkillTargetRecord};
use skills_manager::workspace::{
    check_delete_local, check_update_from_center, classify_sync_status, enrich_center_status,
    enrich_project_skills, ensure_safe_skill_dir_name, find_best_center_match,
    find_verified_center_match, has_stranded_candidate, project_to_dto, slugify_skill_dir_name, slugify_skill_names,
    stranded_repair, ProjectRecord, ProjectSkillInfo,
};

fn local_skill(path: &str, hash: Option<&str>, modified: Option<i64>) -> ProjectSkillInfo {
    ProjectSkillInfo {
        name: "local-tool".to_string(),
        dir_name: "local-tool".to_string(),
        relative_path: "local-tool".to_string(),
        description: Some("Agent copy".to_string()),
        path: path.to_string(),
        files: vec![],
        enabled: true,
        agent: "test_agent".to_string(),
        agent_display_name: "Test Agent".to_string(),
        tags: Vec::new(),
        in_center: false,
        sync_status: "project_only".to_string(),
        center_skill_id: None,
        last_modified_at: modified,
        content_hash: hash.map(|h| h.to_string()),
    }
}

fn record(id: &str, name: &str, hash: Option<&str>, source_ref: Option<&str>, updated_at: i64) -> SkillRecord {
    SkillRecord {
        id: id.to_string(),
        name: name.to_string(),
        description: Some("Center copy".to_string()),
        source_type: "local".to_string(),
        source_ref: source_ref.map(|s| s.to_string()),
        source_ref_resolved: None,
        source_subpath: None,
        source_branch: None,
        source_revision: None,
        remote_revision: None,
        central_path: format!("/tmp/center/{name}"),
        content_hash: hash.map(|h| h.to_string()),
        enabled: true,
        created_at: 0,
        updated_at,
        status: "ok".to_string(),
        update_status: "local_only".to_string(),
        last_checked_at: Some(0),
        last_check_error: None,
    }
}

fn target(skill_id: &str, tool: &str, path: &str) -> SkillTargetRecord {
    SkillTargetRecord {
        id: format!("t-{skill_id}-{tool}"),
        skill_id: skill_id.to_string(),
        tool: tool.to_string(),
        target_path: path.to_string(),
        mode: "copy".to_string(),
        status: "ok".to_string(),
        synced_at: None,
        last_error: None,
        source_hash: None,
    }
}

#[test]
fn enriching_agent_local_skills_copies_center_tags() {
    let skill = local_skill("/tmp/agent-skills/local-tool", Some("same-hash"), None);
    let managed = SkillRecord {
        id: "center-id".to_string(),
        name: "local-tool".to_string(),
        description: Some("Center copy".to_string()),
        source_type: "local".to_string(),
        source_ref: None,
        source_ref_resolved: None,
        source_subpath: None,
        source_branch: None,
        source_revision: None,
        remote_revision: None,
        central_path: "/tmp/center/local-tool".to_string(),
        content_hash: Some("same-hash".to_string()),
        enabled: true,
        created_at: 0,
        updated_at: 0,
        status: "ok".to_string(),
        update_status: "local_only".to_string(),
        last_checked_at: Some(0),
        last_check_error: None,
    };

    let tags_map = vec![(
        "center-id".to_string(),
        vec!["create".to_string(), "manage".to_string()],
    )];

    let enriched = enrich_center_status(vec![skill], &[managed], &[], &tags_map, &[]);
    assert_eq!(enriched[0].center_skill_id.as_deref(), Some("center-id"));
    assert_eq!(
        enriched[0].tags,
        vec!["create".to_string(), "manage".to_string()]
    );
}

#[test]
fn sync_status_ranks_by_modification_time() {
    let m = record("c", "x", Some("h1"), None, 10_000);
    assert_eq!(classify_sync_status(&local_skill("/p", Some("h1"), None), Some(&m)), "in_sync");
    assert_eq!(classify_sync_status(&local_skill("/p", Some("h2"), None), Some(&m)), "diverged");
    assert_eq!(classify_sync_status(&local_skill("/p", Some("h2"), Some(11_001)), Some(&m)), "project_newer");
    assert_eq!(classify_sync_status(&local_skill("/p", Some("h2"), Some(11_000)), Some(&m)), "diverged");
    assert_eq!(classify_sync_status(&local_skill("/p", Some("h2"), Some(8_999)), Some(&m)), "center_newer");
    assert_eq!(classify_sync_status(&local_skill("/p", None, Some(1)), None), "project_only");
    let nohash = record("c", "x", None, None, 0);
    assert_eq!(classify_sync_status(&local_skill("/p", None, Some(0)), Some(&nohash)), "diverged");
}

#[test]
fn verified_match_ignores_name_only_and_prefers_the_last_best() {
    let skill = local_skill("/agents/x", Some("h"), None);
    let by_name = record("a", "local-tool", None, None, 0);
    let by_hash = record("b", "other", Some("h"), None, 0);
    let by_ref = record("c", "third", None, Some("/agents/x"), 0);
    let by_hash2 = record("d", "fourth", Some("h"), None, 0);
    let all = vec![by_name, by_hash, by_ref, by_hash2];
    assert_eq!(find_verified_center_match(&skill, &all, &[], &[]), Some(2));
    assert_eq!(find_verified_center_match(&skill, &all[..2], &[], &[]), Some(1));
    assert_eq!(find_verified_center_match(&skill, &all[..1], &[], &[]), None);
    let only_hash = vec![record("b", "o", Some("h"), None, 0), record("d", "p", Some("h"), None, 0)];
    assert_eq!(find_verified_center_match(&skill, &only_hash, &[], &[]), Some(1));
}

#[test]
fn verified_match_follows_targets_and_canonical_paths() {
    let skill = local_skill("/link/x", None, None);
    let managed = vec![record("a", "x", None, None, 0)];
    let targets = vec![target("a", "cursor", "/real/x")];
    assert_eq!(find_verified_center_match(&skill, &managed, &targets, &[]), None);
    let table = vec![
        ("/link/x".to_string(), "/real/x".to_string()),
        ("/real/x".to_string(), "/real/x".to_string()),
    ];
    assert_eq!(find_verified_center_match(&skill, &managed, &targets, &table), Some(0));
}

#[test]
fn project_match_accepts_the_directory_name() {
    let skill = local_skill("/p/.cursor/skills/my-tool", None, None);
    let mut s = skill;
    s.dir_name = "My-Tool".to_string();
    let managed = vec![record("a", "My Tool", None, None, 0)];
    assert_eq!(find_best_center_match(&s, &managed, &[]), Some(0));
    let enriched = enrich_project_skills(vec![s], &managed, &[]);
    assert!(enriched[0].in_center);
    assert_eq!(enriched[0].center_skill_id.as_deref(), Some("a"));
    assert_eq!(enriched[0].sync_status, "diverged");
}

#[test]
fn slugs_are_lowercase_dashed_and_never_empty() {
    assert_eq!(slugify_skill_dir_name("My Skill!!"), "my-skill");
    assert_eq!(slugify_skill_dir_name("  --Hello__World.. "), "hello__world");
    assert_eq!(slugify_skill_dir_name("Ünïcode Ωmega"), "n-code-mega");
    assert_eq!(slugify_skill_dir_name("!!!"), "skill");
    assert_eq!(slugify_skill_dir_name(""), "skill");
    assert_eq!(slugify_skill_dir_name("a-b_c.d"), "a-b_c.d");
}

#[test]
fn skill_dir_names_must_be_one_plain_component() {
    assert!(ensure_safe_skill_dir_name("tool").is_ok());
    assert!(ensure_safe_skill_dir_name("tool/").is_ok());
    assert!(ensure_safe_skill_dir_name("  ").is_err());
    assert!(ensure_safe_skill_dir_name("..").is_err());
    assert!(ensure_safe_skill_dir_name(".").is_err());
    assert!(ensure_safe_skill_dir_name("a/b").is_err());
    assert!(ensure_safe_skill_dir_name("/abs").is_err());
    assert_eq!(
        ensure_safe_skill_dir_name("../x").err().unwrap().message,
        "Invalid skill directory name"
    );
}

#[test]
fn project_health_counts_each_state() {
    let rec = ProjectRecord {
        id: "p1".to_string(),
        name: "Demo".to_string(),
        path: "/p".to_string(),
        sort_order: 3,
        created_at: 5,
        updated_at: 6,
    };
    let managed = vec![record("a", "alpha", Some("h"), None, 10_000)];
    let mut in_sync = local_skill("/p/a", Some("h"), None);
    in_sync.dir_name = "zzz".to_string();
    let mut newer = local_skill("/p/b", Some("x"), Some(20_000));
    newer.dir_name = "alpha".to_string();
    let mut alone = local_skill("/p/c", None, None);
    alone.dir_name = "nothing".to_string();
    let dto = project_to_dto(&rec, &[in_sync, newer, alone], &managed, &[]);
    assert_eq!(dto.skill_count, 3);
    assert_eq!(dto.sync_health.in_sync, 1);
    assert_eq!(dto.sync_health.project_newer, 1);
    assert_eq!(dto.sync_health.project_only, 1);
    assert_eq!(dto.sync_health.center_newer, 0);
    assert_eq!(dto.sync_health.diverged, 0);
    assert_eq!(dto.sort_order, 3);
}

#[test]
fn pulling_from_center_refuses_a_newer_local_copy() {
    let managed = vec![record("a", "x", Some("c"), Some("/agents/x"), 1_000)];
    let newer = local_skill("/agents/x", Some("l"), Some(10_000));
    let err = check_update_from_center(&newer, &managed, &[], &[]).err().unwrap();
    assert_eq!(err.message, "Local skill is newer than the Skills Center version");
    let older = local_skill("/agents/x", Some("l"), Some(0));
    assert_eq!(check_update_from_center(&older, &managed, &[], &[]).unwrap(), 0);
    let unknown = local_skill("/elsewhere", None, None);
    assert_eq!(
        check_update_from_center(&unknown, &managed, &[], &[]).err().unwrap().message,
        "No matching managed skill in center"
    );
}

#[test]
fn deleting_a_linked_skill_is_refused() {
    let managed = vec![record("a", "x", Some("h"), None, 0)];
    let skill = local_skill("/agents/x", Some("h"), None);
    let linked = vec![target("a", "cursor", "/agents/x")];
    assert!(check_delete_local(&skill, &managed, &linked, &[]).is_err());
    assert!(check_delete_local(&skill, &managed, &[], &[]).is_ok());
}

#[test]
fn stranded_skills_are_repaired_only_when_in_sync() {
    let managed = vec![record("a", "x", Some("h"), Some("/agents/x"), 0)];
    assert!(has_stranded_candidate(&managed, &[]));
    assert!(!has_stranded_candidate(&managed, &[target("a", "other", "/o")]));
    let skill = local_skill("/agents/x", Some("h"), None);
    assert_eq!(stranded_repair(&skill, "cursor", &managed, &[], &[]), Some(0));
    assert_eq!(
        stranded_repair(&skill, "cursor", &managed, &[target("a", "cursor", "/agents/x")], &[]),
        None
    );
    let diverged = local_skill("/agents/x", Some("other"), None);
    assert_eq!(stranded_repair(&diverged, "cursor", &managed, &[], &[]), None);
}

#[test]
fn slugs_each_name_in_order() {
    let names = vec!["My Skill!!".to_string(), "!!!".to_string(), "a-b_c.d".to_string()];
    assert_eq!(slugify_skill_names(names), vec!["my-skill", "skill", "a-b_c.d"]);
    assert!(slugify_skill_names(Vec::new()).is_empty());
}
